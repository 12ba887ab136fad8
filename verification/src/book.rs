//! The sidebar fragment shared by every rendered page.

use vstd::prelude::*;

verus! {

use crate::config::Page;
use crate::text::{replace_all, chars_of, string_of, append_vec, replace_all_vec};
use crate::utils::{is_md_path, md_to_html_spec, md_to_html, BuildError};

/// The book: a namespace for whole-book operations.
pub struct Book;

/// Every page's source path carries the markdown extension.
pub open spec fn all_md_paths(pages: Seq<Page>) -> bool {
    forall|i: int| 0 <= i < pages.len() ==> is_md_path(#[trigger] pages[i].path@)
}

/// One sidebar entry: the chapter template with `$href` replaced by
/// the page's rewritten path and `$text` by its title.
pub open spec fn chapter_item(chap_t: Seq<char>, page: Page) -> Seq<char> {
    replace_all(
        replace_all(chap_t, "$href"@, md_to_html_spec(page.path@)),
        "$text"@,
        page.title@,
    )
}

/// The concatenation of the sidebar entries of `pages` from `i` on.
pub open spec fn chapters_of(chap_t: Seq<char>, pages: Seq<Page>, i: int) -> Seq<char>
    decreases pages.len() - i when 0 <= i
{
    if i >= pages.len() {
        Seq::empty()
    } else {
        chapter_item(chap_t, pages[i]) + chapters_of(chap_t, pages, i + 1)
    }
}

/// The whole sidebar: the sidebar template with `$chapters` replaced
/// by the concatenated entries and `$title` by the book's title.
pub open spec fn sidebar_spec(
    pages: Seq<Page>,
    title: Seq<char>,
    chap_t: Seq<char>,
    side_t: Seq<char>,
) -> Seq<char> {
    replace_all(
        replace_all(side_t, "$chapters"@, chapters_of(chap_t, pages, 0)),
        "$title"@,
        title,
    )
}

impl Book {
    /// Builds the sidebar fragment: one chapter entry per page, each
    /// with its href rewritten to the page's HTML output path, spliced
    /// into the sidebar template under the book's title.  Fails when a
    /// page's path does not end in the markdown extension.
    pub fn make_sidebar(
        pages: &Vec<Page>,
        title: &str,
        chapter_template: &str,
        sidebar_template: &str,
    ) -> (r: Result<String, BuildError>)
        ensures
            all_md_paths(pages@) ==> r is Ok && r->Ok_0@ == sidebar_spec(
                pages@,
                title@,
                chapter_template@,
                sidebar_template@,
            ),
            !all_md_paths(pages@) ==> r == Err::<String, BuildError>(BuildError::InvalidExtension),
    {
        proof {
            reveal_strlit("$href");
            reveal_strlit("$text");
            reveal_strlit("$chapters");
            reveal_strlit("$title");
        }
        let chap_t = chars_of(chapter_template);
        let href_pat = chars_of("$href");
        let text_pat = chars_of("$text");
        let mut chapters: Vec<char> = Vec::new();
        let mut k: usize = 0;
        proof {
            assert(chapters@ + chapters_of(chap_t@, pages@, 0) =~= chapters_of(
                chap_t@,
                pages@,
                0,
            ));
        }
        while k < pages.len()
            invariant
                k <= pages@.len(),
                chap_t@ == chapter_template@,
                href_pat@ == "$href"@,
                text_pat@ == "$text"@,
                "$href"@.len() == 5,
                "$text"@.len() == 5,
                forall|i: int| 0 <= i < k ==> is_md_path(#[trigger] pages@[i].path@),
                chapters_of(chap_t@, pages@, 0) == chapters@ + chapters_of(
                    chap_t@,
                    pages@,
                    k as int,
                ),
            decreases pages@.len() - k,
        {
            let href = match md_to_html(pages[k].path.as_str()) {
                Ok(h) => h,
                Err(_) => {
                    proof {
                        assert(!is_md_path(pages@[k as int].path@));
                        assert(!all_md_paths(pages@));
                    }
                    return Err(BuildError::InvalidExtension);
                },
            };
            let hv = chars_of(href.as_str());
            let step1 = replace_all_vec(&chap_t, &href_pat, &hv);
            let tv = chars_of(pages[k].title.as_str());
            let item = replace_all_vec(&step1, &text_pat, &tv);
            append_vec(&mut chapters, &item);
            proof {
                assert(item@ == chapter_item(chap_t@, pages@[k as int]));
                assert(chapters_of(chap_t@, pages@, k as int) == chapter_item(
                    chap_t@,
                    pages@[k as int],
                ) + chapters_of(chap_t@, pages@, k as int + 1));
                assert((chapters@ + chapters_of(chap_t@, pages@, k as int + 1)) =~= (chapters@
                    + chapters_of(chap_t@, pages@, k as int + 1)));
                assert(chapters_of(chap_t@, pages@, 0) == chapters@ + chapters_of(
                    chap_t@,
                    pages@,
                    k as int + 1,
                )) by {
                    assert((chapters@ + (chapter_item(chap_t@, pages@[k as int]) + chapters_of(
                        chap_t@,
                        pages@,
                        k as int + 1,
                    ))) =~= ((chapters@ + chapter_item(chap_t@, pages@[k as int]))
                        + chapters_of(chap_t@, pages@, k as int + 1)));
                }
            }
            k += 1;
        }
        proof {
            assert(chapters_of(chap_t@, pages@, pages@.len() as int) =~= Seq::<char>::empty());
            assert(chapters@ + Seq::<char>::empty() =~= chapters@);
            assert(all_md_paths(pages@));
        }
        let side_t = chars_of(sidebar_template);
        let chapters_pat = chars_of("$chapters");
        let step1 = replace_all_vec(&side_t, &chapters_pat, &chapters);
        let title_pat = chars_of("$title");
        let tv = chars_of(title);
        let out = replace_all_vec(&step1, &title_pat, &tv);
        Ok(string_of(&out))
    }
}

} // verus!
