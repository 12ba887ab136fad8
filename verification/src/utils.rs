//! Path extension rewriting and template splicing.

use vstd::prelude::*;

verus! {

use crate::text::{find_sub_from, chars_of, string_of, copy_range, append_str, append_range};

/// What can go wrong outside of parsing: parsing itself is total, so
/// only a bad input path or a template without its marker regions
/// fails.
#[derive(Clone, Copy, PartialEq, Eq, Structural, Debug)]
pub enum BuildError {
    InvalidExtension,
    MissingTemplateRegion,
}

// ---------------------------------------------------------------------
// Extension rewriting
// ---------------------------------------------------------------------

/// The path's final dot-delimited segment is `md`.
pub open spec fn is_md_path(s: Seq<char>) -> bool {
    s.len() >= 3 && s.subrange(s.len() - 3, s.len() as int) == ".md"@
}

/// The path with its trailing `md` segment rewritten to `html`.
pub open spec fn md_to_html_spec(s: Seq<char>) -> Seq<char> {
    s.subrange(0, s.len() - 2) + "html"@
}

/// Rewrites a markdown path's extension: only a trailing `.md`
/// segment is rewritten (`file.md.md` becomes `file.md.html`), and a
/// path whose final segment is not `.md` is rejected.
pub fn md_to_html(file: &str) -> (r: Result<String, BuildError>)
    ensures
        is_md_path(file@) ==> r is Ok && r->Ok_0@ == md_to_html_spec(file@),
        !is_md_path(file@) ==> r == Err::<String, BuildError>(BuildError::InvalidExtension),
{
    let cs = chars_of(file);
    let n = cs.len();
    proof {
        reveal_strlit(".md");
    }
    if n < 3 {
        return Err(BuildError::InvalidExtension);
    }
    if cs[n - 3] == '.' && cs[n - 2] == 'm' && cs[n - 1] == 'd' {
        proof {
            assert(cs@.subrange(n - 3, n as int) =~= ".md"@);
        }
        let mut out = copy_range(&cs, 0, n - 2);
        append_str(&mut out, "html");
        Ok(string_of(&out))
    } else {
        proof {
            if is_md_path(file@) {
                assert(cs@.subrange(n - 3, n as int)[0] == cs@[n - 3]);
                assert(cs@.subrange(n - 3, n as int)[1] == cs@[n - 2]);
                assert(cs@.subrange(n - 3, n as int)[2] == cs@[n - 1]);
            }
        }
        Err(BuildError::InvalidExtension)
    }
}

// ---------------------------------------------------------------------
// Template splicing
// ---------------------------------------------------------------------

/// The template with the marker region's placeholder content replaced
/// by `repl`: the region runs from just after the first occurrence of
/// `marker` to the next `</div>`; `None` when either is missing.
pub open spec fn splice_region(doc: Seq<char>, marker: Seq<char>, repl: Seq<char>) -> Option<
    Seq<char>,
> {
    match find_sub_from(doc, marker, 0) {
        None => None,
        Some(p) => {
            let q0 = p + marker.len();
            match find_sub_from(doc, "</div>"@, q0 as int) {
                None => None,
                Some(q) => Some(
                    doc.subrange(0, q0 as int) + repl + doc.subrange(q, doc.len() as int),
                ),
            }
        },
    }
}

/// The page template with the content region filled with `content`,
/// then the sidebar region of the result filled with `sidebar`;
/// `None` when a marker region is missing.
pub open spec fn replace_html_spec(doc: Seq<char>, content: Seq<char>, sidebar: Seq<char>) -> Option<
    Seq<char>,
> {
    match splice_region(doc, "<div class=\"content\">"@, content) {
        None => None,
        Some(d1) => splice_region(d1, "<div class=\"sidebar\">"@, sidebar),
    }
}

/// Splices the rendered content and the shared sidebar into the page
/// template's two marker regions; fails when a region is absent.
pub fn replace_html(doc: &str, content: &str, sidebar: &str) -> (r: Result<String, BuildError>)
    ensures
        match replace_html_spec(doc@, content@, sidebar@) {
            Some(h) => r is Ok && r->Ok_0@ == h,
            None => r == Err::<String, BuildError>(BuildError::MissingTemplateRegion),
        },
{
    let dv = chars_of(doc);
    let cv = chars_of(content);
    let d1 = match splice_vec(&dv, "<div class=\"content\">", &cv) {
        None => {
            return Err(BuildError::MissingTemplateRegion);
        },
        Some(d1) => d1,
    };
    let sv = chars_of(sidebar);
    match splice_vec(&d1, "<div class=\"sidebar\">", &sv) {
        None => Err(BuildError::MissingTemplateRegion),
        Some(d2) => Ok(string_of(&d2)),
    }
}

/// Replaces one marker region's placeholder content by `repl`.
fn splice_vec(doc: &Vec<char>, marker: &str, repl: &Vec<char>) -> (r: Option<Vec<char>>)
    ensures
        match splice_region(doc@, marker@, repl@) {
            Some(h) => r is Some && r->0@ == h,
            None => r is None,
        },
{
    let mv = chars_of(marker);
    let dl = doc.len();
    let p = match crate::text::find_sub_vec(doc, &mv, 0) {
        None => {
            return None;
        },
        Some(p) => p,
    };
    let q0 = p + mv.len();
    let close = chars_of("</div>");
    let q = match crate::text::find_sub_vec(doc, &close, q0) {
        None => {
            return None;
        },
        Some(q) => q,
    };
    let mut out = copy_range(doc, 0, q0);
    crate::text::append_vec(&mut out, repl);
    append_range(&mut out, doc, q, dl);
    Some(out)
}

} // verus!
