use bookmark::book::Book;
use bookmark::config::{Config, Page};
use bookmark::utils::BuildError;

#[test]
fn make_sidebar_builds_one_entry_per_page() {
    let pages = vec![
        Page {
            title: String::from("Intro"),
            path: String::from("intro.md"),
        },
        Page {
            title: String::from("Usage"),
            path: String::from("usage.md"),
        },
    ];
    let out = Book::make_sidebar(
        &pages,
        "My Book",
        "<li><a href=\"$href\">$text</a></li>",
        "<div>$title<ul>$chapters</ul></div>",
    )
    .unwrap();
    assert_eq!(
        out,
        "<div>My Book<ul><li><a href=\"intro.html\">Intro</a></li><li><a href=\"usage.html\">Usage</a></li></ul></div>"
    );
}

#[test]
fn make_sidebar_rejects_non_markdown_page() {
    let pages = vec![Page {
        title: String::from("Bad"),
        path: String::from("bad.txt"),
    }];
    let r = Book::make_sidebar(&pages, "T", "$href $text", "$title $chapters");
    assert_eq!(r, Err(BuildError::InvalidExtension));
}

#[test]
fn config_updates_touch_one_field() {
    let mut c = Config {
        bookname: String::from("old"),
        author: String::from("nobody"),
        root_dir: String::from("src"),
        dist_dir: String::from("dist"),
        pages: Vec::new(),
    };
    c.update_author(String::from("ada"));
    assert_eq!(c.author, "ada");
    assert_eq!(c.bookname, "old");
    c.update_bookname(String::from("new"));
    assert_eq!(c.bookname, "new");
    assert_eq!(c.author, "ada");
    assert_eq!(c.root_dir, "src");
    assert_eq!(c.dist_dir, "dist");
}
