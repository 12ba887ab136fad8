use bookmark::utils::{md_to_html, replace_html, BuildError};

#[test]
fn it_change_md_extensxion_to_html() {
    let paths = [
        ("README.md", "README.html"),
        ("./src/rust.md", "./src/rust.html"),
        ("./src/file.md.md", "./src/file.md.html"),
    ];

    paths.into_iter().for_each(|(input, output)| {
        assert_eq!(md_to_html(input).unwrap(), output);
    });
}

#[test]
fn md_to_html_rejects_other_extensions() {
    assert_eq!(md_to_html("README.txt"), Err(BuildError::InvalidExtension));
    assert_eq!(md_to_html("README"), Err(BuildError::InvalidExtension));
    assert_eq!(md_to_html(""), Err(BuildError::InvalidExtension));
    assert_eq!(md_to_html("md"), Err(BuildError::InvalidExtension));
}

#[test]
fn replace_html_splices_both_regions() {
    let template = "<html><div class=\"sidebar\">SB</div><div class=\"content\">BODY</div></html>";
    let out = replace_html(template, "<p>hi</p>", "<ul></ul>").unwrap();
    assert_eq!(
        out,
        "<html><div class=\"sidebar\"><ul></ul></div><div class=\"content\"><p>hi</p></div></html>"
    );
}

#[test]
fn replace_html_missing_region_fails() {
    let template = "<html><div class=\"content\">BODY</div></html>";
    assert_eq!(
        replace_html(template, "x", "y"),
        Err(BuildError::MissingTemplateRegion)
    );
    let no_close = "<html><div class=\"content\">BODY";
    assert_eq!(
        replace_html(no_close, "x", "y"),
        Err(BuildError::MissingTemplateRegion)
    );
}
