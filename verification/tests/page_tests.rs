use mdsection::page::process_markdown;

#[test]
fn whole_page_slots_are_filled() {
    let md = b"# Hello\nMy desc\ntags:\n- rust\n\n# Hello\n\nSome *text*\n";
    let t = process_markdown(md);
    assert_eq!(t.title.as_slice(), b"Hello");
    assert_eq!(t.description.as_slice(), b"My desc");
    assert_eq!(t.url.as_slice(), b"https://example.com/sample");
    assert_eq!(t.image.as_slice(), b"https://example.com/ogp.png");
    let expected_body = "        <div class=\"section\">\n            <h1>Hello</h1>\n            <p>Some <em>text</em></p>\n        </div>\n";
    assert_eq!(t.body, expected_body.as_bytes().to_vec());
    let expected_toc = "<ul class=\"toc-list\"><li class=\"toc-level1\"><a href=\"#hello\">Hello</a></li></ul>";
    assert_eq!(t.toc, expected_toc.as_bytes().to_vec());
    assert_eq!(t.tags.len(), 1);
    assert_eq!(t.tags[0].name.as_slice(), b"rust");
    assert_eq!(t.tags[0].url.as_slice(), b"/tags/rust.html");
}

#[test]
fn missing_description_falls_back() {
    let t = process_markdown(b"# T\n");
    assert_eq!(t.description.as_slice(), b"no description");
    assert!(t.tags.is_empty());
}

#[test]
fn title_hash_marks_are_cleaned() {
    let t = process_markdown(b"## Sub Title\n");
    assert_eq!(t.title.as_slice(), b"Sub Title");
}

#[test]
fn empty_document_yields_empty_body_and_toc() {
    let t = process_markdown(b"");
    assert_eq!(t.title.as_slice(), b"");
    assert!(t.body.is_empty());
    assert!(t.toc.is_empty());
    assert!(t.tags.is_empty());
}
