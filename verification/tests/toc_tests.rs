use mdsection::scan::Heading;
use mdsection::toc::{build_toc, render_toc, TocEntry};

fn heading(level: u8, text: &[u8]) -> Heading {
    Heading { start: 0, end: 0, level_digit: b'0' + level, text: text.to_vec() }
}

#[test]
fn anchor_replaces_spaces_and_lower_cases() {
    let root = build_toc(&vec![heading(1, b"Getting Started")]);
    assert_eq!(root.children.len(), 1);
    assert_eq!(root.children[0].text.as_slice(), b"Getting Started");
    assert_eq!(root.children[0].id.as_slice(), b"getting-started");
}

#[test]
fn identical_texts_collide_on_the_same_anchor() {
    let root = build_toc(&vec![heading(1, b"Setup"), heading(1, b"Setup")]);
    assert_eq!(root.children.len(), 2);
    assert_eq!(root.children[0].id, root.children[1].id);
    assert_eq!(root.children[0].id.as_slice(), b"setup");
}

#[test]
fn code_spans_are_stripped_from_entry_text() {
    let root = build_toc(&vec![heading(2, b"a<code>b</code>c")]);
    assert_eq!(root.children[0].text.as_slice(), b"abc");
    assert_eq!(root.children[0].id.as_slice(), b"abc");
}

#[test]
fn toc_nests_like_the_section_tree() {
    let root = build_toc(&vec![heading(1, b"A"), heading(2, b"B"), heading(1, b"C")]);
    assert_eq!(root.level, 0);
    assert_eq!(root.children.len(), 2);
    assert_eq!(root.children[0].text.as_slice(), b"A");
    assert_eq!(root.children[0].children.len(), 1);
    assert_eq!(root.children[0].children[0].text.as_slice(), b"B");
    assert_eq!(root.children[1].text.as_slice(), b"C");
    assert!(root.children[1].children.is_empty());
}

#[test]
fn rendered_list_carries_levels_and_anchors() {
    let root = build_toc(&vec![heading(1, b"A"), heading(2, b"B"), heading(1, b"C")]);
    let out = render_toc(&root.children);
    let expected = "<ul class=\"toc-list\"><li class=\"toc-level1\"><a href=\"#a\">A</a><ul class=\"toc-list\"><li class=\"toc-level2\"><a href=\"#b\">B</a></li></ul></li><li class=\"toc-level1\"><a href=\"#c\">C</a></li></ul>";
    assert_eq!(out, expected.as_bytes().to_vec());
}

#[test]
fn empty_heading_list_renders_nothing() {
    let root = build_toc(&Vec::new());
    assert!(root.children.is_empty());
    assert_eq!(render_toc(&root.children), Vec::<u8>::new());
}

#[test]
fn entries_without_text_are_omitted_entirely() {
    let root = build_toc(&vec![heading(1, b"")]);
    assert_eq!(root.children.len(), 1);
    assert_eq!(render_toc(&root.children), Vec::<u8>::new());
}

#[test]
fn hand_built_entries_render() {
    let entries = vec![TocEntry {
        level: 3,
        text: b"Deep".to_vec(),
        id: b"deep".to_vec(),
        children: Vec::new(),
    }];
    let out = render_toc(&entries);
    assert_eq!(
        out,
        b"<ul class=\"toc-list\"><li class=\"toc-level3\"><a href=\"#deep\">Deep</a></li></ul>"
            .to_vec(),
    );
}
