use mdsection::render::wrap_head_sections_nested;
use mdsection::tree::{build_section_tree, Section};

fn render(root: &Section, indent: usize) -> Vec<u8> {
    let mut buf = Vec::new();
    root.fmt_with_indent(&mut buf, indent);
    buf
}

#[test]
fn heading_run_nests_by_depth() {
    // H1, H2, H3, H2: the second H2 closes H3 and H2 but not H1.
    let html = b"<h1>A</h1><h2>B</h2><h3>C</h3><h2>D</h2>";
    let spans = vec![(0usize, 10usize, 1usize), (10, 20, 2), (20, 30, 3), (30, 40, 2)];
    let root = build_section_tree(html, &spans);
    let Section::Root(children) = root else {
        panic!("expected a root");
    };
    assert_eq!(children.len(), 1);
    let Section::Section { level, head, children } = &children[0] else {
        panic!("expected the H1 section");
    };
    assert_eq!(*level, 1);
    assert_eq!(head.as_slice(), b"<h1>A</h1>");
    assert_eq!(children.len(), 2);
    let Section::Section { level: l_b, children: b_children, .. } = &children[0] else {
        panic!("expected the first H2 section");
    };
    assert_eq!(*l_b, 2);
    assert_eq!(b_children.len(), 1);
    let Section::Section { level: l_c, children: c_children, .. } = &b_children[0] else {
        panic!("expected the H3 section");
    };
    assert_eq!(*l_c, 3);
    assert!(c_children.is_empty());
    let Section::Section { level: l_d, children: d_children, .. } = &children[1] else {
        panic!("expected the second H2 section");
    };
    assert_eq!(*l_d, 2);
    assert!(d_children.is_empty());
}

#[test]
fn shallower_heading_closes_deeper_one() {
    // H2 then H1: the incoming H1 pops the open H2, leaving two siblings
    // under the root, the H1 after the H2.
    let html = b"<h2>A</h2><h1>B</h1>";
    let spans = vec![(0usize, 10usize, 2usize), (10, 20, 1)];
    let root = build_section_tree(html, &spans);
    let Section::Root(children) = root else {
        panic!("expected a root");
    };
    assert_eq!(children.len(), 2);
    let Section::Section { level: first, children: c1, .. } = &children[0] else {
        panic!("expected the H2 section first");
    };
    assert_eq!(*first, 2);
    assert!(c1.is_empty());
    let Section::Section { level: second, children: c2, .. } = &children[1] else {
        panic!("expected the H1 section second");
    };
    assert_eq!(*second, 1);
    assert!(c2.is_empty());
}

#[test]
fn marker_closes_exactly_one_section() {
    // Two sections open; one marker closes the innermost, the next closes
    // the other; the remaining text lands at the root.
    let html = b"<h1>A</h1><h2>B</h2><p>;;;</p><p>;;;</p><p>x</p>";
    let spans = vec![(0usize, 10usize, 1usize), (10, 20, 2)];
    let root = build_section_tree(html, &spans);
    let Section::Root(children) = root else {
        panic!("expected a root");
    };
    assert_eq!(children.len(), 2);
    let Section::Section { level, children: inner, .. } = &children[0] else {
        panic!("expected the H1 section");
    };
    assert_eq!(*level, 1);
    assert_eq!(inner.len(), 1);
    assert!(matches!(&inner[0], Section::Section { level: 2, .. }));
    let Section::Content(tail) = &children[1] else {
        panic!("expected trailing content at the root");
    };
    assert_eq!(tail.as_slice(), b"<p>x</p>");
}

#[test]
fn marker_at_root_is_a_no_op() {
    let html = b"<p>;;;</p><p>y</p>";
    let spans: Vec<(usize, usize, usize)> = Vec::new();
    let root = build_section_tree(html, &spans);
    let Section::Root(children) = root else {
        panic!("expected a root");
    };
    assert_eq!(children.len(), 1);
    let Section::Content(text) = &children[0] else {
        panic!("expected one content leaf");
    };
    assert_eq!(text.as_slice(), b"<p>y</p>");
}

#[test]
fn preformatted_leaf_is_verbatim() {
    let text = b"<pre><code>fn f() {\n\n    body\n}</code></pre>".to_vec();
    let leaf = Section::Content(text.clone());
    let mut expected = text.clone();
    expected.push(b'\n');
    assert_eq!(render(&leaf, 0), expected);
    // At indent 1 only the surrounding four spaces are added.
    let mut indented = b"    ".to_vec();
    indented.extend_from_slice(&text);
    indented.push(b'\n');
    assert_eq!(render(&leaf, 1), indented);
}

#[test]
fn plain_leaf_is_trimmed_line_by_line() {
    let leaf = Section::Content(b"  first \n\n   second  ".to_vec());
    assert_eq!(render(&leaf, 0), b"first\nsecond\n".to_vec());
    assert_eq!(render(&leaf, 1), b"    first\n    second\n".to_vec());
}

#[test]
fn no_headings_renders_trimmed_lines() {
    let out = wrap_head_sections_nested(b"<p>hello</p>\n<p>world</p>");
    assert_eq!(
        out,
        b"        <p>hello</p>\n        <p>world</p>\n".to_vec(),
    );
}

#[test]
fn empty_document_renders_nothing() {
    assert_eq!(wrap_head_sections_nested(b""), Vec::<u8>::new());
}

#[test]
fn one_heading_is_wrapped() {
    let out = wrap_head_sections_nested(b"<h1>T</h1>");
    let expected = b"        <div class=\"section\">\n            <h1>T</h1>\n        </div>\n";
    assert_eq!(out, expected.to_vec());
}

#[test]
fn marker_closes_section_in_full_pipeline() {
    let out = wrap_head_sections_nested(b"<h1>A</h1>x<p>;;;</p>y");
    let expected = b"        <div class=\"section\">\n            <h1>A</h1>\n            x\n        </div>\n        y\n";
    assert_eq!(out, expected.to_vec());
}

#[test]
fn heading_attributes_are_kept_in_the_span() {
    let out = wrap_head_sections_nested(b"<h2 id=\"x\">T</h2>");
    let expected =
        b"        <div class=\"section\">\n            <h2 id=\"x\">T</h2>\n        </div>\n";
    assert_eq!(out, expected.to_vec());
}
