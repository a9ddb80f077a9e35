use mdsection::front::split_front_matter;

#[test]
fn title_is_the_first_line_trimmed() {
    let (_, title, _) = split_front_matter(b"  # My Page  \nrest");
    assert_eq!(title.as_slice(), b"# My Page");
}

#[test]
fn description_runs_until_the_first_blank_line() {
    let (fm, _, _) = split_front_matter(b"T\nfirst line\nsecond line\n\nafter");
    assert_eq!(fm.description.as_deref(), Some(b"first line\nsecond line".as_slice()));
    assert!(fm.tags.is_none());
}

#[test]
fn tags_are_gathered_from_hyphen_lines() {
    let (fm, _, body) = split_front_matter(b"T\ntags:\n- alpha\n-  beta \n\nbody1\nbody2");
    let tags = fm.tags.expect("tags expected");
    assert_eq!(tags.len(), 2);
    assert_eq!(tags[0].as_slice(), b"alpha");
    assert_eq!(tags[1].as_slice(), b"beta");
    assert_eq!(body.as_slice(), b"body1\nbody2");
}

#[test]
fn body_needs_a_tag_block_closed_by_a_blank_line() {
    // Without a tag block the scanner never starts gathering body lines.
    let (fm, _, body) = split_front_matter(b"T\ndesc\n\nbody text");
    assert_eq!(fm.description.as_deref(), Some(b"desc".as_slice()));
    assert!(body.is_empty());
}

#[test]
fn non_hyphen_line_ends_the_tag_block() {
    let (fm, _, body) = split_front_matter(b"T\ntags:\n- a\nX\nY");
    let tags = fm.tags.expect("tags expected");
    assert_eq!(tags.len(), 1);
    assert_eq!(tags[0].as_slice(), b"a");
    assert!(body.is_empty());
}

#[test]
fn empty_document_has_nothing() {
    let (fm, title, body) = split_front_matter(b"");
    assert!(fm.description.is_none());
    assert!(fm.tags.is_none());
    assert!(title.is_empty());
    assert!(body.is_empty());
}

#[test]
fn carriage_returns_are_stripped_from_lines() {
    let (fm, title, _) = split_front_matter(b"T\r\ndesc\r\n\r\n");
    assert_eq!(title.as_slice(), b"T");
    assert_eq!(fm.description.as_deref(), Some(b"desc".as_slice()));
}
