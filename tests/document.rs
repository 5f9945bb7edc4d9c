use ralog::document::{
    header_from_fields, parse_header, render_document, split_front_matter, DocError, HeaderField,
};

const DOC: &str = "---\nname: Shoyu\nimage: shoyu.jpg\nlocation: Tokyo\n---\nA *very* good bowl.\n";

#[test]
fn split_takes_text_between_and_after_markers() {
    let (h, b) = split_front_matter("intro---head---body---more").unwrap();
    assert_eq!(h, "head");
    assert_eq!(b, "body---more");
}

#[test]
fn split_with_one_marker_fails() {
    assert_eq!(
        split_front_matter("---\nname: a\n").unwrap_err(),
        DocError::MissingHeaderBlock
    );
    assert_eq!(split_front_matter("").unwrap_err(), DocError::MissingHeaderBlock);
}

#[test]
fn split_with_four_dashes_counts_overlapping_markers_once() {
    assert_eq!(split_front_matter("----").unwrap_err(), DocError::MissingHeaderBlock);
    let (h, b) = split_front_matter("------").unwrap();
    assert_eq!(h, "");
    assert_eq!(b, "");
}

#[test]
fn fields_missing_in_order() {
    let s = |t: &str| Some(t.to_string());
    assert_eq!(
        header_from_fields(None, None, None).unwrap_err(),
        DocError::InvalidHeader(HeaderField::Name)
    );
    assert_eq!(
        header_from_fields(s("n"), None, s("l")).unwrap_err(),
        DocError::InvalidHeader(HeaderField::Image)
    );
    assert_eq!(
        header_from_fields(s("n"), s("i"), None).unwrap_err(),
        DocError::InvalidHeader(HeaderField::Location)
    );
    let r = header_from_fields(s("n"), s("i"), s("l")).unwrap();
    assert_eq!((r.name.as_str(), r.image.as_str(), r.location.as_str()), ("n", "i", "l"));
}

#[test]
fn parse_header_reads_fields() {
    let r = parse_header("name: Miso\nimage: m.png\nlocation: Sapporo\nrating: 3\n").unwrap();
    assert_eq!(r.name, "Miso");
    assert_eq!(r.image, "m.png");
    assert_eq!(r.location, "Sapporo");
}

#[test]
fn parse_header_missing_or_mistyped_field() {
    assert_eq!(
        parse_header("image: m.png\nlocation: Sapporo\n").unwrap_err(),
        DocError::InvalidHeader(HeaderField::Name)
    );
    assert_eq!(
        parse_header("name: Miso\nimage: m.png\n").unwrap_err(),
        DocError::InvalidHeader(HeaderField::Location)
    );
}

#[test]
fn parse_header_reads_scalars_as_text() {
    let r = parse_header("name: 123\nimage: true\nlocation: x\n").unwrap();
    assert_eq!(r.name, "123");
    assert_eq!(r.image, "true");
}

#[test]
fn parse_header_rejects_non_scalar_values() {
    assert_eq!(
        parse_header("name: Miso\nimage: [1, 2]\nlocation: x\n").unwrap_err(),
        DocError::UnreadableHeader
    );
    assert_eq!(parse_header("- a\n- b\n").unwrap_err(), DocError::UnreadableHeader);
}

#[test]
fn parse_header_unreadable_yaml() {
    assert_eq!(parse_header("name: [unclosed").unwrap_err(), DocError::UnreadableHeader);
}

#[test]
fn render_document_renders_markdown_body() {
    let (r, page) = render_document(DOC).unwrap();
    assert_eq!(r.name, "Shoyu");
    assert!(page.contains("<h1>Shoyu</h1>"));
    assert!(page.contains("<p>A <em>very</em> good bowl.</p>"));
    assert!(!page.contains("*very*"));
}

#[test]
fn render_document_twice_is_identical() {
    assert_eq!(render_document(DOC).unwrap().1, render_document(DOC).unwrap().1);
}

#[test]
fn render_document_single_marker_fails() {
    assert_eq!(
        render_document("---\nname: a\nimage: b\nlocation: c\n# body").unwrap_err(),
        DocError::MissingHeaderBlock
    );
}

#[test]
fn render_document_missing_field_fails() {
    assert_eq!(
        render_document("---\nname: a\nlocation: c\n---\nbody").unwrap_err(),
        DocError::InvalidHeader(HeaderField::Image)
    );
}

#[test]
fn error_messages() {
    assert_eq!(
        DocError::MissingHeaderBlock.message(),
        "malformed document: missing header block"
    );
    assert_eq!(
        DocError::InvalidHeader(HeaderField::Location).message(),
        "invalid header: location missing or wrong type"
    );
    assert_eq!(
        DocError::UnreadableHeader.message(),
        "invalid header: not a YAML mapping of strings"
    );
}
