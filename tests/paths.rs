use svg2colored_png::paths::{is_vector_document, join, output_path};

#[test]
fn joins_like_pathbuf_push() {
    assert_eq!(join("out", "red"), "out/red");
    assert_eq!(join("out/", "red"), "out/red");
    assert_eq!(join("", "red"), "red");
    assert_eq!(join("out", "/abs"), "/abs");
}

#[test]
fn recognises_vector_documents() {
    assert!(is_vector_document("icon.svg"));
    assert!(is_vector_document("a.b.svg"));
    assert!(is_vector_document("..svg"));
    assert!(!is_vector_document(".svg"));
    assert!(!is_vector_document("icon.png"));
    assert!(!is_vector_document("icon.SVG"));
    assert!(!is_vector_document("icon"));
    assert!(!is_vector_document(""));
}

#[test]
fn output_path_drops_the_extension() {
    assert_eq!(output_path("output", "ff0000", "icon.svg"), "output/ff0000/icon.png");
    assert_eq!(output_path("out/", "primary", "a.b.svg"), "out/primary/a.b.png");
}
