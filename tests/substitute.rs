use svg2colored_png::substitute::apply;
use svg2colored_png::text::split;

#[test]
fn marker_is_replaced() {
    let doc = "<svg><path fill=\"currentColor\" d=\"M0 0\"/></svg>";
    assert_eq!(apply(doc, "112233"), "<svg><path fill=\"#112233\" d=\"M0 0\"/></svg>");
}

#[test]
fn every_marker_is_replaced() {
    let doc = "fill=\"currentColor\"fill=\"currentColor\" x fill=\"currentColor\"";
    let out = apply(doc, "abc");
    assert_eq!(out, "fill=\"#abc\"fill=\"#abc\" x fill=\"#abc\"");
    assert!(!out.contains("currentColor"));
}

#[test]
fn leading_hash_is_stripped() {
    assert_eq!(apply("fill=\"currentColor\"", "#ff00ff"), "fill=\"#ff00ff\"");
    assert_eq!(apply("fill=\"currentColor\"", "##1"), "fill=\"##1\"");
}

#[test]
fn text_without_marker_is_unchanged() {
    let doc = "<svg fill=\"red\">currentColor fill='currentColor'</svg>";
    assert_eq!(apply(doc, "ffffff"), doc);
    assert_eq!(apply("", "ffffff"), "");
}

#[test]
fn unicode_around_marker_is_kept() {
    let doc = "é fill=\"currentColor\" ✓";
    assert_eq!(apply(doc, "12345678"), "é fill=\"#12345678\" ✓");
}

#[test]
fn split_matches_std() {
    for s in ["", ",", "a", "a,b", ",a,", "a,,b", "é,✓"] {
        let want: Vec<String> = s.split(',').map(|x| x.to_string()).collect();
        assert_eq!(split(s, ','), want);
    }
}

#[test]
fn hex_color_leaves_no_marker() {
    let doc = "fill=\"currentColor\"fill=\"currentColor\" fill=\"currentColorfill=\"currentColor\"";
    for color in ["fff", "#ffffff", "Ff00aA11"] {
        let out = apply(doc, color);
        assert!(!out.contains("fill=\"currentColor\""));
    }
}
