use svg2colored_png::palette::{Palette, PaletteEntry};

fn pairs(p: &Palette) -> Vec<(String, String)> {
    p.entries().into_iter().map(|e: PaletteEntry| (e.label, e.color)).collect()
}

fn owned(v: &[(&str, &str)]) -> Vec<(String, String)> {
    v.iter().map(|(a, b)| (a.to_string(), b.to_string())).collect()
}

#[test]
fn bare_colors_label_themselves() {
    let p = Palette::parse("ff0000,00ff00");
    assert!(matches!(p, Palette::Array(_)));
    assert_eq!(pairs(&p), owned(&[("ff0000", "ff0000"), ("00ff00", "00ff00")]));
}

#[test]
fn bare_colors_keep_order_and_count() {
    let raw = "0d6efd,6c757d,198754,0dcaf0,ffc107,dc3545,f8f9fa,212529,ffffff,000000";
    let p = Palette::parse(raw);
    let got = pairs(&p);
    assert_eq!(got.len(), 10);
    for (i, tok) in raw.split(',').enumerate() {
        assert_eq!(got[i], (tok.to_string(), tok.to_string()));
    }
}

#[test]
fn empty_tokens_are_kept() {
    let p = Palette::parse("a,,b");
    assert_eq!(pairs(&p), owned(&[("a", "a"), ("", ""), ("b", "b")]));
    let e = Palette::parse("");
    assert_eq!(pairs(&e), owned(&[("", "")]));
}

#[test]
fn pairs_give_object_form() {
    let p = Palette::parse("black:000000,white:ffffff");
    assert!(matches!(p, Palette::Object(_)));
    assert_eq!(pairs(&p), owned(&[("black", "000000"), ("white", "ffffff")]));
}

#[test]
fn malformed_pairs_are_dropped() {
    let p = Palette::parse("primary:112233,orphan,a:b:c,second:445566");
    assert!(matches!(p, Palette::Object(_)));
    assert_eq!(pairs(&p), owned(&[("primary", "112233"), ("second", "445566")]));
}

#[test]
fn all_pairs_malformed_gives_empty_object() {
    let p = Palette::parse("x:y:z");
    assert!(matches!(p, Palette::Object(_)));
    assert!(pairs(&p).is_empty());
}

#[test]
fn empty_label_or_color_is_accepted() {
    let p = Palette::parse(":123,abc:");
    assert_eq!(pairs(&p), owned(&[("", "123"), ("abc", "")]));
}
