use auto_selector::dom::Document;
use auto_selector::extract::{find_stock_change_percent_selector, find_stock_change_selector, find_stock_price_selector, find_text_pattern_selector_near_anchor, scrape_field};
use auto_selector::scan::FieldPattern;
use auto_selector::text::chars_of;

fn classes(list: &[&str]) -> Vec<String> {
    list.iter().map(|c| c.to_string()).collect()
}

fn element(d: &mut Document, parent: usize, tag: &str, cls: &[&str], text: &str) -> usize {
    let e = d.add_element(Some(parent), tag, classes(cls));
    if !text.is_empty() {
        d.add_text(e, text);
    }
    e
}

fn window() -> (Document, usize) {
    let mut d = Document::new();
    let html = d.add_element(None, "html", vec![]);
    let w = element(&mut d, html, "div", &["w"], "");
    element(&mut d, w, "p", &[], "ANCHOR");
    (d, w)
}

#[test]
fn delta_skips_percent_styled_sibling() {
    let (mut d, w) = window();
    element(&mut d, w, "span", &["pct"], "+456 (2.3%)");
    element(&mut d, w, "span", &["abs"], "+123");
    let r = d.resolve_delta(w).unwrap();
    assert_eq!(d.text_of_node(r), chars_of("+123"));
    let sel = find_stock_change_selector(&d, &chars_of("ANCHOR"));
    assert_eq!(scrape_field(&d, &sel), "+123");
}

#[test]
fn delta_needs_a_class_token() {
    let (mut d, w) = window();
    element(&mut d, w, "span", &[], "-7");
    element(&mut d, w, "b", &["x"], "-1,234.5");
    let r = d.resolve_delta(w).unwrap();
    assert_eq!(d.text_of_node(r), chars_of("-1,234.5"));
    let (mut d2, w2) = window();
    element(&mut d2, w2, "span", &[], "+7");
    assert!(d2.resolve_delta(w2).is_none());
}

#[test]
fn percent_prefers_secondary_marker_over_order() {
    let (mut d, w) = window();
    element(&mut d, w, "span", &["pct-item--secondary"], "(+1.0%)");
    element(&mut d, w, "span", &["pct"], "(+2.0%)");
    let r = d.resolve_percent(w, chars_of("ANCHOR")).unwrap();
    assert_eq!(d.text_of_node(r), chars_of("(+1.0%)"));
    let (mut d2, w2) = window();
    element(&mut d2, w2, "span", &["pct"], "(+1.0%)");
    element(&mut d2, w2, "span", &["x", "StyledNumber__item--secondary__RTJc"], "(+2.0%)");
    let r2 = d2.resolve_percent(w2, chars_of("ANCHOR")).unwrap();
    assert_eq!(d2.text_of_node(r2), chars_of("(+2.0%)"));
}

#[test]
fn percent_falls_back_to_last_candidate() {
    let (mut d, w) = window();
    element(&mut d, w, "span", &["a"], "(+1.0%)");
    element(&mut d, w, "span", &["b"], "(-3.5%)");
    element(&mut d, w, "span", &["c"], "(n/a)");
    let sel = find_stock_change_percent_selector(&d, chars_of("ANCHOR"));
    assert_eq!(scrape_field(&d, &sel), "(-3.5%)");
}

#[test]
fn magnitude_prefers_more_class_tokens() {
    let (mut d, w) = window();
    element(&mut d, w, "span", &["one"], "100.5");
    element(&mut d, w, "span", &["a", "b", "c"], "200.5");
    let r = d.resolve_magnitude(w, chars_of("")).unwrap();
    assert_eq!(d.text_of_node(r), chars_of("200.5"));
}

#[test]
fn magnitude_ties_go_to_document_order() {
    let (mut d, w) = window();
    element(&mut d, w, "span", &["a"], "1,000");
    element(&mut d, w, "span", &["b"], "2,000");
    element(&mut d, w, "span", &["c"], "12");
    element(&mut d, w, "span", &["d", "e"], "+5,000");
    element(&mut d, w, "span", &["f", "g"], "30%");
    let r = d.resolve_magnitude(w, chars_of("1000")).unwrap();
    assert_eq!(d.text_of_node(r), chars_of("2,000"));
    let sel = find_stock_price_selector(&d, &chars_of("ANCHOR"), chars_of("nothing"));
    assert_eq!(scrape_field(&d, &sel), "1,000");
}

#[test]
fn code_is_first_four_digit_element() {
    let (mut d, w) = window();
    element(&mut d, w, "span", &["a"], "12345");
    element(&mut d, w, "span", &["b"], "12a4");
    element(&mut d, w, "span", &["c"], " 7203 ");
    element(&mut d, w, "span", &["d"], "6758");
    let r = d.resolve_code(w).unwrap();
    assert_eq!(d.text_of_node(r), chars_of("7203"));
    let sel = find_text_pattern_selector_near_anchor(&d, &chars_of("ANCHOR"));
    assert_eq!(scrape_field(&d, &sel), "7203");
}

#[test]
fn absent_anchor_yields_no_selector() {
    let (mut d, w) = window();
    element(&mut d, w, "span", &["d"], "6758");
    assert!(d.locate(&chars_of("MISSING"), 8).is_none());
    assert!(find_text_pattern_selector_near_anchor(&d, &chars_of("MISSING")).is_none());
    assert!(find_stock_change_selector(&d, &chars_of("MISSING")).is_none());
}

#[test]
fn window_is_outermost_ancestor_within_depth() {
    let mut d = Document::new();
    let html = d.add_element(None, "html", vec![]);
    let a = element(&mut d, html, "div", &["a"], "");
    let b = element(&mut d, a, "div", &["b"], "");
    let c = element(&mut d, b, "div", &["c"], "");
    element(&mut d, c, "p", &[], "  here ");
    let p = c + 1;
    assert_eq!(d.locate(&chars_of("here"), 1), Some(p));
    assert_eq!(d.locate(&chars_of("here"), 2), Some(c));
    assert_eq!(d.locate(&chars_of("here"), 4), Some(a));
    assert_eq!(d.locate(&chars_of("here"), 8), Some(html));
    assert_eq!(d.locate(&chars_of("here"), 0), None);
}

#[test]
fn first_anchor_wins() {
    let mut d = Document::new();
    let html = d.add_element(None, "html", vec![]);
    let a = element(&mut d, html, "div", &["a"], "");
    element(&mut d, a, "p", &[], "X");
    let b = element(&mut d, html, "div", &["b"], "");
    element(&mut d, b, "p", &[], "X");
    assert_eq!(d.locate(&chars_of("X"), 2), Some(a));
}

#[test]
fn scanning_twice_gives_same_candidates() {
    let (mut d, w) = window();
    element(&mut d, w, "span", &["a"], "1,000");
    element(&mut d, w, "span", &["b", "c"], "2,000.5");
    let p = FieldPattern::Magnitude { excluded: vec![] };
    let one = d.scan(w, &p);
    let two = d.scan(w, &p);
    assert_eq!(one.len(), 2);
    assert_eq!(one.len(), two.len());
    for (x, y) in one.iter().zip(two.iter()) {
        assert_eq!(x.index, y.index);
        assert_eq!(x.text, y.text);
        assert_eq!(x.prominence, y.prominence);
    }
    assert_eq!(one[1].prominence, 2);
    assert_eq!(one[1].text, chars_of("2,000.5"));
}

#[test]
fn selector_round_trip_finds_same_element() {
    let (mut d, w) = window();
    let e = element(&mut d, w, "span", &["x", "y"], "v");
    element(&mut d, w, "span", &["x"], "other");
    let sel = d.build_selector(e);
    assert_eq!(sel.tag, "span");
    assert_eq!(sel.classes, vec!["x".to_string(), "y".to_string()]);
    assert_eq!(d.query_first(&sel), Some(e));
    let later = e + 2;
    let sel2 = d.build_selector(later);
    assert_eq!(d.query_first(&sel2), Some(e));
}

#[test]
fn full_text_concatenates_descendants() {
    let (mut d, w) = window();
    let s = element(&mut d, w, "span", &["a"], " 1,");
    element(&mut d, s, "b", &[], "234 ");
    assert_eq!(d.full_text_of(s), chars_of(" 1,234 "));
    assert_eq!(d.text_of_node(s), chars_of("1,234"));
    assert!(d.has_ancestor(w, s + 2));
    assert!(!d.has_ancestor(s, w));
}

#[test]
fn descriptor_keeps_each_class_once_in_order() {
    let (mut d, w) = window();
    let e = element(&mut d, w, "p", &["x", "y", "x"], "t");
    let f = element(&mut d, w, "p", &[], "t");
    let sel = d.build_selector(e);
    assert_eq!(sel.tag, "p");
    assert_eq!(sel.classes, vec!["x".to_string(), "y".to_string()]);
    assert_eq!(d.query_first(&sel), Some(e));
    let bare = d.build_selector(f);
    assert_eq!(bare.tag, "p");
    assert!(bare.classes.is_empty());
}

#[test]
fn attaching_keeps_document_order() {
    let mut d = Document::new();
    assert!(!d.can_attach(0));
    let html = d.add_element(None, "html", vec![]);
    let a = element(&mut d, html, "div", &[], "");
    let t = d.add_text(a, "x");
    assert!(d.can_attach(a));
    assert!(d.can_attach(html));
    assert!(!d.can_attach(t));
    let b = element(&mut d, html, "div", &[], "");
    assert!(!d.can_attach(a));
    assert!(d.can_attach(b));
}
