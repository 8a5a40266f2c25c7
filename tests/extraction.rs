use auto_selector::classify::PageType;
use auto_selector::dom::Document;
use auto_selector::extract::{extract, extract_as, find_fx_update_time, find_index_update_time_selector, find_name_dynamically, find_stock_update_time_selector, scrape_field};

fn classes(list: &[&str]) -> Vec<String> {
    list.iter().map(|c| c.to_string()).collect()
}

fn element(d: &mut Document, parent: usize, tag: &str, cls: &[&str], text: &str) -> usize {
    let e = d.add_element(Some(parent), tag, classes(cls));
    if !text.is_empty() {
        d.add_text(e, text);
    }
    e
}

fn board() -> Document {
    let mut d = Document::new();
    let html = d.add_element(None, "html", vec![]);
    let board = element(&mut d, html, "div", &["board"], "");
    element(&mut d, board, "h2", &["name"], "TICKR");
    element(&mut d, board, "span", &["code"], "1234");
    element(&mut d, board, "span", &["price", "value", "big"], "5,678.90");
    element(&mut d, board, "span", &["change"], "+12.3");
    element(&mut d, board, "span", &["pct", "item--secondary"], "(+0.5%)");
    d
}

#[test]
fn window_fields_resolve_from_label_anchor() {
    let d = board();
    let r = extract(&d, "^DJI").ok().unwrap();
    assert_eq!(r.name, "TICKR");
    assert_eq!(r.code, "1234");
    assert_eq!(r.price, "5,678.90");
    assert_eq!(r.change, "+12.3");
    assert_eq!(r.change_percent, "(+0.5%)");
    assert_eq!(r.update_time, "");
    assert_eq!(r.selector_type, "dynamic");
}

#[test]
fn missing_label_fails_extraction() {
    let mut d = Document::new();
    let html = d.add_element(None, "html", vec![]);
    element(&mut d, html, "span", &["price"], "1,234");
    element(&mut d, html, "h2", &["num"], "2024");
    let r = extract(&d, "6758");
    match r {
        Err(e) => assert_eq!(e.message(), "Could not dynamically find a valid name."),
        Ok(_) => panic!("extraction without a label must fail"),
    }
}

#[test]
fn code_falls_back_to_identifier() {
    let mut d = Document::new();
    let html = d.add_element(None, "html", vec![]);
    element(&mut d, html, "h2", &["name"], "Acme Corp");
    element(&mut d, html, "span", &["p", "q"], "987.5");
    let r = extract_as(&d, "ACME", PageType::SingleIndex).ok().unwrap();
    assert_eq!(r.code, "ACME");
    assert_eq!(r.name, "Acme Corp");
    assert_eq!(r.price, "987.5");
    assert_eq!(r.change, "");
    assert_eq!(r.change_percent, "");
}

#[test]
fn price_never_reads_the_identifier_code() {
    let mut d = Document::new();
    let html = d.add_element(None, "html", vec![]);
    element(&mut d, html, "h2", &["name"], "Acme(株)");
    element(&mut d, html, "span", &["a", "b", "c", "d"], "6758");
    element(&mut d, html, "span", &["v"], "3,210");
    let r = extract_as(&d, "6758", PageType::Equity).ok().unwrap();
    assert_eq!(r.code, "6758");
    assert_eq!(r.price, "3,210");
}

#[test]
fn equity_change_uses_previous_day_anchor() {
    let mut d = Document::new();
    let html = d.add_element(None, "html", vec![]);
    let head = element(&mut d, html, "header", &[], "");
    element(&mut d, head, "h2", &["name"], "ソニーグループ(株)");
    element(&mut d, head, "span", &["code"], "6758");
    element(&mut d, head, "span", &["price", "big"], "3,500");
    let box_ = element(&mut d, html, "dl", &["chg"], "");
    element(&mut d, box_, "dt", &["label"], "前日比");
    element(&mut d, box_, "span", &["delta"], "-25");
    element(&mut d, box_, "span", &["rate"], "(-0.71%)");
    let r = extract(&d, "6758").ok().unwrap();
    assert_eq!(r.name, "ソニーグループ(株)");
    assert_eq!(r.code, "6758");
    assert_eq!(r.price, "3,500");
    assert_eq!(r.change, "-25");
    assert_eq!(r.change_percent, "(-0.71%)");
}

#[test]
fn currency_pair_uses_bid_and_change_anchors() {
    let mut d = Document::new();
    let html = d.add_element(None, "html", vec![]);
    element(&mut d, html, "h2", &["name"], "USD/JPY");
    let bid = element(&mut d, html, "div", &["bid"], "");
    element(&mut d, bid, "dt", &[], "Bid");
    element(&mut d, bid, "span", &["rate", "main"], "151.234");
    let chg = element(&mut d, html, "div", &["chg"], "");
    element(&mut d, chg, "dt", &[], "Change");
    element(&mut d, chg, "span", &["up"], "+0.456");
    let ul = element(&mut d, html, "ul", &[], "");
    element(&mut d, ul, "li", &[], "リアルタイム");
    element(&mut d, ul, "li", &["t"], " 10:30 ");
    let r = extract(&d, "USDJPY=FX").ok().unwrap();
    assert_eq!(r.name, "USD/JPY");
    assert_eq!(r.code, "USDJPY=FX");
    assert_eq!(r.price, "151.234");
    assert_eq!(r.change, "+0.456");
    assert_eq!(r.change_percent, "");
    assert_eq!(r.update_time, "10:30");
    assert_eq!(find_fx_update_time(&d), "10:30");
}

#[test]
fn stock_time_found_in_footer_near_real_time_label() {
    let mut d = Document::new();
    let html = d.add_element(None, "html", vec![]);
    let main = element(&mut d, html, "div", &["board"], "");
    element(&mut d, main, "span", &["rt"], "リアルタイム株価");
    let footer = element(&mut d, main, "div", &["PriceBoard__mainFooter__16pO"], "");
    element(&mut d, footer, "time", &["stamp"], "15:00");
    let sel = find_stock_update_time_selector(&d);
    assert!(sel.is_some());
    assert_eq!(scrape_field(&d, &sel), "15:00");
    let idx = find_index_update_time_selector(&d);
    assert_eq!(scrape_field(&d, &idx), "15:00");
}

#[test]
fn no_footer_gives_no_time() {
    let mut d = Document::new();
    let html = d.add_element(None, "html", vec![]);
    element(&mut d, html, "time", &["stamp"], "15:00");
    assert!(find_index_update_time_selector(&d).is_none());
    assert!(find_stock_update_time_selector(&d).is_none());
    assert_eq!(scrape_field(&d, &None), "");
    assert_eq!(find_fx_update_time(&d), "");
}

#[test]
fn strong_label_wins_over_earlier_weak_one() {
    let mut d = Document::new();
    let html = d.add_element(None, "html", vec![]);
    element(&mut d, html, "h2", &["num"], "12345");
    element(&mut d, html, "h2", &["a"], "Market news");
    element(&mut d, html, "h2", &["b"], "NYダウ");
    let (sel, text) = find_name_dynamically(&d);
    assert_eq!(text, "NYダウ");
    assert_eq!(scrape_field(&d, &sel), "NYダウ");
}

#[test]
fn weak_label_used_when_no_strong_one() {
    let mut d = Document::new();
    let html = d.add_element(None, "html", vec![]);
    element(&mut d, html, "h2", &["num"], "１２３");
    element(&mut d, html, "h2", &["a"], "  Market news ");
    element(&mut d, html, "h2", &["b"], "Other");
    let (sel, text) = find_name_dynamically(&d);
    assert_eq!(text, "Market news");
    assert!(sel.is_some());
}

#[test]
fn no_heading_gives_no_label() {
    let mut d = Document::new();
    let html = d.add_element(None, "html", vec![]);
    element(&mut d, html, "p", &[], "Title");
    element(&mut d, html, "h7", &[], "Not a heading");
    let (sel, text) = find_name_dynamically(&d);
    assert!(sel.is_none());
    assert_eq!(text, "");
}

#[test]
fn any_heading_level_can_label() {
    let mut d = Document::new();
    let html = d.add_element(None, "html", vec![]);
    element(&mut d, html, "h1", &["title"], "Foo");
    element(&mut d, html, "h6", &["n"], "20245");
    let (sel, text) = find_name_dynamically(&d);
    assert_eq!(text, "Foo");
    assert!(sel.is_some());
    let r = extract(&d, "6758").ok().unwrap();
    assert_eq!(r.name, "Foo");
    assert_eq!(r.code, "6758");
}

#[test]
fn strong_label_at_any_level_wins() {
    let mut d = Document::new();
    let html = d.add_element(None, "html", vec![]);
    element(&mut d, html, "h1", &[], "Quotes");
    element(&mut d, html, "h3", &[], "日経平均株価");
    let (_, text) = find_name_dynamically(&d);
    assert_eq!(text, "日経平均株価");
}
