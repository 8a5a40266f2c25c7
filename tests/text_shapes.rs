use auto_selector::classify::{build_url_from_code, classify_upper, get_code_type, parse_change_string, url_for_page, PageType};
use auto_selector::scan::{pattern_matches, FieldPattern};
use auto_selector::text::{chars_of, contains_seq, is_number_chars, strip_commas_chars, trim_chars};

fn num(s: &str) -> bool {
    is_number_chars(&chars_of(s))
}

#[test]
fn number_shapes() {
    assert!(num("1234"));
    assert!(num("5678.90"));
    assert!(num("-1.5"));
    assert!(num("+.5"));
    assert!(num("1."));
    assert!(num("1e5"));
    assert!(num("2.5E-3"));
    assert!(!num(""));
    assert!(!num("-"));
    assert!(!num("."));
    assert!(!num("1e"));
    assert!(!num("inf"));
    assert!(!num("NaN"));
    assert!(!num("1,000"));
    assert!(!num("12a"));
}

#[test]
fn trimming_and_commas() {
    assert_eq!(trim_chars(&chars_of("\u{3000} ab c\n\t")), chars_of("ab c"));
    assert_eq!(trim_chars(&chars_of("   ")), chars_of(""));
    assert_eq!(strip_commas_chars(&chars_of("1,234,567.8")), chars_of("1234567.8"));
    assert!(contains_seq(&chars_of("PriceBoard__mainFooter__16pO"), &chars_of("mainFooter")));
    assert!(!contains_seq(&chars_of("main"), &chars_of("mainFooter")));
}

#[test]
fn pattern_classification() {
    let t = |s: &str| chars_of(s);
    assert!(pattern_matches(&FieldPattern::Code, &t("6758")));
    assert!(!pattern_matches(&FieldPattern::Code, &t("675")));
    assert!(!pattern_matches(&FieldPattern::Code, &t("67a8")));
    let m = FieldPattern::Magnitude { excluded: t("6758") };
    assert!(pattern_matches(&m, &t("5,678.90")));
    assert!(!pattern_matches(&m, &t("6,758")));
    assert!(!pattern_matches(&m, &t("12")));
    assert!(!pattern_matches(&m, &t("+123")));
    assert!(!pattern_matches(&m, &t("12.5%")));
    assert!(pattern_matches(&FieldPattern::SignedDelta, &t("+1,234.5")));
    assert!(pattern_matches(&FieldPattern::SignedDelta, &t("-3")));
    assert!(!pattern_matches(&FieldPattern::SignedDelta, &t("+")));
    assert!(!pattern_matches(&FieldPattern::SignedDelta, &t("+456 (2.3%)")));
    assert!(!pattern_matches(&FieldPattern::SignedDelta, &t("12")));
    let p = FieldPattern::SignedPercent { anchor: t("(前日比%1)") };
    assert!(pattern_matches(&p, &t("(+0.5%)")));
    assert!(!pattern_matches(&p, &t("(+%)")));
    assert!(!pattern_matches(&p, &t("+0.5%")));
    assert!(!pattern_matches(&p, &t("(前日比%1)")));
}

#[test]
fn page_types_from_identifier() {
    assert_eq!(get_code_type("^DJI"), PageType::SingleIndex);
    assert_eq!(get_code_type("^N225"), PageType::SingleIndex);
    assert_eq!(get_code_type("^GSPC"), PageType::SingleIndex);
    assert_eq!(get_code_type("%5edji"), PageType::SingleIndex);
    assert_eq!(get_code_type("%5EN225"), PageType::SingleIndex);
    assert_eq!(get_code_type("DJI"), PageType::Equity);
    assert_eq!(get_code_type("998407.o"), PageType::CompositeIndex);
    assert_eq!(get_code_type("998407.O"), PageType::CompositeIndex);
    assert_eq!(get_code_type("USDJPY=FX"), PageType::CurrencyPair);
    assert_eq!(get_code_type("usdjpy=fx"), PageType::CurrencyPair);
    assert_eq!(get_code_type("6758"), PageType::Equity);
    assert_eq!(classify_upper("DJI", "dji"), PageType::Equity);
    assert_eq!(classify_upper("X=FX", "x=fx"), PageType::CurrencyPair);
}

#[test]
fn urls_from_identifier() {
    let base = "https://finance.yahoo.co.jp/quote/";
    assert_eq!(build_url_from_code("6758"), format!("{}6758.T", base));
    assert_eq!(build_url_from_code("^DJI"), format!("{}%5EDJI", base));
    assert_eq!(build_url_from_code("%5EDJI"), format!("{}%5EDJI", base));
    assert_eq!(build_url_from_code("^N225"), format!("{}%5EN225", base));
    assert_eq!(build_url_from_code("998407.O"), format!("{}998407.O", base));
    assert_eq!(build_url_from_code("USDJPY=FX"), format!("{}USDJPY=FX", base));
    assert_eq!(build_url_from_code("1234.O"), format!("{}1234.O", base));
    assert_eq!(url_for_page("7203", PageType::Equity), format!("{}7203.T", base));
}

#[test]
fn change_string_split() {
    assert_eq!(parse_change_string("+12.5(+0.8%)"), ("+12.5".to_string(), "+0.8%".to_string()));
    assert_eq!(parse_change_string(" -3 ( -0.1% ) tail"), ("-3".to_string(), "-0.1%".to_string()));
    assert_eq!(parse_change_string("  -3 "), ("-3".to_string(), "".to_string()));
    assert_eq!(parse_change_string("+1 (2%"), ("+1".to_string(), "".to_string()));
    assert_eq!(parse_change_string(""), ("".to_string(), "".to_string()));
}
