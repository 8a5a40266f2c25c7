use vstd::prelude::*;

use crate::classify::{get_code_type, page_type_of, upper_of, PageType};
use crate::dom::{dedup, Document, SelectorDescriptor};
use crate::models::{RecordView, ScraperError, StockData};
use crate::resolve::{
    as_int, code_choice, delta_choice, footer_time, item_after_marker, label_choice,
    magnitude_choice, percent_element,
};
use crate::scan::locate_spec;
use crate::text::{chars_of, string_of};

verus! {

/// How many parents up from an anchor its search window reaches.
pub const WINDOW_DEPTH: usize = 8;

/// Whether the descriptor describes the chosen element, and is absent
/// exactly where no element was chosen.
pub open spec fn describes(d: Document, s: Option<SelectorDescriptor>, e: Option<int>) -> bool {
    match (s, e) {
        (Some(s), Some(e)) => s.tag_view() == d.tag_of(e) && s.class_view() == dedup(
            d.classes_of(e),
        ),
        (None, None) => true,
        _ => false,
    }
}

/// The trimmed text of the first element that a descriptor matches; empty
/// where there is no descriptor or no match.
pub open spec fn scraped(d: Document, s: Option<SelectorDescriptor>) -> Seq<char> {
    match s {
        Some(s) => match d.first_match(s.tag_view(), s.class_view()) {
            Some(m) => d.text_of(m),
            None => Seq::empty(),
        },
        None => Seq::empty(),
    }
}

/// The text that re-querying the descriptor of a chosen element yields.
pub open spec fn field_text(d: Document, e: Option<int>) -> Seq<char> {
    match e {
        Some(e) => match d.first_match(d.tag_of(e), dedup(d.classes_of(e))) {
            Some(m) => d.text_of(m),
            None => Seq::empty(),
        },
        None => Seq::empty(),
    }
}

pub open spec fn code_near(d: Document, a: Seq<char>) -> Option<int> {
    match locate_spec(d, a, WINDOW_DEPTH as nat) {
        Some(w) => code_choice(d, w),
        None => None,
    }
}

pub open spec fn price_near(d: Document, a: Seq<char>, code: Seq<char>) -> Option<int> {
    match locate_spec(d, a, WINDOW_DEPTH as nat) {
        Some(w) => magnitude_choice(d, w, code),
        None => None,
    }
}

pub open spec fn change_near(d: Document, a: Seq<char>) -> Option<int> {
    match locate_spec(d, a, WINDOW_DEPTH as nat) {
        Some(w) => delta_choice(d, w),
        None => None,
    }
}

pub open spec fn percent_near(d: Document, a: Seq<char>) -> Option<int> {
    match locate_spec(d, a, WINDOW_DEPTH as nat) {
        Some(w) => percent_element(d, w, a),
        None => None,
    }
}

pub open spec fn footer_marker() -> Seq<char> {
    "PriceBoard__mainFooter"@
}

/// The time element of an equity page: inside the footer of the window
/// around the real-time price label.
pub open spec fn stock_time(d: Document) -> Option<int> {
    match locate_spec(d, "リアルタイム株価"@, WINDOW_DEPTH as nat) {
        Some(w) => footer_time(d, Some(w), footer_marker()),
        None => None,
    }
}

/// The time element of an index page: inside the first footer anywhere.
pub open spec fn index_time(d: Document) -> Option<int> {
    footer_time(d, None, footer_marker())
}

/// The update time of a currency page: the list item after the real-time
/// marker.
pub open spec fn fx_time(d: Document) -> Seq<char> {
    match item_after_marker(d) {
        Some(e) => d.text_of(e),
        None => Seq::empty(),
    }
}

pub open spec fn name_missing_message() -> Seq<char> {
    "Could not dynamically find a valid name."@
}

/// The record that extraction yields for identifier `id` on a page of type
/// `page`; none where the page has no label.
pub open spec fn extract_spec(d: Document, id: Seq<char>, page: PageType) -> Option<RecordView> {
    match label_choice(d) {
        None => None,
        Some(l) => {
            let name = d.text_of(l);
            let found = field_text(d, code_near(d, name));
            let code = if found.len() == 0 {
                id
            } else {
                found
            };
            let zen = "前日比"@;
            Some(
                match page {
                    PageType::Equity => RecordView {
                        code,
                        name,
                        price: field_text(d, price_near(d, name, code)),
                        change: field_text(d, change_near(d, zen)),
                        change_percent: field_text(d, percent_near(d, zen)),
                        update_time: field_text(d, stock_time(d)),
                        selector_type: "dynamic"@,
                    },
                    PageType::CurrencyPair => RecordView {
                        code,
                        name,
                        price: field_text(d, price_near(d, "Bid"@, code)),
                        change: field_text(d, change_near(d, "Change"@)),
                        change_percent: Seq::empty(),
                        update_time: fx_time(d),
                        selector_type: "dynamic"@,
                    },
                    _ => RecordView {
                        code,
                        name,
                        price: field_text(d, price_near(d, name, code)),
                        change: field_text(d, change_near(d, name)),
                        change_percent: field_text(d, percent_near(d, name)),
                        update_time: field_text(d, index_time(d)),
                        selector_type: "dynamic"@,
                    },
                },
            )
        },
    }
}

fn descriptor_of(d: &Document, e: Option<usize>) -> (r: Option<SelectorDescriptor>)
    requires
        e matches Some(i) ==> d.is_element(i as int),
    ensures
        describes(*d, r, as_int(e)),
{
    match e {
        Some(i) => Some(d.build_selector(i)),
        None => None,
    }
}

/// The trimmed text of the first element that `sel` matches; empty where
/// there is none.
pub fn scrape_field(d: &Document, sel: &Option<SelectorDescriptor>) -> (r: String)
    requires
        d.wf(),
    ensures
        r@ == scraped(*d, *sel),
{
    match sel {
        Some(s) => string_of(&d.query_text(s)),
        None => String::new(),
    }
}

/// The descriptor of the heading that names the document, and its text
/// (empty where there is none).
pub fn find_name_dynamically(d: &Document) -> (r: (Option<SelectorDescriptor>, String))
    requires
        d.wf(),
    ensures
        describes(*d, r.0, label_choice(*d)),
        r.1@ == match label_choice(*d) {
            Some(l) => d.text_of(l),
            None => Seq::empty(),
        },
{
    match d.resolve_label() {
        Some(l) => {
            proof {
                crate::dom::lemma_first_below_some(crate::resolve::strong_heading(*d), d.len());
                crate::dom::lemma_first_below_some(crate::resolve::weak_heading(*d), d.len());
            }
            (Some(d.build_selector(l)), string_of(&d.text_of_node(l)))
        },
        None => (None, String::new()),
    }
}

/// The descriptor of the first four-digit element in the window of `anchor`.
pub fn find_text_pattern_selector_near_anchor(d: &Document, anchor: &Vec<char>) -> (r: Option<
    SelectorDescriptor,
>)
    requires
        d.wf(),
    ensures
        describes(*d, r, code_near(*d, anchor@)),
{
    match d.locate(anchor, WINDOW_DEPTH) {
        Some(w) => descriptor_of(d, d.resolve_code(w)),
        None => None,
    }
}

/// The descriptor of the most prominent price-like element in the window of
/// `anchor`, passing over one that reads as `code`.
pub fn find_stock_price_selector(d: &Document, anchor: &Vec<char>, code: Vec<char>) -> (r: Option<
    SelectorDescriptor,
>)
    requires
        d.wf(),
    ensures
        describes(*d, r, price_near(*d, anchor@, code@)),
{
    match d.locate(anchor, WINDOW_DEPTH) {
        Some(w) => descriptor_of(d, d.resolve_magnitude(w, code)),
        None => None,
    }
}

/// The descriptor of the first class-bearing signed amount in the window of
/// `anchor`.
pub fn find_stock_change_selector(d: &Document, anchor: &Vec<char>) -> (r: Option<
    SelectorDescriptor,
>)
    requires
        d.wf(),
    ensures
        describes(*d, r, change_near(*d, anchor@)),
{
    match d.locate(anchor, WINDOW_DEPTH) {
        Some(w) => descriptor_of(d, d.resolve_delta(w)),
        None => None,
    }
}

/// The descriptor of the bracketed percentage in the window of `anchor`.
pub fn find_stock_change_percent_selector(d: &Document, anchor: Vec<char>) -> (r: Option<
    SelectorDescriptor,
>)
    requires
        d.wf(),
    ensures
        describes(*d, r, percent_near(*d, anchor@)),
{
    match d.locate(&anchor, WINDOW_DEPTH) {
        Some(w) => descriptor_of(d, d.resolve_percent(w, anchor)),
        None => None,
    }
}

/// The descriptor of the time element in the footer around the real-time
/// price label.
pub fn find_stock_update_time_selector(d: &Document) -> (r: Option<SelectorDescriptor>)
    requires
        d.wf(),
    ensures
        describes(*d, r, stock_time(*d)),
{
    let label = chars_of("リアルタイム株価");
    let marker = chars_of("PriceBoard__mainFooter");
    match d.locate(&label, WINDOW_DEPTH) {
        Some(w) => descriptor_of(d, d.resolve_time_in_footer(Some(w), &marker)),
        None => None,
    }
}

/// The descriptor of the time element in the first footer of the document.
pub fn find_index_update_time_selector(d: &Document) -> (r: Option<SelectorDescriptor>)
    requires
        d.wf(),
    ensures
        describes(*d, r, index_time(*d)),
{
    let marker = chars_of("PriceBoard__mainFooter");
    descriptor_of(d, d.resolve_time_in_footer(None, &marker))
}

/// The text of the list item after the real-time marker.
pub fn find_fx_update_time(d: &Document) -> (r: String)
    requires
        d.wf(),
    ensures
        r@ == fx_time(*d),
{
    match d.resolve_time_after_marker() {
        Some(e) => {
            proof {
                crate::dom::lemma_first_below_some(crate::resolve::marked_item(*d), d.len());
                let a = crate::dom::first_below(crate::resolve::marked_item(*d), d.len()).unwrap();
                crate::dom::lemma_first_below_some(crate::resolve::item_after(*d, a), d.len());
            }
            string_of(&d.text_of_node(e))
        },
        None => String::new(),
    }
}

/// Extracts the record of identifier `identifier` from a page of type
/// `page`: the label first (its absence fails the whole extraction), then
/// the code (the identifier where none is found), then price, change,
/// percentage and update time, each empty where it is not found.
pub fn extract_as(d: &Document, identifier: &str, page: PageType) -> (r: Result<
    StockData,
    ScraperError,
>)
    requires
        d.wf(),
    ensures
        match extract_spec(*d, identifier@, page) {
            Some(v) => r matches Ok(s) && s@ == v,
            None => r matches Err(e) && e.0@ == name_missing_message(),
        },
        r matches Ok(s) ==> s.usable(),
{
    let (_name_sel, name) = find_name_dynamically(d);
    if name.unicode_len() == 0 {
        proof {
            if let Some(l) = label_choice(*d) {
                crate::dom::lemma_first_below_some(crate::resolve::strong_heading(*d), d.len());
                crate::dom::lemma_first_below_some(crate::resolve::weak_heading(*d), d.len());
            }
        }
        return Err(ScraperError(String::from_str("Could not dynamically find a valid name.")));
    }
    let name_chars = chars_of(name.as_str());
    let code_sel = find_text_pattern_selector_near_anchor(d, &name_chars);
    let found = scrape_field(d, &code_sel);
    let code = if found.unicode_len() == 0 {
        String::from_str(identifier)
    } else {
        found
    };
    let code_chars = chars_of(code.as_str());
    let zen = chars_of("前日比");
    let (price_sel, change_sel, percent_sel) = match page {
        PageType::Equity => (
            find_stock_price_selector(d, &name_chars, code_chars),
            find_stock_change_selector(d, &zen),
            find_stock_change_percent_selector(d, zen),
        ),
        PageType::CurrencyPair => (
            find_stock_price_selector(d, &chars_of("Bid"), code_chars),
            find_stock_change_selector(d, &chars_of("Change")),
            None,
        ),
        _ => (
            find_stock_price_selector(d, &name_chars, code_chars),
            find_stock_change_selector(d, &name_chars),
            find_stock_change_percent_selector(d, chars_of(name.as_str())),
        ),
    };
    let update_time = match page {
        PageType::Equity => scrape_field(d, &find_stock_update_time_selector(d)),
        PageType::CurrencyPair => find_fx_update_time(d),
        _ => scrape_field(d, &find_index_update_time_selector(d)),
    };
    Ok(
        StockData {
            code,
            name,
            price: scrape_field(d, &price_sel),
            change: scrape_field(d, &change_sel),
            change_percent: scrape_field(d, &percent_sel),
            update_time,
            selector_type: String::from_str("dynamic"),
        },
    )
}

/// Extracts the record of identifier `identifier`, with the page type that
/// its form gives.
pub fn extract(d: &Document, identifier: &str) -> (r: Result<StockData, ScraperError>)
    requires
        d.wf(),
    ensures
        match extract_spec(*d, identifier@, page_type_of(upper_of(identifier@), identifier@)) {
            Some(v) => r matches Ok(s) && s@ == v,
            None => r matches Err(e) && e.0@ == name_missing_message(),
        },
        r matches Ok(s) ==> s.usable(),
{
    extract_as(d, identifier, get_code_type(identifier))
}

} // verus!
