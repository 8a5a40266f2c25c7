use vstd::prelude::*;

use crate::dom::first_below;
use crate::text::{chars_of, slice_chars, string_of, trim, trim_chars};

verus! {

/// The shape of page an identifier asks for; it decides which anchors and
/// policies apply.
#[derive(PartialEq, Eq, Structural, Clone, Copy, Debug)]
pub enum PageType {
    Equity,
    CompositeIndex,
    SingleIndex,
    CurrencyPair,
}

/// The upper-case form of a text.
pub uninterp spec fn upper_of(s: Seq<char>) -> Seq<char>;

/// Relies on `str::to_uppercase`: the upper-case form, which depends on the
/// characters alone.
#[verifier::external_body]
fn uppercase(s: &str) -> (r: String)
    ensures
        r@ == upper_of(s@),
{
    s.to_uppercase()
}

pub open spec fn ends_with(s: Seq<char>, t: Seq<char>) -> bool {
    t.len() <= s.len() && s.subrange(s.len() - t.len(), s.len() as int) == t
}

pub open spec fn starts_with(s: Seq<char>, t: Seq<char>) -> bool {
    t.len() <= s.len() && s.subrange(0, t.len() as int) == t
}

/// The one numeric-plus-suffix identifier of a composite index: the Nikkei
/// average's `998407.O`.
pub open spec fn composite_token() -> Seq<char> {
    "998407.O"@
}

/// The page type of identifier `code`, given its upper-case form `upper`:
/// a caret (plain or percent-encoded) in front makes a single index, the
/// composite token a composite index, a `=FX` suffix a currency pair, and
/// anything else an equity.
pub open spec fn page_type_of(upper: Seq<char>, code: Seq<char>) -> PageType {
    if starts_with(code, "^"@) || starts_with(upper, "%5E"@) {
        PageType::SingleIndex
    } else if upper == composite_token() {
        PageType::CompositeIndex
    } else if ends_with(upper, "=FX"@) {
        PageType::CurrencyPair
    } else {
        PageType::Equity
    }
}

pub open spec fn quote_base() -> Seq<char> {
    "https://finance.yahoo.co.jp/quote/"@
}

/// The address of the quote page for `code` on a page of type `t`; a
/// leading caret is percent-encoded.
pub open spec fn url_for(t: PageType, code: Seq<char>) -> Seq<char> {
    match t {
        PageType::SingleIndex => if starts_with(code, "^"@) {
            quote_base() + "%5E"@ + code.drop_first()
        } else {
            quote_base() + code
        },
        PageType::CompositeIndex => quote_base() + code,
        PageType::CurrencyPair => quote_base() + code,
        PageType::Equity => if ends_with(code, ".O"@) {
            quote_base() + code
        } else {
            quote_base() + code + ".T"@
        },
    }
}

/// The position of the first `c` in `s`.
pub open spec fn first_index(s: Seq<char>, c: char) -> Option<int> {
    first_below(is_char_at(s, c), s.len() as int)
}

pub open spec fn is_char_at(s: Seq<char>, c: char) -> spec_fn(int) -> bool {
    |i: int| s[i] == c
}

/// The two parts of a change text such as `+12.5(+0.8%)`: the trimmed text
/// before the first opening bracket, and the trimmed text between it and the
/// first closing bracket after it (empty where either bracket is missing).
pub open spec fn change_parts(s: Seq<char>) -> (Seq<char>, Seq<char>) {
    match first_index(s, '(') {
        Some(p) => {
            let rest = s.subrange(p + 1, s.len() as int);
            (
                trim(s.subrange(0, p)),
                match first_index(rest, ')') {
                    Some(q) => trim(rest.subrange(0, q)),
                    None => Seq::empty(),
                },
            )
        },
        None => (trim(s), Seq::empty()),
    }
}

fn ends_with_chars(s: &Vec<char>, t: &Vec<char>) -> (r: bool)
    ensures
        r == ends_with(s@, t@),
{
    if t.len() > s.len() {
        return false;
    }
    let off = s.len() - t.len();
    let mut i: usize = 0;
    while i < t.len()
        invariant
            off + t@.len() == s@.len(),
            s@.len() <= usize::MAX,
            i <= t@.len(),
            forall|k: int| 0 <= k < i ==> s@[off + k] == t@[k],
        decreases t.len() - i,
    {
        if s[off + i] != t[i] {
            assert(s@.subrange(off as int, s@.len() as int)[i as int] != t@[i as int]);
            return false;
        }
        i = i + 1;
    }
    assert(s@.subrange(off as int, s@.len() as int) =~= t@);
    true
}

fn starts_with_chars(s: &Vec<char>, t: &Vec<char>) -> (r: bool)
    ensures
        r == starts_with(s@, t@),
{
    if t.len() > s.len() {
        return false;
    }
    let mut i: usize = 0;
    while i < t.len()
        invariant
            t@.len() <= s@.len(),
            i <= t@.len(),
            forall|k: int| 0 <= k < i ==> s@[k] == t@[k],
        decreases t.len() - i,
    {
        if s[i] != t[i] {
            assert(s@.subrange(0, t@.len() as int)[i as int] != t@[i as int]);
            return false;
        }
        i = i + 1;
    }
    assert(s@.subrange(0, t@.len() as int) =~= t@);
    true
}

fn same_text(a: &Vec<char>, b: &str) -> (r: bool)
    ensures
        r == (a@ == b@),
{
    let c = chars_of(b);
    crate::text::same_chars(a, &c)
}

/// The page type of identifier `code` given its upper-case form `upper`.
pub fn classify_upper(upper: &str, code: &str) -> (r: PageType)
    ensures
        r == page_type_of(upper@, code@),
{
    let u = chars_of(upper);
    let c = chars_of(code);
    if starts_with_chars(&c, &chars_of("^")) || starts_with_chars(&u, &chars_of("%5E")) {
        PageType::SingleIndex
    } else if same_text(&u, "998407.O") {
        PageType::CompositeIndex
    } else if ends_with_chars(&u, &chars_of("=FX")) {
        PageType::CurrencyPair
    } else {
        PageType::Equity
    }
}

/// The page type of identifier `code`, compared without regard to case.
pub fn get_code_type(code: &str) -> (r: PageType)
    ensures
        r == page_type_of(upper_of(code@), code@),
{
    let upper = uppercase(code);
    classify_upper(upper.as_str(), code)
}

/// The quote page address for `code` on a page of type `t`.
pub fn url_for_page(code: &str, t: PageType) -> (r: String)
    ensures
        r@ == url_for(t, code@),
{
    let mut url = String::from_str("https://finance.yahoo.co.jp/quote/");
    match t {
        PageType::SingleIndex => {
            let c = chars_of(code);
            proof {
                reveal_strlit("^");
            }
            if starts_with_chars(&c, &chars_of("^")) {
                url.append("%5E");
                let rest = string_of(&slice_chars(&c, 1, c.len()));
                assert(rest@ =~= code@.drop_first());
                url.append(rest.as_str());
            } else {
                url.append(code);
            }
        },
        PageType::CompositeIndex => {
            url.append(code);
        },
        PageType::CurrencyPair => {
            url.append(code);
        },
        PageType::Equity => {
            url.append(code);
            if !ends_with_chars(&chars_of(code), &chars_of(".O")) {
                url.append(".T");
            }
        },
    }
    url
}

/// The quote page address for identifier `code`.
pub fn build_url_from_code(code: &str) -> (r: String)
    ensures
        r@ == url_for(page_type_of(upper_of(code@), code@), code@),
{
    url_for_page(code, get_code_type(code))
}

fn find_char(s: &Vec<char>, c: char) -> (r: Option<usize>)
    ensures
        match r {
            Some(i) => first_index(s@, c) == Some(i as int) && i < s@.len(),
            None => first_index(s@, c) is None,
        },
{
    let mut i: usize = 0;
    while i < s.len()
        invariant
            i <= s@.len(),
            first_below(is_char_at(s@, c), i as int) is None,
        decreases s.len() - i,
    {
        if s[i] == c {
            proof {
                crate::dom::lemma_first_below_prefix(is_char_at(s@, c), i + 1, s@.len() as int);
            }
            return Some(i);
        }
        i = i + 1;
    }
    None
}

/// Splits a change text such as `+12.5(+0.8%)` into the amount and the
/// percentage, each trimmed.
pub fn parse_change_string(combined: &str) -> (r: (String, String))
    ensures
        (r.0@, r.1@) == change_parts(combined@),
{
    let s = chars_of(combined);
    let n = s.len();
    match find_char(&s, '(') {
        Some(p) => {
            let abs = trim_chars(&slice_chars(&s, 0, p));
            let rest = slice_chars(&s, p + 1, n);
            let pct = match find_char(&rest, ')') {
                Some(q) => trim_chars(&slice_chars(&rest, 0, q)),
                None => Vec::new(),
            };
            (string_of(&abs), string_of(&pct))
        },
        None => (string_of(&trim_chars(&s)), String::new()),
    }
}

} // verus!
