use vstd::prelude::*;

verus! {

/// Whether `c` is a character that trimming removes: the Unicode
/// `White_Space` property.
pub open spec fn is_ws(c: char) -> bool {
    ('\u{9}' <= c && c <= '\u{d}') || c == ' ' || c == '\u{85}' || c == '\u{a0}' || c
        == '\u{1680}' || ('\u{2000}' <= c && c <= '\u{200a}') || c == '\u{2028}' || c
        == '\u{2029}' || c == '\u{202f}' || c == '\u{205f}' || c == '\u{3000}'
}

pub open spec fn is_digit(c: char) -> bool {
    '0' <= c && c <= '9'
}

pub open spec fn trim_start(s: Seq<char>) -> Seq<char>
    decreases s.len(),
{
    if s.len() > 0 && is_ws(s[0]) {
        trim_start(s.drop_first())
    } else {
        s
    }
}

pub open spec fn trim_end(s: Seq<char>) -> Seq<char>
    decreases s.len(),
{
    if s.len() > 0 && is_ws(s.last()) {
        trim_end(s.drop_last())
    } else {
        s
    }
}

/// The text with leading and trailing white space removed.
pub open spec fn trim(s: Seq<char>) -> Seq<char> {
    trim_end(trim_start(s))
}

/// The text with every thousands-separator comma removed.
pub open spec fn strip_commas(s: Seq<char>) -> Seq<char>
    decreases s.len(),
{
    if s.len() == 0 {
        s
    } else if s.last() == ',' {
        strip_commas(s.drop_last())
    } else {
        strip_commas(s.drop_last()).push(s.last())
    }
}

pub open spec fn has_digit(s: Seq<char>) -> bool {
    exists|i: int| 0 <= i < s.len() && is_digit(#[trigger] s[i])
}

/// Whether `m` occurs in `s` starting at position `i`.
pub open spec fn occurs_at(s: Seq<char>, m: Seq<char>, i: int) -> bool {
    0 <= i && i + m.len() <= s.len() && s.subrange(i, i + m.len()) == m
}

pub open spec fn has_infix(s: Seq<char>, m: Seq<char>) -> bool {
    exists|i: int| occurs_at(s, m, i)
}

/// The position of the first non-digit at or after `i`.
pub open spec fn digits_end(s: Seq<char>, i: int) -> int
    decreases s.len() - i,
{
    if 0 <= i < s.len() && is_digit(s[i]) {
        digits_end(s, i + 1)
    } else {
        i
    }
}

pub open spec fn is_sign(c: char) -> bool {
    c == '+' || c == '-'
}

/// Whether `s[i..]` is a well-formed exponent body: an optional sign and one
/// or more digits reaching the end of the text.
pub open spec fn exponent_ok(s: Seq<char>, i: int) -> bool {
    let j = if 0 <= i < s.len() && is_sign(s[i]) {
        i + 1
    } else {
        i
    };
    let k = digits_end(s, j);
    k > j && k == s.len()
}

/// Whether `s` is a finite decimal number: an optional sign, digits with an
/// optional fractional part (at least one digit in all), and an optional
/// exponent.
pub open spec fn is_number(s: Seq<char>) -> bool {
    let a: int = if s.len() > 0 && is_sign(s[0]) {
        1
    } else {
        0
    };
    let b = digits_end(s, a);
    let dot = b < s.len() && s[b] == '.';
    let c = if dot {
        digits_end(s, b + 1)
    } else {
        b
    };
    let count = (b - a) + (if dot {
        c - (b + 1)
    } else {
        0
    });
    &&& count > 0
    &&& (c == s.len() || ((s[c] == 'e' || s[c] == 'E') && exponent_ok(s, c + 1)))
}

pub fn is_whitespace_char(c: char) -> (r: bool)
    ensures
        r == is_ws(c),
{
    ('\u{9}' <= c && c <= '\u{d}') || c == ' ' || c == '\u{85}' || c == '\u{a0}' || c
        == '\u{1680}' || ('\u{2000}' <= c && c <= '\u{200a}') || c == '\u{2028}' || c
        == '\u{2029}' || c == '\u{202f}' || c == '\u{205f}' || c == '\u{3000}'
}

/// Relies on `String::push`: appends one character.
#[verifier::external_body]
fn push_char(s: &mut String, c: char)
    ensures
        final(s)@ == old(s)@.push(c),
{
    s.push(c)
}

/// The characters of `s`, in order.
pub fn chars_of(s: &str) -> (r: Vec<char>)
    ensures
        r@ == s@,
{
    let n = s.unicode_len();
    let mut r: Vec<char> = Vec::new();
    let mut i: usize = 0;
    while i < n
        invariant
            n == s@.len(),
            i <= n,
            r@ == s@.subrange(0, i as int),
        decreases n - i,
    {
        r.push(s.get_char(i));
        i = i + 1;
        assert(r@ =~= s@.subrange(0, i as int));
    }
    assert(r@ =~= s@);
    r
}

/// A `String` holding the characters of `v`.
pub fn string_of(v: &Vec<char>) -> (r: String)
    ensures
        r@ == v@,
{
    let mut r = String::new();
    let mut i: usize = 0;
    while i < v.len()
        invariant
            i <= v@.len(),
            r@ == v@.subrange(0, i as int),
        decreases v.len() - i,
    {
        push_char(&mut r, v[i]);
        i = i + 1;
        assert(r@ =~= v@.subrange(0, i as int));
    }
    assert(r@ =~= v@);
    r
}

/// The characters of `v[from..to]`.
pub fn slice_chars(v: &Vec<char>, from: usize, to: usize) -> (r: Vec<char>)
    requires
        from <= to <= v@.len(),
    ensures
        r@ == v@.subrange(from as int, to as int),
{
    let mut r: Vec<char> = Vec::new();
    let mut i: usize = from;
    while i < to
        invariant
            from <= i <= to,
            to <= v@.len(),
            r@ == v@.subrange(from as int, i as int),
        decreases to - i,
    {
        r.push(v[i]);
        i = i + 1;
        assert(r@ =~= v@.subrange(from as int, i as int));
    }
    r
}

/// `v` without leading and trailing white space.
pub fn trim_chars(v: &Vec<char>) -> (r: Vec<char>)
    ensures
        r@ == trim(v@),
{
    let n = v.len();
    let mut i: usize = 0;
    assert(v@.subrange(0, n as int) =~= v@);
    while i < n && is_whitespace_char(v[i])
        invariant
            n == v@.len(),
            i <= n,
            trim_start(v@) == trim_start(v@.subrange(i as int, n as int)),
        decreases n - i,
    {
        assert(v@.subrange(i as int, n as int).drop_first() =~= v@.subrange(
            i + 1,
            n as int,
        ));
        i = i + 1;
    }
    assert(trim_start(v@) == v@.subrange(i as int, n as int));
    let mut j: usize = n;
    while j > i && is_whitespace_char(v[j - 1])
        invariant
            n == v@.len(),
            i <= j <= n,
            trim(v@) == trim_end(v@.subrange(i as int, j as int)),
        decreases j,
    {
        assert(v@.subrange(i as int, j as int).drop_last() =~= v@.subrange(
            i as int,
            j - 1,
        ));
        j = j - 1;
    }
    slice_chars(v, i, j)
}

pub fn has_char(v: &Vec<char>, c: char) -> (r: bool)
    ensures
        r == v@.contains(c),
{
    let mut i: usize = 0;
    while i < v.len()
        invariant
            i <= v@.len(),
            forall|k: int| 0 <= k < i ==> v@[k] != c,
        decreases v.len() - i,
    {
        if v[i] == c {
            return true;
        }
        i = i + 1;
    }
    false
}

pub fn has_digit_char(v: &Vec<char>) -> (r: bool)
    ensures
        r == has_digit(v@),
{
    let mut i: usize = 0;
    while i < v.len()
        invariant
            i <= v@.len(),
            forall|k: int| 0 <= k < i ==> !is_digit(#[trigger] v@[k]),
        decreases v.len() - i,
    {
        if '0' <= v[i] && v[i] <= '9' {
            return true;
        }
        i = i + 1;
    }
    false
}

/// `v` with every comma removed.
pub fn strip_commas_chars(v: &Vec<char>) -> (r: Vec<char>)
    ensures
        r@ == strip_commas(v@),
{
    let mut r: Vec<char> = Vec::new();
    let mut i: usize = 0;
    while i < v.len()
        invariant
            i <= v@.len(),
            r@ == strip_commas(v@.subrange(0, i as int)),
        decreases v.len() - i,
    {
        assert(v@.subrange(0, i + 1).drop_last() =~= v@.subrange(0, i as int));
        if v[i] != ',' {
            r.push(v[i]);
        }
        i = i + 1;
    }
    assert(v@.subrange(0, v@.len() as int) =~= v@);
    r
}

/// Whether `m` occurs anywhere in `s`.
pub fn contains_seq(s: &Vec<char>, m: &Vec<char>) -> (r: bool)
    ensures
        r == has_infix(s@, m@),
{
    let mut i: usize = 0;
    while i <= s.len() && m.len() <= s.len() - i
        invariant
            i <= s@.len() + 1,
            forall|k: int| 0 <= k < i ==> !occurs_at(s@, m@, k),
        decreases s@.len() + 1 - i,
    {
        let mut j: usize = 0;
        let mut same = true;
        while j < m.len()
            invariant
                i + m@.len() <= s@.len(),
                s@.len() <= usize::MAX,
                j <= m@.len(),
                same == (forall|k: int| 0 <= k < j ==> s@[i + k] == m@[k]),
            decreases m.len() - j,
        {
            if s[i + j] != m[j] {
                same = false;
            }
            j = j + 1;
        }
        if same {
            assert(s@.subrange(i as int, i + m@.len()) =~= m@);
            assert(occurs_at(s@, m@, i as int));
            return true;
        }
        assert(!occurs_at(s@, m@, i as int)) by {
            if s@.subrange(i as int, i + m@.len()) == m@ {
                assert(forall|k: int|
                    0 <= k < m@.len() ==> s@[i + k] == #[trigger] s@.subrange(
                        i as int,
                        i + m@.len(),
                    )[k]);
            }
        }
        i = i + 1;
    }
    assert forall|k: int| !occurs_at(s@, m@, k) by {
        if occurs_at(s@, m@, k) {
            assert(k < i);
        }
    }
    false
}

/// The position of the first non-digit of `v` at or after `i`.
pub fn digits_end_at(v: &Vec<char>, i: usize) -> (r: usize)
    requires
        i <= v@.len(),
    ensures
        r as int == digits_end(v@, i as int),
        i <= r <= v@.len(),
{
    let mut j: usize = i;
    while j < v.len() && '0' <= v[j] && v[j] <= '9'
        invariant
            i <= j <= v@.len(),
            digits_end(v@, i as int) == digits_end(v@, j as int),
        decreases v.len() - j,
    {
        j = j + 1;
    }
    j
}

/// Whether `v` reads as a finite decimal number.
pub fn is_number_chars(v: &Vec<char>) -> (r: bool)
    ensures
        r == is_number(v@),
{
    let n = v.len();
    let a: usize = if n > 0 && (v[0] == '+' || v[0] == '-') {
        1
    } else {
        0
    };
    let b = digits_end_at(v, a);
    let dot = b < n && v[b] == '.';
    let c = if dot {
        digits_end_at(v, b + 1)
    } else {
        b
    };
    let count: usize = (b - a) + (if dot {
        c - (b + 1)
    } else {
        0
    });
    if count == 0 {
        return false;
    }
    if c == n {
        return true;
    }
    if v[c] != 'e' && v[c] != 'E' {
        return false;
    }
    let d = c + 1;
    let e: usize = if d < n && (v[d] == '+' || v[d] == '-') {
        d + 1
    } else {
        d
    };
    let f = digits_end_at(v, e);
    f > e && f == n
}

/// Whether `a` and `b` hold the same characters.
pub fn same_chars(a: &Vec<char>, b: &Vec<char>) -> (r: bool)
    ensures
        r == (a@ == b@),
{
    if a.len() != b.len() {
        return false;
    }
    let mut i: usize = 0;
    while i < a.len()
        invariant
            a@.len() == b@.len(),
            i <= a@.len(),
            forall|k: int| 0 <= k < i ==> a@[k] == b@[k],
        decreases a.len() - i,
    {
        if a[i] != b[i] {
            return false;
        }
        i = i + 1;
    }
    assert(a@ =~= b@);
    true
}

/// Whether a character lies in one of Unicode's number categories.
pub uninterp spec fn numeric_char(c: char) -> bool;

/// Relies on `char::is_numeric`: whether the character has one of the
/// general categories for numbers, which every ASCII digit has.
#[verifier::external_body]
pub(crate) fn char_is_numeric(c: char) -> (r: bool)
    ensures
        r == numeric_char(c),
        is_digit(c) ==> r,
{
    c.is_numeric()
}

} // verus!
