use vstd::prelude::*;

use crate::dom::{first_below, lemma_first_below_prefix, Document};
use crate::resolve::as_int;
use crate::text::{
    has_digit, has_digit_char, has_char, is_digit, is_number, is_number_chars, is_sign,
    same_chars, slice_chars, strip_commas, strip_commas_chars, trim, trim_chars,
};

verus! {

/// The shape a field's text must have.
pub enum FieldPattern {
    /// Exactly four decimal digits.
    Code,
    /// An unsigned number, thousands separators allowed, other than `excluded`.
    Magnitude { excluded: Vec<char> },
    /// A sign followed by a number, with no percent sign.
    SignedDelta,
    /// A bracketed percentage, other than the anchor text itself.
    SignedPercent { anchor: Vec<char> },
}

/// What a field pattern stands for, with its literals as plain text.
pub enum PatternView {
    Code,
    Magnitude(Seq<char>),
    SignedDelta,
    SignedPercent(Seq<char>),
}

impl View for FieldPattern {
    type V = PatternView;

    open spec fn view(&self) -> PatternView {
        match self {
            FieldPattern::Code => PatternView::Code,
            FieldPattern::Magnitude { excluded } => PatternView::Magnitude(excluded@),
            FieldPattern::SignedDelta => PatternView::SignedDelta,
            FieldPattern::SignedPercent { anchor } => PatternView::SignedPercent(anchor@),
        }
    }
}

/// An element whose text has a field's shape.
pub struct Candidate {
    pub index: usize,
    pub text: Vec<char>,
    pub prominence: usize,
}

/// What a candidate stands for: the element, its trimmed text, and its
/// number of class tokens.
pub struct CandidateView {
    pub index: int,
    pub text: Seq<char>,
    pub prominence: nat,
}

impl View for Candidate {
    type V = CandidateView;

    open spec fn view(&self) -> CandidateView {
        CandidateView { index: self.index as int, text: self.text@, prominence: self.prominence as nat }
    }
}

pub open spec fn cand_views(v: Seq<Candidate>) -> Seq<CandidateView> {
    v.map_values(|c: Candidate| c@)
}

pub open spec fn is_code_text(t: Seq<char>) -> bool {
    t.len() == 4 && forall|i: int| 0 <= i < 4 ==> is_digit(#[trigger] t[i])
}

pub open spec fn is_magnitude_text(t: Seq<char>, excluded: Seq<char>) -> bool {
    let c = strip_commas(t);
    &&& is_number(c)
    &&& !(t.len() > 0 && is_sign(t[0]))
    &&& !t.contains('%')
    &&& c.len() > 2
    &&& c != excluded
}

pub open spec fn is_delta_text(t: Seq<char>) -> bool {
    &&& t.len() > 1
    &&& is_sign(t[0])
    &&& !t.contains('%')
    &&& is_number(strip_commas(t.drop_first()))
}

pub open spec fn is_percent_text(t: Seq<char>, anchor: Seq<char>) -> bool {
    &&& t.len() > 0
    &&& t[0] == '('
    &&& t.last() == ')'
    &&& t.contains('%')
    &&& has_digit(t)
    &&& t != anchor
}

pub open spec fn pattern_holds(p: PatternView, t: Seq<char>) -> bool {
    match p {
        PatternView::Code => is_code_text(t),
        PatternView::Magnitude(excluded) => is_magnitude_text(t, excluded),
        PatternView::SignedDelta => is_delta_text(t),
        PatternView::SignedPercent(anchor) => is_percent_text(t, anchor),
    }
}

/// Whether element `j` lies in the window under `w` and its text has the
/// pattern's shape.
pub open spec fn qualifies(d: Document, w: int, p: PatternView, j: int) -> bool {
    d.is_element(j) && d.is_ancestor(w, j) && pattern_holds(p, d.text_of(j))
}

pub open spec fn candidate_at(d: Document, j: int) -> CandidateView {
    CandidateView { index: j, text: d.text_of(j), prominence: d.nodes@[j].classes@.len() }
}

/// The candidates under `w` among the nodes before position `k`, in
/// document order.
pub open spec fn scan_before(d: Document, w: int, p: PatternView, k: int) -> Seq<CandidateView>
    decreases k,
{
    if k <= 0 || k <= w + 1 || k > d.len() {
        Seq::empty()
    } else {
        scan_before(d, w, p, k - 1) + (if qualifies(d, w, p, k - 1) {
            seq![candidate_at(d, k - 1)]
        } else {
            Seq::empty()
        })
    }
}

/// Every element under `w` whose text has the pattern's shape, in document
/// order.
pub open spec fn scan_spec(d: Document, w: int, p: PatternView) -> Seq<CandidateView> {
    scan_before(d, w, p, d.len())
}

/// Whether node `i` is a text node that reads as `a` once trimmed.
pub open spec fn is_anchor_node(d: Document, a: Seq<char>, i: int) -> bool {
    d.is_text_node(i) && trim(d.own_text(i)) == a
}

pub open spec fn anchor_at(d: Document, a: Seq<char>) -> spec_fn(int) -> bool {
    |i: int| is_anchor_node(d, a, i)
}

/// The window of the first text node that reads as `a`, if any.
pub open spec fn locate_spec(d: Document, a: Seq<char>, depth: nat) -> Option<int> {
    match first_below(anchor_at(d, a), d.len()) {
        Some(t) => window_of(d, t, depth),
        None => None,
    }
}

/// The window of an anchor at text node `t`: the ancestor `depth` parents
/// up, or the topmost one where the chain is shorter.
pub open spec fn window_of(d: Document, t: int, depth: nat) -> Option<int> {
    if depth == 0 {
        None
    } else {
        match d.parent_of(t) {
            Some(p) => Some(d.climb(p as int, (depth - 1) as nat)),
            None => None,
        }
    }
}

/// Whether the text has the pattern's shape.
pub fn pattern_matches(p: &FieldPattern, t: &Vec<char>) -> (r: bool)
    ensures
        r == pattern_holds(p@, t@),
{
    match p {
        FieldPattern::Code => {
            if t.len() != 4 {
                return false;
            }
            let mut i: usize = 0;
            while i < 4
                invariant
                    *p is Code,
                    t@.len() == 4,
                    i <= 4,
                    forall|k: int| 0 <= k < i ==> is_digit(#[trigger] t@[k]),
                decreases 4 - i,
            {
                if !('0' <= t[i] && t[i] <= '9') {
                    assert(!is_digit(t@[i as int]));
                    assert(!is_code_text(t@));
                    assert(!pattern_holds(p@, t@));
                    return false;
                }
                i = i + 1;
            }
            true
        },
        FieldPattern::Magnitude { excluded } => {
            let c = strip_commas_chars(t);
            let signed = t.len() > 0 && (t[0] == '+' || t[0] == '-');
            is_number_chars(&c) && !signed && !has_char(t, '%') && c.len() > 2 && !same_chars(
                &c,
                excluded,
            )
        },
        FieldPattern::SignedDelta => {
            if t.len() <= 1 || !(t[0] == '+' || t[0] == '-') || has_char(t, '%') {
                return false;
            }
            let rest = slice_chars(t, 1, t.len());
            assert(rest@ =~= t@.drop_first());
            let c = strip_commas_chars(&rest);
            is_number_chars(&c)
        },
        FieldPattern::SignedPercent { anchor } => {
            t.len() > 0 && t[0] == '(' && t[t.len() - 1] == ')' && has_char(t, '%')
                && has_digit_char(t) && !same_chars(t, anchor)
        },
    }
}

/// Each candidate lies in the window, qualifies, and is described as its
/// element is; the candidates come in strictly increasing document order.
pub proof fn lemma_scan_before(d: Document, w: int, p: PatternView, k: int)
    ensures
        forall|q: int|
            #![trigger scan_before(d, w, p, k)[q]]
            0 <= q < scan_before(d, w, p, k).len() ==> {
                let c = scan_before(d, w, p, k)[q];
                &&& w < c.index < k
                &&& qualifies(d, w, p, c.index)
                &&& c == candidate_at(d, c.index)
            },
        forall|a: int, b: int|
            0 <= a < b < scan_before(d, w, p, k).len() ==> scan_before(d, w, p, k)[a].index
                < scan_before(d, w, p, k)[b].index,
    decreases k,
{
    if !(k <= 0 || k <= w + 1 || k > d.len()) {
        lemma_scan_before(d, w, p, k - 1);
        let prev = scan_before(d, w, p, k - 1);
        let cur = scan_before(d, w, p, k);
        assert(forall|q: int| 0 <= q < prev.len() ==> cur[q] == prev[q]);
    }
}

impl Document {
    /// Finds the window of the first text node that reads as `anchor` once
    /// trimmed: its ancestor `depth` parents up, or the topmost one where the
    /// chain is shorter. The first match wins; none is found where no text
    /// node matches.
    pub fn locate(&self, anchor: &Vec<char>, depth: usize) -> (r: Option<usize>)
        requires
            self.wf(),
        ensures
            as_int(r) == locate_spec(*self, anchor@, depth as nat),
            r matches Some(w) ==> self.is_element(w as int),
    {
        let mut i: usize = 0;
        while i < self.nodes.len()
            invariant
                self.wf(),
                i <= self.len(),
                first_below(anchor_at(*self, anchor@), i as int) is None,
            decreases self.nodes.len() - i,
        {
            if self.nodes[i].is_text {
                let t = trim_chars(&self.nodes[i].text);
                if same_chars(&t, anchor) {
                    proof {
                        lemma_first_below_prefix(anchor_at(*self, anchor@), i + 1, self.len());
                    }
                    if depth == 0 {
                        return None;
                    }
                    match self.nodes[i].parent {
                        None => {
                            return None;
                        },
                        Some(p) => {
                            let mut cur = p;
                            let mut k: usize = depth - 1;
                            while k > 0 && self.nodes[cur].parent.is_some()
                                invariant
                                    self.wf(),
                                    cur < self.len(),
                                    self.is_element(cur as int),
                                    self.climb(p as int, (depth - 1) as nat) == self.climb(
                                        cur as int,
                                        k as nat,
                                    ),
                                decreases k,
                            {
                                let q = self.nodes[cur].parent.unwrap();
                                assert(self.parent_of(cur as int) == Some(q));
                                cur = q;
                                k = k - 1;
                            }
                            assert(window_of(*self, i as int, depth as nat) == Some(cur as int));
                            return Some(cur);
                        },
                    }
                }
            }
            i = i + 1;
        }
        None
    }

    /// Every element under `w` whose trimmed text has the pattern's shape, in
    /// document order, with its text and number of class tokens.
    pub fn scan(&self, w: usize, p: &FieldPattern) -> (r: Vec<Candidate>)
        requires
            self.wf(),
            w < self.len(),
        ensures
            cand_views(r@) == scan_spec(*self, w as int, p@),
            forall|k: int|
                0 <= k < r@.len() ==> qualifies(*self, w as int, p@, #[trigger] r@[k].index as int),
    {
        let n = self.nodes.len();
        let mut r: Vec<Candidate> = Vec::new();
        let mut j: usize = w + 1;
        while j < n
            invariant
                self.wf(),
                n == self.len(),
                w < j <= n,
                cand_views(r@) == scan_before(*self, w as int, p@, j as int),
            decreases n - j,
        {
            if !self.nodes[j].is_text && self.has_ancestor(w, j) {
                let t = self.text_of_node(j);
                if pattern_matches(p, &t) {
                    let c = Candidate { index: j, text: t, prominence: self.nodes[j].classes.len() };
                    r.push(c);
                    assert(cand_views(r@) =~= scan_before(*self, w as int, p@, j + 1));
                } else {
                    assert(cand_views(r@) =~= scan_before(*self, w as int, p@, j + 1));
                }
            } else {
                assert(cand_views(r@) =~= scan_before(*self, w as int, p@, j + 1));
            }
            j = j + 1;
        }
        proof {
            lemma_scan_before(*self, w as int, p@, n as int);
            assert forall|k: int| 0 <= k < r@.len() implies qualifies(
                *self,
                w as int,
                p@,
                #[trigger] r@[k].index as int,
            ) by {
                assert(cand_views(r@)[k] == r@[k]@);
            }
        }
        r
    }
}

} // verus!
