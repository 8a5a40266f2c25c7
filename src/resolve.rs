use vstd::prelude::*;

use crate::dom::{first_below, lemma_first_below_some, Document};
use crate::scan::{cand_views, qualifies, scan_spec, Candidate, CandidateView, FieldPattern, PatternView};
use crate::text::{
    char_is_numeric, chars_of, contains_seq, has_char, has_infix, numeric_char, same_chars,
};

verus! {

/// The position of the first candidate with at least one class token.
pub open spec fn first_classed(cs: Seq<CandidateView>) -> Option<int> {
    first_below(|k: int| cs[k].prominence >= 1, cs.len() as int)
}

/// The position of the candidate with the most class tokens; the earliest
/// of those where several have as many.
pub open spec fn most_prominent(cs: Seq<CandidateView>) -> Option<int>
    decreases cs.len(),
{
    if cs.len() == 0 {
        None
    } else {
        match most_prominent(cs.drop_last()) {
            None => Some(cs.len() - 1),
            Some(k) => if cs.last().prominence > cs[k].prominence {
                Some(cs.len() - 1)
            } else {
                Some(k)
            },
        }
    }
}

/// Whether one of the class tokens of element `j` holds `m`.
pub open spec fn has_marker_class(d: Document, j: int, m: Seq<char>) -> bool {
    exists|k: int| 0 <= k < d.classes_of(j).len() && has_infix(#[trigger] d.classes_of(j)[k], m)
}

/// The position of the candidate that a percentage resolves to: the first
/// one styled as secondary, else the last one.
pub open spec fn percent_choice(d: Document, cs: Seq<CandidateView>) -> Option<int> {
    match first_below(|k: int| has_marker_class(d, cs[k].index, "secondary"@), cs.len() as int) {
        Some(k) => Some(k),
        None => if cs.len() > 0 {
            Some(cs.len() - 1)
        } else {
            None
        },
    }
}

/// The element at a chosen position of a candidate list.
pub open spec fn element_at(cs: Seq<CandidateView>, k: Option<int>) -> Option<int> {
    match k {
        Some(k) => Some(cs[k].index),
        None => None,
    }
}

pub open spec fn as_int(r: Option<usize>) -> Option<int> {
    match r {
        Some(i) => Some(i as int),
        None => None,
    }
}

pub open spec fn code_choice(d: Document, w: int) -> Option<int> {
    let cs = scan_spec(d, w, PatternView::Code);
    if cs.len() > 0 {
        Some(cs[0].index)
    } else {
        None
    }
}

pub open spec fn magnitude_choice(d: Document, w: int, excluded: Seq<char>) -> Option<int> {
    let cs = scan_spec(d, w, PatternView::Magnitude(excluded));
    element_at(cs, most_prominent(cs))
}

pub open spec fn delta_choice(d: Document, w: int) -> Option<int> {
    let cs = scan_spec(d, w, PatternView::SignedDelta);
    element_at(cs, first_classed(cs))
}

pub open spec fn percent_element(d: Document, w: int, anchor: Seq<char>) -> Option<int> {
    let cs = scan_spec(d, w, PatternView::SignedPercent(anchor));
    element_at(cs, percent_choice(d, cs))
}

/// A heading's text qualifies as a label: not empty, and not made of
/// numeric characters alone.
pub open spec fn weak_label(t: Seq<char>) -> bool {
    t.len() > 0 && !(forall|k: int| 0 <= k < t.len() ==> numeric_char(#[trigger] t[k]))
}

/// A label that names an entity outright: a company, a known index, or a
/// currency pair.
pub open spec fn strong_label(t: Seq<char>) -> bool {
    &&& weak_label(t)
    &&& (has_infix(t, "(株)"@) || t == "NYダウ"@ || t == "日経平均株価"@ || t.contains('/'))
}

pub open spec fn is_heading(d: Document, i: int) -> bool {
    d.is_element(i) && is_heading_tag(d.tag_of(i))
}

/// A heading tag: `h1` to `h6`.
pub open spec fn is_heading_tag(t: Seq<char>) -> bool {
    t.len() == 2 && t[0] == 'h' && '1' <= t[1] && t[1] <= '6'
}

/// Whether `tag` names a heading level, `h1` to `h6`.
pub fn heading_tag(tag: &String) -> (r: bool)
    ensures
        r == is_heading_tag(tag@),
{
    let t = chars_of(tag.as_str());
    t.len() == 2 && t[0] == 'h' && '1' <= t[1] && t[1] <= '6'
}

pub open spec fn strong_heading(d: Document) -> spec_fn(int) -> bool {
    |i: int| is_heading(d, i) && strong_label(d.text_of(i))
}

pub open spec fn weak_heading(d: Document) -> spec_fn(int) -> bool {
    |i: int| is_heading(d, i) && weak_label(d.text_of(i))
}

/// The heading element that names the document: the first strong label,
/// else the first weak one.
pub open spec fn label_choice(d: Document) -> Option<int> {
    match first_below(strong_heading(d), d.len()) {
        Some(i) => Some(i),
        None => first_below(weak_heading(d), d.len()),
    }
}

/// The most prominent candidate comes no later than any as prominent, and
/// has at least as many class tokens as each.
pub proof fn lemma_most_prominent(cs: Seq<CandidateView>)
    ensures
        match most_prominent(cs) {
            Some(k) => 0 <= k < cs.len() && (forall|q: int|
                0 <= q < cs.len() ==> cs[q].prominence <= cs[k].prominence) && (forall|q: int|
                0 <= q < k ==> cs[q].prominence < cs[k].prominence),
            None => cs.len() == 0,
        },
    decreases cs.len(),
{
    if cs.len() > 0 {
        let init = cs.drop_last();
        lemma_most_prominent(init);
        assert(forall|q: int| 0 <= q < init.len() ==> init[q] == cs[q]);
    }
}

/// Whether every character of `t` is numeric.
fn all_numeric(t: &Vec<char>) -> (r: bool)
    ensures
        r == (forall|k: int| 0 <= k < t@.len() ==> numeric_char(#[trigger] t@[k])),
{
    let mut i: usize = 0;
    while i < t.len()
        invariant
            i <= t@.len(),
            forall|k: int| 0 <= k < i ==> numeric_char(#[trigger] t@[k]),
        decreases t.len() - i,
    {
        if !char_is_numeric(t[i]) {
            return false;
        }
        i = i + 1;
    }
    true
}

/// Whether the text qualifies as a label, and whether as a strong one.
pub fn label_strength(t: &Vec<char>) -> (r: (bool, bool))
    ensures
        r.0 == weak_label(t@),
        r.1 == strong_label(t@),
{
    let weak = t.len() > 0 && !all_numeric(t);
    if !weak {
        return (false, false);
    }
    let company = chars_of("(株)");
    let dow = chars_of("NYダウ");
    let nikkei = chars_of("日経平均株価");
    let strong = contains_seq(t, &company) || same_chars(t, &dow) || same_chars(t, &nikkei)
        || has_char(t, '/');
    (true, strong)
}

/// Position of the first candidate with at least one class token.
fn first_classed_pos(cs: &Vec<Candidate>) -> (r: Option<usize>)
    ensures
        as_int(r) == first_classed(cand_views(cs@)),
        r matches Some(k) ==> k < cs@.len(),
{
    let ghost cv = cand_views(cs@);
    let mut found: Option<usize> = None;
    let mut i: usize = 0;
    while i < cs.len()
        invariant
            cv == cand_views(cs@),
            i <= cs@.len(),
            as_int(found) == first_below(|k: int| cv[k].prominence >= 1, i as int),
        decreases cs.len() - i,
    {
        if found.is_none() && cs[i].prominence >= 1 {
            found = Some(i);
        }
        i = i + 1;
    }
    proof {
        lemma_first_below_some(|k: int| cv[k].prominence >= 1, cs@.len() as int);
    }
    found
}

/// Position of the candidate with the most class tokens, the earliest among
/// equals.
fn most_prominent_pos(cs: &Vec<Candidate>) -> (r: Option<usize>)
    ensures
        as_int(r) == most_prominent(cand_views(cs@)),
        r matches Some(k) ==> k < cs@.len(),
{
    let ghost cv = cand_views(cs@);
    if cs.len() == 0 {
        return None;
    }
    assert(cv.subrange(0, 1).drop_last() =~= Seq::<CandidateView>::empty());
    assert(most_prominent(Seq::<CandidateView>::empty()) is None);
    assert(most_prominent(cv.subrange(0, 1)) == Some(0int));
    let mut best: usize = 0;
    let mut i: usize = 1;
    while i < cs.len()
        invariant
            cv == cand_views(cs@),
            1 <= i <= cs@.len(),
            best < i,
            most_prominent(cv.subrange(0, i as int)) == Some(best as int),
        decreases cs.len() - i,
    {
        let ghost pre = cv.subrange(0, i + 1);
        assert(pre.drop_last() =~= cv.subrange(0, i as int));
        assert(pre[best as int] == cv[best as int]);
        if cs[i].prominence > cs[best].prominence {
            best = i;
        }
        i = i + 1;
    }
    assert(cv.subrange(0, cs@.len() as int) =~= cv);
    Some(best)
}

/// Whether node `j` has an ancestor element with tag `t`.
pub open spec fn under_tag(d: Document, t: Seq<char>, j: int) -> bool
    decreases j,
{
    if 0 <= j < d.len() {
        match d.parent_of(j) {
            Some(p) => (d.is_element(p as int) && d.tag_of(p as int) == t) || (p < j && under_tag(
                d,
                t,
                p as int,
            )),
            None => false,
        }
    } else {
        false
    }
}

/// An item of a list: an `li` element inside a `ul`.
pub open spec fn is_list_item(d: Document, j: int) -> bool {
    d.is_element(j) && d.tag_of(j) == "li"@ && under_tag(d, "ul"@, j)
}

pub open spec fn marked_item(d: Document) -> spec_fn(int) -> bool {
    |j: int| is_list_item(d, j) && has_infix(d.full_text(j), "リアルタイム"@)
}

pub open spec fn item_after(d: Document, a: int) -> spec_fn(int) -> bool {
    |j: int| j > a && is_list_item(d, j)
}

/// The list item right after the first one that holds the real-time marker.
pub open spec fn item_after_marker(d: Document) -> Option<int> {
    match first_below(marked_item(d), d.len()) {
        Some(a) => first_below(item_after(d, a), d.len()),
        None => None,
    }
}

pub open spec fn in_scope(d: Document, scope: Option<int>, i: int) -> bool {
    match scope {
        Some(w) => d.is_ancestor(w, i),
        None => true,
    }
}

pub open spec fn footer_at(d: Document, scope: Option<int>, m: Seq<char>) -> spec_fn(int) -> bool {
    |i: int| d.is_element(i) && in_scope(d, scope, i) && has_marker_class(d, i, m)
}

pub open spec fn time_under(d: Document, f: int) -> spec_fn(int) -> bool {
    |i: int| d.is_element(i) && d.tag_of(i) == "time"@ && d.is_ancestor(f, i)
}

/// The first `time` element inside the first element (within the scope)
/// whose class tokens hold the footer marker.
pub open spec fn footer_time(d: Document, scope: Option<int>, m: Seq<char>) -> Option<int> {
    match first_below(footer_at(d, scope, m), d.len()) {
        Some(f) => first_below(time_under(d, f), d.len()),
        None => None,
    }
}

/// Nothing is found where `f` holds nowhere below `k`.
pub proof fn lemma_first_below_none(f: spec_fn(int) -> bool, k: int)
    requires
        forall|j: int| 0 <= j < k ==> !#[trigger] f(j),
    ensures
        first_below(f, k) is None,
    decreases k,
{
    if k > 0 {
        lemma_first_below_none(f, k - 1);
    }
}

impl Document {
    /// Whether one of the class tokens of element `j` holds `m`.
    pub fn has_marked_class(&self, j: usize, m: &Vec<char>) -> (r: bool)
        requires
            j < self.len(),
        ensures
            r == has_marker_class(*self, j as int, m@),
    {
        let node = &self.nodes[j];
        let mut k: usize = 0;
        while k < node.classes.len()
            invariant
                node == self.nodes@[j as int],
                k <= node.classes@.len(),
                forall|q: int| 0 <= q < k ==> !has_infix(#[trigger] self.classes_of(j as int)[q], m@),
            decreases node.classes.len() - k,
        {
            let c = chars_of(node.classes[k].as_str());
            if contains_seq(&c, m) {
                assert(has_infix(self.classes_of(j as int)[k as int], m@));
                return true;
            }
            k = k + 1;
        }
        false
    }

    /// The heading that names the document: the first heading (`h1` to `h6`) whose text is a
    /// strong label, else the first whose text is a label at all.
    pub fn resolve_label(&self) -> (r: Option<usize>)
        requires
            self.wf(),
        ensures
            as_int(r) == label_choice(*self),
    {
        let mut strong: Option<usize> = None;
        let mut weak: Option<usize> = None;
        let mut i: usize = 0;
        while i < self.nodes.len()
            invariant
                self.wf(),
                i <= self.len(),
                as_int(strong) == first_below(strong_heading(*self), i as int),
                as_int(weak) == first_below(weak_heading(*self), i as int),
            decreases self.nodes.len() - i,
        {
            if !self.nodes[i].is_text && heading_tag(&self.nodes[i].tag) {
                let t = self.text_of_node(i);
                let (is_weak, is_strong) = label_strength(&t);
                if strong.is_none() && is_strong {
                    strong = Some(i);
                }
                if weak.is_none() && is_weak {
                    weak = Some(i);
                }
            }
            i = i + 1;
        }
        match strong {
            Some(s) => Some(s),
            None => weak,
        }
    }

    /// The first element under `w` whose text is four digits.
    pub fn resolve_code(&self, w: usize) -> (r: Option<usize>)
        requires
            self.wf(),
            w < self.len(),
        ensures
            as_int(r) == code_choice(*self, w as int),
            r matches Some(i) ==> self.is_element(i as int),
    {
        let cs = self.scan(w, &FieldPattern::Code);
        if cs.len() > 0 {
            Some(cs[0].index)
        } else {
            None
        }
    }

    /// The number-shaped element under `w` with the most class tokens, the
    /// earliest among equals; an element reading as `excluded` once its
    /// commas are removed is passed over.
    pub fn resolve_magnitude(&self, w: usize, excluded: Vec<char>) -> (r: Option<usize>)
        requires
            self.wf(),
            w < self.len(),
        ensures
            as_int(r) == magnitude_choice(*self, w as int, excluded@),
            r matches Some(i) ==> self.is_element(i as int),
    {
        let p = FieldPattern::Magnitude { excluded };
        let cs = self.scan(w, &p);
        match most_prominent_pos(&cs) {
            Some(k) => Some(cs[k].index),
            None => None,
        }
    }

    /// The first signed, percent-free number under `w` that carries at least
    /// one class token.
    pub fn resolve_delta(&self, w: usize) -> (r: Option<usize>)
        requires
            self.wf(),
            w < self.len(),
        ensures
            as_int(r) == delta_choice(*self, w as int),
            r matches Some(i) ==> self.is_element(i as int),
    {
        let cs = self.scan(w, &FieldPattern::SignedDelta);
        match first_classed_pos(&cs) {
            Some(k) => Some(cs[k].index),
            None => None,
        }
    }

    /// The bracketed percentage under `w`: the first one styled as
    /// secondary, else the last one in document order.
    pub fn resolve_percent(&self, w: usize, anchor: Vec<char>) -> (r: Option<usize>)
        requires
            self.wf(),
            w < self.len(),
        ensures
            as_int(r) == percent_element(*self, w as int, anchor@),
            r matches Some(i) ==> self.is_element(i as int),
    {
        let p = FieldPattern::SignedPercent { anchor };
        let cs = self.scan(w, &p);
        let ghost cv = cand_views(cs@);
        let marker = chars_of("secondary");
        let mut found: Option<usize> = None;
        let mut i: usize = 0;
        while i < cs.len()
            invariant
                self.wf(),
                cv == cand_views(cs@),
                cv == scan_spec(*self, w as int, p@),
                marker@ == "secondary"@,
                i <= cs@.len(),
                forall|k: int| 0 <= k < cs@.len() ==> qualifies(*self, w as int, p@, #[trigger] cs@[k].index as int),
                as_int(found) == first_below(
                    |k: int| has_marker_class(*self, cv[k].index, "secondary"@),
                    i as int,
                ),
            decreases cs.len() - i,
        {
            if found.is_none() && self.has_marked_class(cs[i].index, &marker) {
                found = Some(i);
            }
            i = i + 1;
        }
        proof {
            lemma_first_below_some(
                |k: int| has_marker_class(*self, cv[k].index, "secondary"@),
                cs@.len() as int,
            );
        }
        match found {
            Some(k) => Some(cs[k].index),
            None => if cs.len() > 0 {
                Some(cs[cs.len() - 1].index)
            } else {
                None
            },
        }
    }
    /// Whether node `j` has an ancestor element with tag `t`.
    pub fn has_ancestor_tagged(&self, t: &String, j: usize) -> (r: bool)
        requires
            self.wf(),
            j < self.len(),
        ensures
            r == under_tag(*self, t@, j as int),
    {
        let mut cur = j;
        loop
            invariant
                self.wf(),
                cur < self.len(),
                under_tag(*self, t@, j as int) == under_tag(*self, t@, cur as int),
            decreases cur,
        {
            match self.nodes[cur].parent {
                None => {
                    return false;
                },
                Some(p) => {
                    assert(self.parent_of(cur as int) == Some(p));
                    if !self.nodes[p].is_text && self.nodes[p].tag == *t {
                        return true;
                    }
                    cur = p;
                },
            }
        }
    }

    /// The list item that follows the first item holding the real-time
    /// marker.
    pub fn resolve_time_after_marker(&self) -> (r: Option<usize>)
        requires
            self.wf(),
        ensures
            as_int(r) == item_after_marker(*self),
    {
        let li = String::from_str("li");
        let ul = String::from_str("ul");
        let marker = chars_of("リアルタイム");
        let mut marked: Option<usize> = None;
        let mut found: Option<usize> = None;
        let mut i: usize = 0;
        while i < self.nodes.len()
            invariant
                self.wf(),
                li@ == "li"@,
                ul@ == "ul"@,
                marker@ == "リアルタイム"@,
                i <= self.len(),
                as_int(marked) == first_below(marked_item(*self), i as int),
                marked matches Some(a) ==> a < i,
                as_int(found) == match marked {
                    Some(a) => first_below(item_after(*self, a as int), i as int),
                    None => None,
                },
            decreases self.nodes.len() - i,
        {
            let item = !self.nodes[i].is_text && self.nodes[i].tag == li && self.has_ancestor_tagged(
                &ul,
                i,
            );
            match marked {
                Some(a) => {
                    if found.is_none() && item {
                        found = Some(i);
                    }
                },
                None => {
                    if item {
                        let t = self.full_text_of(i);
                        if contains_seq(&t, &marker) {
                            marked = Some(i);
                            proof {
                                lemma_first_below_none(item_after(*self, i as int), i + 1);
                            }
                        }
                    }
                },
            }
            i = i + 1;
        }
        found
    }

    /// The first `time` element inside the first element within `scope`
    /// (the whole document where it is `None`) whose class tokens hold
    /// `marker`.
    pub fn resolve_time_in_footer(&self, scope: Option<usize>, marker: &Vec<char>) -> (r: Option<
        usize,
    >)
        requires
            self.wf(),
        ensures
            as_int(r) == footer_time(*self, as_int(scope), marker@),
            r matches Some(i) ==> self.is_element(i as int),
    {
        let mut footer: Option<usize> = None;
        let mut i: usize = 0;
        while i < self.nodes.len()
            invariant
                self.wf(),
                i <= self.len(),
                as_int(footer) == first_below(footer_at(*self, as_int(scope), marker@), i as int),
            decreases self.nodes.len() - i,
        {
            if footer.is_none() && !self.nodes[i].is_text {
                let inside = match scope {
                    Some(w) => self.has_ancestor(w, i),
                    None => true,
                };
                if inside && self.has_marked_class(i, marker) {
                    footer = Some(i);
                }
            }
            i = i + 1;
        }
        let f = match footer {
            Some(f) => f,
            None => {
                return None;
            },
        };
        let time = String::from_str("time");
        let mut found: Option<usize> = None;
        let mut j: usize = 0;
        while j < self.nodes.len()
            invariant
                self.wf(),
                time@ == "time"@,
                j <= self.len(),
                as_int(found) == first_below(time_under(*self, f as int), j as int),
            decreases self.nodes.len() - j,
        {
            if found.is_none() && !self.nodes[j].is_text && self.nodes[j].tag == time
                && self.has_ancestor(f, j) {
                found = Some(j);
            }
            j = j + 1;
        }
        proof {
            lemma_first_below_some(time_under(*self, f as int), self.len());
        }
        found
    }
}

} // verus!
