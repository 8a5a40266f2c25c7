use vstd::prelude::*;

use crate::classify::PageType;
use crate::dom::{dedup, lemma_dedup_subset, lemma_first_below, lemma_first_below_some, Document};
use crate::extract::extract_spec;
use crate::resolve::{
    delta_choice, has_marker_class, is_heading, label_choice, lemma_most_prominent,
    magnitude_choice, percent_element, strong_heading, weak_heading, weak_label,
};
use crate::scan::{lemma_scan_before, qualifies, scan_spec, PatternView};

verus! {

/// A document with a heading whose text is not empty and not all numeric
/// always resolves a label, its text is not empty, and extraction from it
/// yields a record with a name, whatever the identifier and page type.
pub proof fn lemma_label_found(d: Document, e: int)
    requires
        d.wf(),
        is_heading(d, e),
        weak_label(d.text_of(e)),
    ensures
        label_choice(d) is Some,
        d.text_of(label_choice(d).unwrap()).len() > 0,
        forall|id: Seq<char>, page: PageType|
            #[trigger] extract_spec(d, id, page) matches Some(v) && v.name.len() > 0,
{
    lemma_first_below(weak_heading(d), d.len(), e);
    lemma_first_below_some(strong_heading(d), d.len());
    lemma_first_below_some(weak_heading(d), d.len());
}

/// Among price-like candidates, one with fewer class tokens than another is
/// never the one chosen.
pub proof fn lemma_prominence_wins(d: Document, w: int, excluded: Seq<char>, a: int, b: int)
    requires
        0 <= a < scan_spec(d, w, PatternView::Magnitude(excluded)).len(),
        0 <= b < scan_spec(d, w, PatternView::Magnitude(excluded)).len(),
        scan_spec(d, w, PatternView::Magnitude(excluded))[a].prominence > scan_spec(
            d,
            w,
            PatternView::Magnitude(excluded),
        )[b].prominence,
    ensures
        magnitude_choice(d, w, excluded) != Some(
            scan_spec(d, w, PatternView::Magnitude(excluded))[b].index,
        ),
{
    let cs = scan_spec(d, w, PatternView::Magnitude(excluded));
    lemma_most_prominent(cs);
    lemma_scan_before(d, w, PatternView::Magnitude(excluded), d.len());
}

/// Where some bracketed percentage carries a secondary-styled class, the
/// chosen one does too, wherever it stands in document order.
pub proof fn lemma_secondary_preferred(d: Document, w: int, anchor: Seq<char>, a: int)
    requires
        0 <= a < scan_spec(d, w, PatternView::SignedPercent(anchor)).len(),
        has_marker_class(
            d,
            scan_spec(d, w, PatternView::SignedPercent(anchor))[a].index,
            "secondary"@,
        ),
    ensures
        percent_element(d, w, anchor) matches Some(e) && has_marker_class(d, e, "secondary"@),
{
    let cs = scan_spec(d, w, PatternView::SignedPercent(anchor));
    let f = |k: int| has_marker_class(d, cs[k].index, "secondary"@);
    lemma_first_below(f, cs.len() as int, a);
}

/// The chosen change amount is a signed number with no percent sign, and
/// carries at least one class token.
pub proof fn lemma_delta_shape(d: Document, w: int)
    ensures
        delta_choice(d, w) matches Some(e) ==> qualifies(d, w, PatternView::SignedDelta, e)
            && !d.text_of(e).contains('%') && d.nodes@[e].classes@.len() >= 1,
{
    let cs = scan_spec(d, w, PatternView::SignedDelta);
    lemma_first_below_some(|k: int| cs[k].prominence >= 1, cs.len() as int);
    lemma_scan_before(d, w, PatternView::SignedDelta, d.len());
}

/// The descriptor built from an element matches that element; where no
/// earlier element matches it, re-querying the unchanged document yields
/// exactly that element.
pub proof fn lemma_selector_round_trip(d: Document, e: int)
    requires
        d.is_element(e),
    ensures
        d.matches(d.tag_of(e), dedup(d.classes_of(e)), e),
        (forall|q: int| 0 <= q < e ==> !d.matches(d.tag_of(e), dedup(d.classes_of(e)), q))
            ==> d.first_match(d.tag_of(e), dedup(d.classes_of(e))) == Some(e),
{
    lemma_dedup_subset(d.classes_of(e));
    if forall|q: int| 0 <= q < e ==> !d.matches(d.tag_of(e), dedup(d.classes_of(e)), q) {
        d.lemma_first_match(d.tag_of(e), dedup(d.classes_of(e)), e);
    }
}

} // verus!
