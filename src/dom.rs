use vstd::prelude::*;

use crate::text::{chars_of, trim, trim_chars};

verus! {

/// One node of a parsed document: an element with a tag and class tokens, or
/// a text leaf.
pub struct Node {
    pub parent: Option<usize>,
    pub is_text: bool,
    pub tag: String,
    pub classes: Vec<String>,
    pub text: Vec<char>,
}

/// A parsed document tree, its nodes listed in document order.
pub struct Document {
    pub nodes: Vec<Node>,
}

/// A structural description of an element for re-query: its tag name and its
/// class tokens in source order.
pub struct SelectorDescriptor {
    pub tag: String,
    pub classes: Vec<String>,
}

pub open spec fn class_views(v: Seq<String>) -> Seq<Seq<char>> {
    v.map_values(|s: String| s@)
}

/// Whether `s` is among the tokens of `v`.
pub fn contains_string(v: &Vec<String>, s: &String) -> (r: bool)
    ensures
        r == class_views(v@).contains(s@),
{
    let mut i: usize = 0;
    while i < v.len()
        invariant
            i <= v@.len(),
            forall|k: int| 0 <= k < i ==> class_views(v@)[k] != s@,
        decreases v.len() - i,
    {
        if v[i] == *s {
            assert(class_views(v@)[i as int] == s@);
            return true;
        }
        i = i + 1;
    }
    false
}

impl SelectorDescriptor {
    pub open spec fn tag_view(&self) -> Seq<char> {
        self.tag@
    }

    pub open spec fn class_view(&self) -> Seq<Seq<char>> {
        class_views(self.classes@)
    }
}

/// The first `i` below `k` (from zero) for which `f` holds.
pub open spec fn first_below(f: spec_fn(int) -> bool, k: int) -> Option<int>
    decreases k,
{
    if k <= 0 {
        None
    } else {
        match first_below(f, k - 1) {
            Some(i) => Some(i),
            None => if f(k - 1) {
                Some(k - 1)
            } else {
                None
            },
        }
    }
}

/// What is found first is found, holds of `f`, and is in range.
pub proof fn lemma_first_below(f: spec_fn(int) -> bool, k: int, e: int)
    requires
        0 <= e < k,
        f(e),
    ensures
        first_below(f, k) is Some,
        f(first_below(f, k).unwrap()),
        0 <= first_below(f, k).unwrap() <= e,
    decreases k,
{
    lemma_first_below_some(f, k - 1);
    if e < k - 1 {
        lemma_first_below(f, k - 1, e);
    }
}

/// Whatever `first_below` returns holds of `f` and lies in range.
pub proof fn lemma_first_below_some(f: spec_fn(int) -> bool, k: int)
    ensures
        first_below(f, k) matches Some(i) ==> f(i) && 0 <= i < k,
    decreases k,
{
    if k > 0 {
        lemma_first_below_some(f, k - 1);
    }
}

/// Once found below `a`, the same index is found below any larger bound.
pub proof fn lemma_first_below_prefix(f: spec_fn(int) -> bool, a: int, k: int)
    requires
        first_below(f, a) is Some,
        a <= k,
    ensures
        first_below(f, k) == first_below(f, a),
    decreases k - a,
{
    if a < k {
        lemma_first_below_prefix(f, a, k - 1);
    }
}

/// Appending nodes leaves the ancestry of the earlier nodes as it was.
pub proof fn lemma_ancestor_extend(d: Document, d2: Document, a: int, j: int)
    requires
        d.len() <= d2.len(),
        forall|i: int| 0 <= i < d.len() ==> d2.nodes@[i] == d.nodes@[i],
        j < d.len(),
    ensures
        d2.is_ancestor(a, j) == d.is_ancestor(a, j),
    decreases j,
{
    if 0 <= j {
        if let Some(p) = d.parent_of(j) {
            if p < j {
                lemma_ancestor_extend(d, d2, a, p as int);
            }
        }
    }
}

/// The class tokens with every repeat after the first dropped.
pub open spec fn dedup(s: Seq<Seq<char>>) -> Seq<Seq<char>>
    decreases s.len(),
{
    if s.len() == 0 {
        s
    } else {
        let d = dedup(s.drop_last());
        if d.contains(s.last()) {
            d
        } else {
            d.push(s.last())
        }
    }
}

/// Every token kept is one of the originals.
pub proof fn lemma_dedup_subset(s: Seq<Seq<char>>)
    ensures
        forall|k: int| 0 <= k < dedup(s).len() ==> s.contains(#[trigger] dedup(s)[k]),
    decreases s.len(),
{
    if s.len() > 0 {
        let init = s.drop_last();
        lemma_dedup_subset(init);
        assert forall|k: int| 0 <= k < dedup(s).len() implies s.contains(#[trigger] dedup(s)[k]) by {
            if k < dedup(init).len() {
                let x = dedup(init)[k];
                assert(init.contains(x));
                let q = choose|q: int| 0 <= q < init.len() && init[q] == x;
                assert(s[q] == x);
            } else {
                assert(s[s.len() - 1] == s.last());
            }
        }
    }
}

impl Document {
    pub open spec fn len(&self) -> int {
        self.nodes@.len() as int
    }

    pub open spec fn parent_of(&self, i: int) -> Option<usize> {
        self.nodes@[i].parent
    }

    pub open spec fn is_element(&self, i: int) -> bool {
        0 <= i < self.len() && !self.nodes@[i].is_text
    }

    pub open spec fn is_text_node(&self, i: int) -> bool {
        0 <= i < self.len() && self.nodes@[i].is_text
    }

    pub open spec fn tag_of(&self, i: int) -> Seq<char> {
        self.nodes@[i].tag@
    }

    pub open spec fn classes_of(&self, i: int) -> Seq<Seq<char>> {
        class_views(self.nodes@[i].classes@)
    }

    pub open spec fn own_text(&self, i: int) -> Seq<char> {
        self.nodes@[i].text@
    }

    /// The nodes are in document order: every parent is an element that
    /// comes earlier, and is the node just before or one of its ancestors.
    pub open spec fn wf(&self) -> bool {
        forall|i: int|
            0 <= i < self.len() ==> match #[trigger] self.parent_of(i) {
                Some(p) => p < i && !self.nodes@[p as int].is_text && (p == i - 1
                    || self.is_ancestor(p as int, i - 1)),
                None => true,
            }
    }

    /// Whether a node appended now may have `p` as its parent and keep the
    /// nodes in document order.
    pub open spec fn attachable(&self, p: int) -> bool {
        self.is_element(p) && (p == self.len() - 1 || self.is_ancestor(p, self.len() - 1))
    }

    /// Whether `a` is a proper ancestor of node `j`.
    pub open spec fn is_ancestor(&self, a: int, j: int) -> bool
        decreases j,
    {
        if 0 <= j < self.len() {
            match self.parent_of(j) {
                Some(p) => p == a || (p < j && self.is_ancestor(a, p as int)),
                None => false,
            }
        } else {
            false
        }
    }

    /// The concatenated text of the text nodes under `e` among the nodes
    /// before position `k`.
    pub open spec fn text_before(&self, e: int, k: int) -> Seq<char>
        decreases k,
    {
        if k <= 0 || k <= e + 1 || k > self.len() {
            Seq::empty()
        } else {
            self.text_before(e, k - 1) + (if self.is_text_node(k - 1) && self.is_ancestor(
                e,
                k - 1,
            ) {
                self.own_text(k - 1)
            } else {
                Seq::empty()
            })
        }
    }

    /// The concatenation of all text under `e`, in document order.
    pub open spec fn full_text(&self, e: int) -> Seq<char> {
        self.text_before(e, self.len())
    }

    /// The trimmed full text of `e`.
    pub open spec fn text_of(&self, e: int) -> Seq<char> {
        trim(self.full_text(e))
    }

    /// Whether element `m` is matched by the descriptor: same tag, and every
    /// class token of the descriptor among its own.
    pub open spec fn matches(&self, tag: Seq<char>, classes: Seq<Seq<char>>, m: int) -> bool {
        &&& self.is_element(m)
        &&& self.tag_of(m) == tag
        &&& forall|k: int| 0 <= k < classes.len() ==> self.classes_of(m).contains(#[trigger] classes[k])
    }

    /// The node reached from `n` by going up at most `k` parents.
    pub open spec fn climb(&self, n: int, k: nat) -> int
        decreases k,
    {
        if k == 0 {
            n
        } else {
            match self.parent_of(n) {
                Some(p) => self.climb(p as int, (k - 1) as nat),
                None => n,
            }
        }
    }

    pub fn new() -> (r: Document)
        ensures
            r.wf(),
            r.len() == 0,
    {
        Document { nodes: Vec::new() }
    }

    /// Appends an element under `parent` (or a new root) and returns its
    /// position.
    pub fn add_element(&mut self, parent: Option<usize>, tag: &str, classes: Vec<String>) -> (r:
        usize)
        requires
            old(self).wf(),
            old(self).len() < usize::MAX,
            match parent {
                Some(p) => old(self).attachable(p as int),
                None => true,
            },
        ensures
            final(self).wf(),
            r as int == old(self).len(),
            final(self).len() == old(self).len() + 1,
            forall|i: int| 0 <= i < old(self).len() ==> final(self).nodes@[i] == old(self).nodes@[i],
            final(self).parent_of(r as int) == parent,
            final(self).is_element(r as int),
            final(self).tag_of(r as int) == tag@,
            final(self).nodes@[r as int].classes@ == classes@,
    {
        let r = self.nodes.len();
        let t = String::from_str(tag);
        self.nodes.push(Node { parent, is_text: false, tag: t, classes, text: Vec::new() });
        assert(forall|i: int| 0 <= i < r ==> self.nodes@[i] == old(self).nodes@[i]);
        assert forall|i: int| 0 <= i < self.len() implies match #[trigger] self.parent_of(i) {
            Some(p) => p < i && !self.nodes@[p as int].is_text && (p == i - 1 || self.is_ancestor(
                p as int,
                i - 1,
            )),
            None => true,
        } by {
            if i < r {
                assert(old(self).parent_of(i) == self.parent_of(i));
                if let Some(p) = old(self).parent_of(i) {
                    lemma_ancestor_extend(*old(self), *self, p as int, i - 1);
                }
            } else if let Some(p) = self.parent_of(i) {
                lemma_ancestor_extend(*old(self), *self, p as int, i - 1);
            }
        }
        r
    }

    /// Appends a text leaf under element `parent` and returns its position.
    pub fn add_text(&mut self, parent: usize, text: &str) -> (r: usize)
        requires
            old(self).wf(),
            old(self).len() < usize::MAX,
            old(self).attachable(parent as int),
        ensures
            final(self).wf(),
            r as int == old(self).len(),
            final(self).len() == old(self).len() + 1,
            forall|i: int| 0 <= i < old(self).len() ==> final(self).nodes@[i] == old(self).nodes@[i],
            final(self).parent_of(r as int) == Some(parent),
            final(self).is_text_node(r as int),
            final(self).own_text(r as int) == text@,
    {
        let r = self.nodes.len();
        let chars = chars_of(text);
        self.nodes.push(
            Node {
                parent: Some(parent),
                is_text: true,
                tag: String::new(),
                classes: Vec::new(),
                text: chars,
            },
        );
        assert(forall|i: int| 0 <= i < r ==> self.nodes@[i] == old(self).nodes@[i]);
        assert forall|i: int| 0 <= i < self.len() implies match #[trigger] self.parent_of(i) {
            Some(p) => p < i && !self.nodes@[p as int].is_text && (p == i - 1 || self.is_ancestor(
                p as int,
                i - 1,
            )),
            None => true,
        } by {
            if i < r {
                assert(old(self).parent_of(i) == self.parent_of(i));
                if let Some(p) = old(self).parent_of(i) {
                    lemma_ancestor_extend(*old(self), *self, p as int, i - 1);
                }
            } else if let Some(p) = self.parent_of(i) {
                lemma_ancestor_extend(*old(self), *self, p as int, i - 1);
            }
        }
        r
    }

    /// Whether `a` is a proper ancestor of node `j`.
    pub fn has_ancestor(&self, a: usize, j: usize) -> (r: bool)
        requires
            self.wf(),
            j < self.len(),
        ensures
            r == self.is_ancestor(a as int, j as int),
    {
        let mut cur = j;
        loop
            invariant
                self.wf(),
                cur < self.len(),
                self.is_ancestor(a as int, j as int) == self.is_ancestor(a as int, cur as int),
            decreases cur,
        {
            match self.nodes[cur].parent {
                None => {
                    return false;
                },
                Some(p) => {
                    assert(self.parent_of(cur as int) == Some(p));
                    if p == a {
                        return true;
                    }
                    cur = p;
                },
            }
        }
    }

    /// Whether a node appended now may have `p` as its parent.
    pub fn can_attach(&self, p: usize) -> (r: bool)
        requires
            self.wf(),
        ensures
            r == self.attachable(p as int),
    {
        let n = self.nodes.len();
        if p >= n || self.nodes[p].is_text {
            return false;
        }
        p + 1 == n || self.has_ancestor(p, n - 1)
    }

    /// All text under element `e`, concatenated in document order.
    pub fn full_text_of(&self, e: usize) -> (r: Vec<char>)
        requires
            self.wf(),
            e < self.len(),
        ensures
            r@ == self.full_text(e as int),
    {
        let n = self.nodes.len();
        let mut r: Vec<char> = Vec::new();
        let mut k: usize = e + 1;
        while k < n
            invariant
                self.wf(),
                n == self.len(),
                e < k <= n,
                r@ == self.text_before(e as int, k as int),
            decreases n - k,
        {
            if self.nodes[k].is_text && self.has_ancestor(e, k) {
                let t = &self.nodes[k].text;
                let mut i: usize = 0;
                let ghost base = r@;
                while i < t.len()
                    invariant
                        i <= t@.len(),
                        r@ == base + t@.subrange(0, i as int),
                    decreases t.len() - i,
                {
                    r.push(t[i]);
                    i = i + 1;
                    assert(r@ =~= base + t@.subrange(0, i as int));
                }
                assert(t@.subrange(0, t@.len() as int) =~= t@);
            } else {
                assert(r@ =~= r@ + Seq::<char>::empty());
            }
            k = k + 1;
        }
        r
    }

    /// The trimmed text under element `e`.
    pub fn text_of_node(&self, e: usize) -> (r: Vec<char>)
        requires
            self.wf(),
            e < self.len(),
        ensures
            r@ == self.text_of(e as int),
    {
        let t = self.full_text_of(e);
        trim_chars(&t)
    }

    /// The descriptor of element `e`: its tag and its class tokens in source
    /// order, each once.
    pub fn build_selector(&self, e: usize) -> (r: SelectorDescriptor)
        requires
            self.is_element(e as int),
        ensures
            r.tag_view() == self.tag_of(e as int),
            r.class_view() == dedup(self.classes_of(e as int)),
    {
        let node = &self.nodes[e];
        let mut classes: Vec<String> = Vec::new();
        let mut i: usize = 0;
        while i < node.classes.len()
            invariant
                node == self.nodes@[e as int],
                i <= node.classes@.len(),
                class_views(classes@) == dedup(class_views(node.classes@.subrange(0, i as int))),
            decreases node.classes.len() - i,
        {
            let ghost pre = class_views(node.classes@.subrange(0, i + 1));
            assert(pre.drop_last() =~= class_views(node.classes@.subrange(0, i as int)));
            assert(pre.last() == node.classes@[i as int]@);
            if !contains_string(&classes, &node.classes[i]) {
                classes.push(node.classes[i].clone());
                assert(class_views(classes@) =~= dedup(pre));
            }
            i = i + 1;
        }
        assert(node.classes@.subrange(0, i as int) =~= node.classes@);
        SelectorDescriptor { tag: node.tag.clone(), classes }
    }

    /// Whether element `m` is matched by `desc`.
    pub fn is_matched_by(&self, desc: &SelectorDescriptor, m: usize) -> (r: bool)
        requires
            m < self.len(),
        ensures
            r == self.matches(desc.tag_view(), desc.class_view(), m as int),
    {
        let node = &self.nodes[m];
        if node.is_text || node.tag != desc.tag {
            return false;
        }
        let mut k: usize = 0;
        while k < desc.classes.len()
            invariant
                node == self.nodes@[m as int],
                k <= desc.classes@.len(),
                forall|q: int|
                    0 <= q < k ==> self.classes_of(m as int).contains(
                        #[trigger] desc.class_view()[q],
                    ),
            decreases desc.classes.len() - k,
        {
            let mut found = false;
            let mut i: usize = 0;
            while i < node.classes.len()
                invariant
                    node == self.nodes@[m as int],
                    k < desc.classes@.len(),
                    i <= node.classes@.len(),
                    found ==> self.classes_of(m as int).contains(desc.class_view()[k as int]),
                    !found ==> forall|q: int|
                        0 <= q < i ==> self.classes_of(m as int)[q] != desc.class_view()[k as int],
                decreases node.classes.len() - i,
            {
                if node.classes[i] == desc.classes[k] {
                    assert(self.classes_of(m as int)[i as int] == desc.class_view()[k as int]);
                    found = true;
                }
                i = i + 1;
            }
            if !found {
                assert(!self.classes_of(m as int).contains(desc.class_view()[k as int]));
                return false;
            }
            k = k + 1;
        }
        true
    }

    /// The first element in document order that `desc` matches.
    pub fn query_first(&self, desc: &SelectorDescriptor) -> (r: Option<usize>)
        ensures
            match r {
                Some(m) => self.matches(desc.tag_view(), desc.class_view(), m as int) && forall|
                    q: int,
                | 0 <= q < m ==> !self.matches(desc.tag_view(), desc.class_view(), q),
                None => forall|q: int| !self.matches(desc.tag_view(), desc.class_view(), q),
            },
    {
        let mut i: usize = 0;
        while i < self.nodes.len()
            invariant
                i <= self.len(),
                forall|q: int| 0 <= q < i ==> !self.matches(desc.tag_view(), desc.class_view(), q),
            decreases self.nodes.len() - i,
        {
            if self.is_matched_by(desc, i) {
                return Some(i);
            }
            i = i + 1;
        }
        None
    }

    /// The trimmed text of the first element that `desc` matches; empty where
    /// none does.
    pub fn query_text(&self, desc: &SelectorDescriptor) -> (r: Vec<char>)
        requires
            self.wf(),
        ensures
            match self.first_match(desc.tag_view(), desc.class_view()) {
                Some(m) => r@ == self.text_of(m),
                None => r@.len() == 0,
            },
    {
        match self.query_first(desc) {
            Some(m) => {
                proof {
                    self.lemma_first_match(desc.tag_view(), desc.class_view(), m as int);
                }
                self.text_of_node(m)
            },
            None => {
                proof {
                    self.lemma_no_match(desc.tag_view(), desc.class_view());
                }
                Vec::new()
            },
        }
    }

    /// The first element in document order matched by a descriptor.
    pub open spec fn first_match(&self, tag: Seq<char>, classes: Seq<Seq<char>>) -> Option<int> {
        if exists|m: int| self.matches(tag, classes, m) {
            Some(
                choose|m: int|
                    self.matches(tag, classes, m) && forall|q: int|
                        0 <= q < m ==> !self.matches(tag, classes, q),
            )
        } else {
            None
        }
    }

    pub proof fn lemma_first_match(&self, tag: Seq<char>, classes: Seq<Seq<char>>, m: int)
        requires
            self.matches(tag, classes, m),
            forall|q: int| 0 <= q < m ==> !self.matches(tag, classes, q),
        ensures
            self.first_match(tag, classes) == Some(m),
    {
        let c = choose|x: int|
            self.matches(tag, classes, x) && forall|q: int|
                0 <= q < x ==> !self.matches(tag, classes, q);
        assert(self.matches(tag, classes, c));
        if c < m {
            assert(!self.matches(tag, classes, c));
        }
        if m < c {
            assert(!self.matches(tag, classes, m));
        }
    }

    pub proof fn lemma_no_match(&self, tag: Seq<char>, classes: Seq<Seq<char>>)
        requires
            forall|q: int| !self.matches(tag, classes, q),
        ensures
            self.first_match(tag, classes).is_none(),
    {
    }
}

} // verus!
