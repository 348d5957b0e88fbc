//! The library's own model of a concrete syntax tree: the nodes of the tree
//! in pre-order, each carrying its kind, its source text and its depth. A
//! node's subtree is the contiguous run of entries after it whose depth is
//! greater than its own, which makes subtree traversal, child enumeration and
//! kind capture plain index arithmetic.

use crate::strings::str_eq;
use vstd::prelude::*;

verus! {

/// One node of a concrete syntax tree: its kind name, the source text it
/// spans, and its depth below the root (the root has depth zero).
#[derive(Debug, Clone, PartialEq, Eq)]
pub struct CstNode {
    pub kind: String,
    pub text: String,
    pub depth: usize,
}

/// The mathematical value of a syntax tree node.
pub struct CstNodeView {
    pub kind: Seq<char>,
    pub text: Seq<char>,
    pub depth: int,
}

impl View for CstNode {
    type V = CstNodeView;

    open spec fn view(&self) -> CstNodeView {
        CstNodeView { kind: self.kind@, text: self.text@, depth: self.depth as int }
    }
}

/// A concrete syntax tree, as its nodes in pre-order.
#[derive(Debug, Clone, PartialEq, Eq)]
pub struct Cst {
    pub nodes: Vec<CstNode>,
}

impl View for Cst {
    type V = Seq<CstNodeView>;

    open spec fn view(&self) -> Seq<CstNodeView> {
        self.nodes@.map_values(|n: CstNode| n@)
    }
}

/// The first position at or after `j` whose depth does not exceed the depth
/// of node `i` — one past the end of `i`'s subtree once started at `i + 1`.
pub open spec fn spec_end_from(ns: Seq<CstNodeView>, i: int, j: int) -> int
    decreases ns.len() - j,
{
    if j < 0 || j >= ns.len() {
        ns.len() as int
    } else if ns[j].depth <= ns[i].depth {
        j
    } else {
        spec_end_from(ns, i, j + 1)
    }
}

/// One past the end of the subtree rooted at node `i`: the next position at
/// the same or a shallower depth, or the number of nodes.
pub open spec fn spec_end(ns: Seq<CstNodeView>, i: int) -> int {
    spec_end_from(ns, i, i + 1)
}

/// Basic bounds of a subtree's end.
pub proof fn lemma_end_bounds(ns: Seq<CstNodeView>, i: int)
    requires
        0 <= i < ns.len(),
    ensures
        i < spec_end(ns, i) <= ns.len(),
        forall|k: int| i < k < spec_end(ns, i) ==> ns[k].depth > ns[i].depth,
    decreases ns.len(),
{
    lemma_end_from_bounds(ns, i, i + 1);
}

proof fn lemma_end_from_bounds(ns: Seq<CstNodeView>, i: int, j: int)
    requires
        0 <= i < ns.len(),
        i < j <= ns.len(),
    ensures
        j <= spec_end_from(ns, i, j) <= ns.len(),
        forall|k: int| j <= k < spec_end_from(ns, i, j) ==> ns[k].depth > ns[i].depth,
    decreases ns.len() - j,
{
    if j < ns.len() && ns[j].depth > ns[i].depth {
        lemma_end_from_bounds(ns, i, j + 1);
    }
}

impl Cst {
    /// The number of nodes.
    pub fn len(&self) -> (r: usize)
        ensures
            r == self@.len(),
    {
        self.nodes.len()
    }

    /// One past the end of the subtree rooted at node `i`.
    pub fn subtree_end(&self, i: usize) -> (r: usize)
        requires
            i < self@.len(),
        ensures
            r == spec_end(self@, i as int),
            i < r <= self@.len(),
    {
        let ghost ns = self@;
        proof {
            lemma_end_bounds(ns, i as int);
        }
        let total = self.nodes.len();
        let d = self.nodes[i].depth;
        let mut j: usize = i + 1;
        while j < self.nodes.len()
            invariant
                ns == self@,
                ns.len() == self.nodes@.len(),
                forall|k: int| 0 <= k < ns.len() ==> ns[k] == self.nodes@[k]@,
                i < j <= ns.len(),
                i < ns.len(),
                d == ns[i as int].depth,
                spec_end(ns, i as int) == spec_end_from(ns, i as int, j as int),
            decreases self.nodes.len() - j,
        {
            if self.nodes[j].depth <= d {
                return j;
            }
            j = j + 1;
        }
        j
    }
}

/// The positions in `[lo, hi)` of the nodes of the given kind, ascending.
pub open spec fn spec_capture(ns: Seq<CstNodeView>, lo: int, hi: int, kind: Seq<char>) -> Seq<int>
    decreases hi - lo,
{
    if hi <= lo {
        Seq::empty()
    } else {
        spec_capture(ns, lo, hi - 1, kind) + (if ns[hi - 1].kind == kind {
            seq![hi - 1]
        } else {
            Seq::empty()
        })
    }
}

/// Capture the positions in `[lo, hi)` of the nodes of the given kind, in
/// document order.
pub fn capture(cst: &Cst, lo: usize, hi: usize, kind: &str) -> (r: Vec<usize>)
    requires
        hi <= cst@.len(),
    ensures
        r@.map_values(|u: usize| u as int) == spec_capture(cst@, lo as int, hi as int, kind@),
        forall|k: int| 0 <= k < r@.len() ==> lo <= #[trigger] r@[k] < hi,
{
    let ghost ns = cst@;
    let mut out: Vec<usize> = Vec::new();
    let mut j: usize = lo;
    proof {
        assert(out@.map_values(|u: usize| u as int) =~= Seq::<int>::empty());
    }
    if hi <= lo {
        return out;
    }
    while j < hi
        invariant
            lo <= j <= hi,
            hi <= ns.len(),
            ns == cst@,
            ns.len() == cst.nodes@.len(),
            forall|k: int| 0 <= k < ns.len() ==> ns[k] == cst.nodes@[k]@,
            out@.map_values(|u: usize| u as int) == spec_capture(ns, lo as int, j as int, kind@),
            forall|k: int| 0 <= k < out@.len() ==> lo <= #[trigger] out@[k] < j,
        decreases hi - j,
    {
        if str_eq(cst.nodes[j].kind.as_str(), kind) {
            out.push(j);
            proof {
                assert(out@.map_values(|u: usize| u as int) =~= spec_capture(
                    ns,
                    lo as int,
                    j as int,
                    kind@,
                ) + seq![j as int]);
            }
        } else {
            proof {
                assert(out@.map_values(|u: usize| u as int) =~= spec_capture(
                    ns,
                    lo as int,
                    j + 1 as int,
                    kind@,
                ));
            }
        }
        j = j + 1;
    }
    out
}

/// The positions of the children of node `i`: the nodes one level deeper
/// within `i`'s subtree, ascending.
pub open spec fn spec_children_from(ns: Seq<CstNodeView>, i: int, lo: int, hi: int) -> Seq<int>
    decreases hi - lo,
{
    if hi <= lo {
        Seq::empty()
    } else {
        spec_children_from(ns, i, lo, hi - 1) + (if ns[hi - 1].depth == ns[i].depth + 1 {
            seq![hi - 1]
        } else {
            Seq::empty()
        })
    }
}

/// The positions of the children of node `i`, in document order.
pub open spec fn spec_children(ns: Seq<CstNodeView>, i: int) -> Seq<int> {
    spec_children_from(ns, i, i + 1, spec_end(ns, i))
}

/// Enumerate the positions of the children of node `i`, in document order.
pub fn children(cst: &Cst, i: usize) -> (r: Vec<usize>)
    requires
        i < cst@.len(),
    ensures
        r@.map_values(|u: usize| u as int) == spec_children(cst@, i as int),
        forall|k: int| 0 <= k < r@.len() ==> i < #[trigger] r@[k] < cst@.len(),
{
    let ghost ns = cst@;
    let hi = cst.subtree_end(i);
    let d = cst.nodes[i].depth;
    let mut out: Vec<usize> = Vec::new();
    let mut j: usize = i + 1;
    proof {
        assert(out@.map_values(|u: usize| u as int) =~= Seq::<int>::empty());
    }
    while j < hi
        invariant
            i < j <= hi || (j == i + 1 && hi <= i + 1),
            hi == spec_end(ns, i as int),
            i < ns.len(),
            hi <= ns.len(),
            ns == cst@,
            ns.len() == cst.nodes@.len(),
            forall|k: int| 0 <= k < ns.len() ==> ns[k] == cst.nodes@[k]@,
            d == ns[i as int].depth,
            out@.map_values(|u: usize| u as int) == spec_children_from(
                ns,
                i as int,
                i + 1 as int,
                j as int,
            ),
            forall|k: int| 0 <= k < out@.len() ==> i < #[trigger] out@[k] < j,
        decreases hi - j,
    {
        if cst.nodes[j].depth == d + 1 {
            out.push(j);
            proof {
                assert(out@.map_values(|u: usize| u as int) =~= spec_children_from(
                    ns,
                    i as int,
                    i + 1 as int,
                    j as int,
                ) + seq![j as int]);
            }
        } else {
            proof {
                assert(out@.map_values(|u: usize| u as int) =~= spec_children_from(
                    ns,
                    i as int,
                    i + 1 as int,
                    j + 1 as int,
                ));
            }
        }
        j = j + 1;
    }
    proof {
        if hi <= i + 1 {
            assert(spec_children(ns, i as int) =~= out@.map_values(|u: usize| u as int));
        }
    }
    out
}

/// The first of the given positions whose node has the given kind, if any.
pub open spec fn spec_first_kind(ns: Seq<CstNodeView>, idxs: Seq<int>, kind: Seq<char>) -> Option<
    int,
>
    decreases idxs.len(),
{
    if idxs.len() == 0 {
        None
    } else {
        match spec_first_kind(ns, idxs.drop_last(), kind) {
            Some(v) => Some(v),
            None => if ns[idxs.last()].kind == kind {
                Some(idxs.last())
            } else {
                None
            },
        }
    }
}

proof fn lemma_first_kind_found(ns: Seq<CstNodeView>, idxs: Seq<int>, kind: Seq<char>, j: int)
    requires
        0 <= j <= idxs.len(),
        spec_first_kind(ns, idxs.subrange(0, j), kind) is Some,
    ensures
        spec_first_kind(ns, idxs, kind) == spec_first_kind(ns, idxs.subrange(0, j), kind),
    decreases idxs.len() - j,
{
    if j == idxs.len() {
        assert(idxs.subrange(0, j) =~= idxs);
    } else {
        assert(idxs.subrange(0, j + 1).drop_last() =~= idxs.subrange(0, j));
        lemma_first_kind_found(ns, idxs, kind, j + 1);
    }
}

/// Find the first of the given positions whose node has the given kind.
pub fn first_kind(cst: &Cst, idxs: &Vec<usize>, kind: &str) -> (r: Option<usize>)
    requires
        forall|k: int| 0 <= k < idxs@.len() ==> #[trigger] idxs@[k] < cst@.len(),
    ensures
        match r {
            Some(v) => v < cst@.len() && spec_first_kind(
                cst@,
                idxs@.map_values(|u: usize| u as int),
                kind@,
            ) == Some(v as int),
            None => spec_first_kind(cst@, idxs@.map_values(|u: usize| u as int), kind@) is None,
        },
{
    let ghost iv = idxs@.map_values(|u: usize| u as int);
    let mut k: usize = 0;
    while k < idxs.len()
        invariant
            k <= idxs.len(),
            iv == idxs@.map_values(|u: usize| u as int),
            iv.len() == idxs@.len(),
            forall|m: int| 0 <= m < idxs@.len() ==> #[trigger] idxs@[m] < cst@.len(),
            forall|m: int| 0 <= m < idxs@.len() ==> iv[m] == idxs@[m] as int,
            spec_first_kind(cst@, iv.subrange(0, k as int), kind@) is None,
        decreases idxs.len() - k,
    {
        proof {
            assert(iv.subrange(0, k + 1 as int).drop_last() =~= iv.subrange(0, k as int));
            assert(iv.subrange(0, k + 1 as int).last() == iv[k as int]);
        }
        let v = idxs[k];
        if str_eq(cst.nodes[v].kind.as_str(), kind) {
            proof {
                assert(spec_first_kind(cst@, iv.subrange(0, k + 1 as int), kind@) == Some(
                    v as int,
                ));
                lemma_first_kind_found(cst@, iv, kind@, k + 1);
            }
            return Some(v);
        }
        k = k + 1;
    }
    proof {
        assert(iv.subrange(0, idxs@.len() as int) =~= iv);
    }
    None
}


/// The names bound at the given positions, in order.
pub open spec fn spec_texts(ns: Seq<CstNodeView>, idxs: Seq<int>) -> Seq<Seq<char>> {
    idxs.map_values(|k: int| ns[k].text)
}

/// Copy the names bound at the given positions, in order.
pub fn texts_of(cst: &Cst, idxs: &Vec<usize>) -> (r: Vec<String>)
    requires
        forall|k: int| 0 <= k < idxs@.len() ==> #[trigger] idxs@[k] < cst@.len(),
    ensures
        r@.map_values(|s: String| s@) == spec_texts(cst@, idxs@.map_values(|u: usize| u as int)),
{
    let ghost iv = idxs@.map_values(|u: usize| u as int);
    let mut out: Vec<String> = Vec::new();
    let mut k: usize = 0;
    while k < idxs.len()
        invariant
            k <= idxs.len(),
            iv == idxs@.map_values(|u: usize| u as int),
            iv.len() == idxs@.len(),
            forall|m: int| 0 <= m < idxs@.len() ==> #[trigger] idxs@[m] < cst@.len(),
            forall|m: int| 0 <= m < idxs@.len() ==> iv[m] == idxs@[m] as int,
            out@.len() == k,
            forall|m: int| 0 <= m < k ==> #[trigger] out@[m]@ == cst@[iv[m]].text,
        decreases idxs.len() - k,
    {
        out.push(cst.nodes[idxs[k]].text.clone());
        k = k + 1;
    }
    proof {
        assert(out@.map_values(|s: String| s@) =~= spec_texts(cst@, iv));
    }
    out
}



/// The first slot of the given position list whose node has the given kind,
/// if any.
pub open spec fn spec_first_slot(ns: Seq<CstNodeView>, idxs: Seq<int>, kind: Seq<char>) -> Option<
    int,
>
    decreases idxs.len(),
{
    if idxs.len() == 0 {
        None
    } else {
        match spec_first_slot(ns, idxs.drop_last(), kind) {
            Some(v) => Some(v),
            None => if ns[idxs.last()].kind == kind {
                Some(idxs.len() - 1)
            } else {
                None
            },
        }
    }
}

proof fn lemma_first_slot_found(ns: Seq<CstNodeView>, idxs: Seq<int>, kind: Seq<char>, j: int)
    requires
        0 <= j <= idxs.len(),
        spec_first_slot(ns, idxs.subrange(0, j), kind) is Some,
    ensures
        spec_first_slot(ns, idxs, kind) == spec_first_slot(ns, idxs.subrange(0, j), kind),
    decreases idxs.len() - j,
{
    if j == idxs.len() {
        assert(idxs.subrange(0, j) =~= idxs);
    } else {
        assert(idxs.subrange(0, j + 1).drop_last() =~= idxs.subrange(0, j));
        lemma_first_slot_found(ns, idxs, kind, j + 1);
    }
}

/// Find the first slot of the given position list whose node has the given
/// kind.
pub fn first_slot(cst: &Cst, idxs: &Vec<usize>, kind: &str) -> (r: Option<usize>)
    requires
        forall|k: int| 0 <= k < idxs@.len() ==> #[trigger] idxs@[k] < cst@.len(),
    ensures
        match r {
            Some(v) => v < idxs@.len() && spec_first_slot(
                cst@,
                idxs@.map_values(|u: usize| u as int),
                kind@,
            ) == Some(v as int),
            None => spec_first_slot(cst@, idxs@.map_values(|u: usize| u as int), kind@) is None,
        },
{
    let ghost iv = idxs@.map_values(|u: usize| u as int);
    let mut k: usize = 0;
    while k < idxs.len()
        invariant
            k <= idxs.len(),
            iv == idxs@.map_values(|u: usize| u as int),
            iv.len() == idxs@.len(),
            forall|m: int| 0 <= m < idxs@.len() ==> #[trigger] idxs@[m] < cst@.len(),
            forall|m: int| 0 <= m < idxs@.len() ==> iv[m] == idxs@[m] as int,
            spec_first_slot(cst@, iv.subrange(0, k as int), kind@) is None,
        decreases idxs.len() - k,
    {
        proof {
            assert(iv.subrange(0, k + 1 as int).drop_last() =~= iv.subrange(0, k as int));
            assert(iv.subrange(0, k + 1 as int).last() == iv[k as int]);
        }
        if str_eq(cst.nodes[idxs[k]].kind.as_str(), kind) {
            proof {
                assert(spec_first_slot(cst@, iv.subrange(0, k + 1 as int), kind@) == Some(
                    k as int,
                ));
                lemma_first_slot_found(cst@, iv, kind@, k + 1);
            }
            return Some(k);
        }
        k = k + 1;
    }
    proof {
        assert(iv.subrange(0, idxs@.len() as int) =~= iv);
    }
    None
}

} // verus!
