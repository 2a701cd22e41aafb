//! Saved pane layouts and the order in which a pane grid is rebuilt from one.
//!
//! A pane grid can only be grown by splitting an existing pane. So a saved layout is rebuilt by
//! opening its leftmost pane, and then, for every split node, splitting the pane of the leftmost
//! leaf of its left subtree to open the leftmost leaf of its right subtree, before rebuilding
//! both subtrees the same way. Leaves are numbered in left-to-right order.
use vstd::prelude::*;

verus! {

/// A saved pane layout: leaves of type `L`, split nodes carrying their split parameters `S`
/// (axis and ratio).
pub enum PaneTree<L, S> {
    Split { split: S, a: Box<PaneTree<L, S>>, b: Box<PaneTree<L, S>> },
    Leaf(L),
}

/// The leaves in left-to-right order.
pub open spec fn leaves<L, S>(t: PaneTree<L, S>) -> Seq<L>
    decreases t,
{
    match t {
        PaneTree::Leaf(l) => seq![l],
        PaneTree::Split { a, b, .. } => leaves(*a) + leaves(*b),
    }
}

/// The leftmost leaf.
pub open spec fn leftmost_spec<L, S>(t: PaneTree<L, S>) -> L
    decreases t,
{
    match t {
        PaneTree::Leaf(l) => l,
        PaneTree::Split { a, .. } => leftmost_spec(*a),
    }
}

/// One split of the rebuild: split the open pane of leaf `target` with `split` to open leaf
/// `new_leaf`.
#[derive(Clone, Copy, Debug, PartialEq, Eq)]
pub struct SplitStep<S> {
    pub split: S,
    pub target: usize,
    pub new_leaf: usize,
}

/// The splits that rebuild `t` when its leftmost leaf is leaf number `base` and already open.
pub open spec fn plan_spec<L, S>(t: PaneTree<L, S>, base: nat) -> Seq<SplitStep<S>>
    decreases t,
{
    match t {
        PaneTree::Leaf(_) => seq![],
        PaneTree::Split { split, a, b } => {
            let nb = base + leaves(*a).len();
            seq![SplitStep { split, target: base as usize, new_leaf: nb as usize }] + plan_spec(
                *a,
                base,
            ) + plan_spec(*b, nb)
        },
    }
}

/// Whether `plan` rebuilds leaves `base .. base + n` from an open leaf `base`: every step splits
/// a pane that is open by then and opens a new leaf of the range, each leaf once, and every leaf
/// but the first is opened.
pub open spec fn rebuilds(plan: Seq<SplitStep<usize>>, base: nat, n: nat) -> bool {
    &&& plan.len() + 1 == n
    &&& forall|k: int|
        0 <= k < plan.len() ==> base < #[trigger] plan[k].new_leaf < base + n
    &&& forall|k: int, j: int|
        0 <= j < k < plan.len() ==> #[trigger] plan[j].new_leaf != #[trigger] plan[k].new_leaf
    &&& forall|k: int|
        0 <= k < plan.len() ==> (#[trigger] plan[k].target == base || exists|j: int|
            0 <= j < k && plan[j].new_leaf == plan[k].target)
}

/// The plan with the split parameters dropped.
pub open spec fn erase<S>(plan: Seq<SplitStep<S>>) -> Seq<SplitStep<usize>> {
    plan.map_values(|s: SplitStep<S>| SplitStep { split: 0usize, target: s.target, new_leaf: s.new_leaf })
}

proof fn lemma_leaves_nonempty<L, S>(t: PaneTree<L, S>)
    ensures
        leaves(t).len() >= 1,
    decreases t,
{
    match t {
        PaneTree::Leaf(_) => {},
        PaneTree::Split { a, b, .. } => {
            lemma_leaves_nonempty(*a);
            lemma_leaves_nonempty(*b);
        },
    }
}

/// Rebuilding by this plan opens every pane of the layout exactly once, and only ever splits a
/// pane that is already open.
pub proof fn lemma_plan_rebuilds<L, S>(t: PaneTree<L, S>, base: nat)
    requires
        base + leaves(t).len() <= usize::MAX,
    ensures
        rebuilds(erase(plan_spec(t, base)), base, leaves(t).len()),
    decreases t,
{
    lemma_leaves_nonempty(t);
    match t {
        PaneTree::Leaf(_) => {
            assert(erase(plan_spec(t, base)) =~= seq![]);
        },
        PaneTree::Split { split, a, b } => {
            lemma_leaves_nonempty(*a);
            lemma_leaves_nonempty(*b);
            let na = leaves(*a).len();
            let nb = base + na;
            lemma_plan_rebuilds(*a, base);
            lemma_plan_rebuilds(*b, nb);
            let pa = erase(plan_spec(*a, base));
            let pb = erase(plan_spec(*b, nb));
            let first = SplitStep { split: 0usize, target: base as usize, new_leaf: nb as usize };
            let p = erase(plan_spec(t, base));
            assert(p =~= seq![first] + pa + pb);
            let n = leaves(t).len();
            assert(n == na + leaves(*b).len());
            assert forall|k: int| 0 <= k < p.len() implies base < #[trigger] p[k].new_leaf < base + n by {
                if k >= 1 && k < 1 + pa.len() {
                    assert(p[k] == pa[k - 1]);
                } else if k >= 1 + pa.len() {
                    assert(p[k] == pb[k - 1 - pa.len()]);
                }
            }
            assert forall|k: int, j: int|
                0 <= j < k < p.len() implies #[trigger] p[j].new_leaf != #[trigger] p[k].new_leaf by {
                if k < 1 + pa.len() {
                    assert(p[k] == pa[k - 1]);
                    if j >= 1 {
                        assert(p[j] == pa[j - 1]);
                    }
                } else {
                    assert(p[k] == pb[k - 1 - pa.len()]);
                    if j >= 1 + pa.len() {
                        assert(p[j] == pb[j - 1 - pa.len()]);
                    } else if j >= 1 {
                        assert(p[j] == pa[j - 1]);
                    }
                }
            }
            assert forall|k: int| 0 <= k < p.len() implies (#[trigger] p[k].target == base || exists|j: int|
                0 <= j < k && p[j].new_leaf == p[k].target) by {
                if k >= 1 && k < 1 + pa.len() {
                    assert(p[k] == pa[k - 1]);
                    if pa[k - 1].target != base {
                        let j0 = choose|j: int| 0 <= j < k - 1 && pa[j].new_leaf == pa[k - 1].target;
                        assert(p[j0 + 1] == pa[j0]);
                    }
                } else if k >= 1 + pa.len() {
                    let kb = k - 1 - pa.len();
                    assert(p[k] == pb[kb]);
                    if pb[kb].target == nb {
                        assert(p[0].new_leaf == nb);
                    } else {
                        let j0 = choose|j: int| 0 <= j < kb && pb[j].new_leaf == pb[kb].target;
                        assert(p[j0 + 1 + pa.len()] == pb[j0]);
                    }
                }
            }
        },
    }
}

/// The number of leaves.
pub open spec fn leaf_count<L, S>(t: PaneTree<L, S>) -> nat {
    leaves(t).len()
}

impl<L, S> PaneTree<L, S> {
    /// The leftmost leaf: the pane that the rebuild opens first.
    pub fn leftmost_leaf(&self) -> (r: &L)
        ensures
            *r == leftmost_spec(*self),
            *r == leaves(*self)[0],
        decreases self,
    {
        match self {
            PaneTree::Leaf(pane) => pane,
            PaneTree::Split { a, b, .. } => {
                proof {
                    lemma_leaves_nonempty(**a);
                    lemma_leaves_nonempty(**b);
                }
                a.leftmost_leaf()
            },
        }
    }

    /// The number of leaves.
    pub fn leaf_count(&self) -> (r: usize)
        requires
            leaf_count(*self) <= usize::MAX,
        ensures
            r == leaf_count(*self),
        decreases self,
    {
        match self {
            PaneTree::Leaf(_) => 1,
            PaneTree::Split { a, b, .. } => {
                proof {
                    lemma_leaves_nonempty(**a);
                    lemma_leaves_nonempty(**b);
                }
                a.leaf_count() + b.leaf_count()
            },
        }
    }
}

impl<L, S: Copy> PaneTree<L, S> {
    fn plan_into(&self, base: usize, out: &mut Vec<SplitStep<S>>)
        requires
            base + leaf_count(*self) <= usize::MAX,
        ensures
            final(out)@ == old(out)@ + plan_spec(*self, base as nat),
        decreases self,
    {
        match self {
            PaneTree::Leaf(_) => {
                assert(out@ =~= out@ + plan_spec(*self, base as nat));
            },
            PaneTree::Split { split, a, b } => {
                proof {
                    lemma_leaves_nonempty(**a);
                    lemma_leaves_nonempty(**b);
                }
                let nb = base + a.leaf_count();
                let ghost start = out@;
                out.push(SplitStep { split: *split, target: base, new_leaf: nb });
                a.plan_into(base, out);
                b.plan_into(nb, out);
                assert(out@ =~= start + plan_spec(*self, base as nat));
            },
        }
    }

    /// The splits that rebuild this layout, in order, once its leftmost leaf (leaf 0) is open.
    pub fn rebuild_plan(&self) -> (r: Vec<SplitStep<S>>)
        requires
            leaf_count(*self) <= usize::MAX,
        ensures
            r@ == plan_spec(*self, 0),
            rebuilds(erase(r@), 0, leaf_count(*self)),
    {
        let mut out: Vec<SplitStep<S>> = Vec::new();
        self.plan_into(0, &mut out);
        proof {
            assert(out@ =~= plan_spec(*self, 0));
            lemma_plan_rebuilds(*self, 0);
        }
        out
    }
}

} // verus!
