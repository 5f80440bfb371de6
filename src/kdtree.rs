use vstd::prelude::*;

use crate::geometry::Axis;

verus! {

/// Depth at which a node becomes a leaf whatever it holds.
pub const MAX_DEPTH: usize = 20;

/// A node holding at most this many triangles becomes a leaf.
pub const NUM_POLYGONS: usize = 1;

/// A kd-tree over a triangle buffer. Leaves hold indices into that buffer,
/// never the triangles themselves. `B` is what a node knows of its region
/// (a bounding box) and `S` where a branch splits it.
pub enum KDNode<S, B> {
    Branch(Axis, S, B, Box<KDNode<S, B>>, Box<KDNode<S, B>>),
    Leaf(B, Vec<usize>),
}

/// `classify` once put triangle `t` on neither side of a split.
pub open spec fn rejected<T, S, C: Fn(&T, Axis, &S) -> (bool, bool)>(classify: C, t: T) -> bool {
    exists|a: Axis, s: S| #[trigger] classify.ensures((&t, a, &s), (false, false))
}

impl<S, B> KDNode<S, B> {
    /// Number of branch levels above the deepest leaf.
    pub open spec fn height(self) -> nat
        decreases self,
    {
        match self {
            KDNode::Branch(_, _, _, l, r) => {
                let hl = l.height();
                let hr = r.height();
                1 + if hl >= hr {
                    hl
                } else {
                    hr
                }
            },
            KDNode::Leaf(_, _) => 0,
        }
    }

    /// Some leaf of the tree lists triangle `i`.
    pub open spec fn holds(self, i: usize) -> bool
        decreases self,
    {
        match self {
            KDNode::Branch(_, _, _, l, r) => l.holds(i) || r.holds(i),
            KDNode::Leaf(_, items) => items@.contains(i),
        }
    }

    /// The root splits along `a`, and each level below along the next axis.
    pub open spec fn axes_from(self, a: Axis) -> bool
        decreases self,
    {
        match self {
            KDNode::Branch(x, _, _, l, r) => x == a && l.axes_from(a.spec_next()) && r.axes_from(
                a.spec_next(),
            ),
            KDNode::Leaf(_, _) => true,
        }
    }

    /// `r` is a result that the front-to-back walk can give, where `hits` tests
    /// a region against the ray, `side` tells for a split whether the ray's
    /// origin lies below the split value and whether its direction points
    /// below it, and `nearest` picks the closest hit among a leaf's triangles.
    /// A region the ray misses gives nothing. Where origin and direction agree
    /// only the child on that side is searched; otherwise the child holding the
    /// origin first, and the other one only where the first found nothing.
    pub open spec fn traversal<R, T, D, H, O, L>(
        self,
        ray: R,
        ts: Vec<T>,
        hits: H,
        side: O,
        nearest: L,
        r: Option<(usize, D)>,
    ) -> bool where
        H: Fn(&B, &R) -> bool,
        O: Fn(Axis, &S, &R) -> (bool, bool),
        L: Fn(&Vec<usize>, &Vec<T>, &R) -> Option<(usize, D)>,

        decreases self,
    {
        match self {
            KDNode::Leaf(b, items) => (hits.ensures((&b, &ray), false) && r is None) || (
            hits.ensures((&b, &ray), true) && nearest.ensures((&items, &ts, &ray), r)),
            KDNode::Branch(a, s, b, left, right) => {
                let go_left = |x: Option<(usize, D)>| left.traversal(ray, ts, hits, side, nearest, x);
                let go_right = |x: Option<(usize, D)>|
                    right.traversal(ray, ts, hits, side, nearest, x);
                (hits.ensures((&b, &ray), false) && r is None) || (hits.ensures((&b, &ray), true) && (
                (side.ensures((a, &s, &ray), (true, true)) && go_left(r)) || (side.ensures(
                    (a, &s, &ray),
                    (false, false),
                ) && go_right(r)) || (side.ensures((a, &s, &ray), (true, false)) && ((r is Some
                    && go_left(r)) || (go_left(None) && go_right(r)))) || (side.ensures(
                    (a, &s, &ray),
                    (false, true),
                ) && ((r is Some && go_right(r)) || (go_right(None) && go_left(r))))))
            },
        }
    }

    /// The nearest hit of a ray, found by walking the tree front to back
    /// (see `traversal`).
    pub fn intersect<R, T, D, H, O, L>(
        &self,
        ray: &R,
        ts: &Vec<T>,
        hits: &H,
        side: &O,
        nearest: &L,
    ) -> (r: Option<(usize, D)>) where
        H: Fn(&B, &R) -> bool,
        O: Fn(Axis, &S, &R) -> (bool, bool),
        L: Fn(&Vec<usize>, &Vec<T>, &R) -> Option<(usize, D)>,

        requires
            forall|b: &B| hits.requires((b, ray)),
            forall|a: Axis, s: &S| side.requires((a, s, ray)),
            forall|v: &Vec<usize>| nearest.requires((v, ts, ray)),
        ensures
            self.traversal(*ray, *ts, *hits, *side, *nearest, r),
        decreases self,
    {
        if !hits(self.aabb(), ray) {
            return None;
        }
        match self {
            KDNode::Branch(a, s, _, left, right) => {
                let (below, toward) = side(*a, s, ray);
                if below && toward {
                    left.intersect(ray, ts, hits, side, nearest)
                } else if !below && !toward {
                    right.intersect(ray, ts, hits, side, nearest)
                } else if below {
                    let res = left.intersect(ray, ts, hits, side, nearest);
                    if res.is_none() {
                        right.intersect(ray, ts, hits, side, nearest)
                    } else {
                        res
                    }
                } else {
                    let res = right.intersect(ray, ts, hits, side, nearest);
                    if res.is_none() {
                        left.intersect(ray, ts, hits, side, nearest)
                    } else {
                        res
                    }
                }
            },
            KDNode::Leaf(_, items) => nearest(items, ts, ray),
        }
    }

    pub open spec fn spec_bounds(self) -> B {
        match self {
            KDNode::Branch(_, _, b, _, _) => b,
            KDNode::Leaf(b, _) => b,
        }
    }

    /// The region of this node.
    pub fn aabb(&self) -> (r: &B)
        ensures
            *r == self.spec_bounds(),
    {
        match self {
            KDNode::Branch(_, _, b, _, _) => b,
            KDNode::Leaf(b, _) => b,
        }
    }
}

/// `nearest` answers, if at all, with one of the triangles it was given.
pub open spec fn picks_listed<R, T, D, L>(nearest: L) -> bool where
    L: Fn(&Vec<usize>, &Vec<T>, &R) -> Option<(usize, D)>,
 {
    forall|v: &Vec<usize>, ts: &Vec<T>, ray: &R, i: usize, d: D|
        #[trigger] nearest.ensures((v, ts, ray), Some((i, d))) ==> v@.contains(i)
}

/// The walk reports only triangles that the tree holds, wherever `nearest`
/// answers only with triangles of the leaf it searches.
pub proof fn lemma_found_is_held<S, B, R, T, D, H, O, L>(
    node: KDNode<S, B>,
    ray: R,
    ts: Vec<T>,
    hits: H,
    side: O,
    nearest: L,
    r: Option<(usize, D)>,
) where
    H: Fn(&B, &R) -> bool,
    O: Fn(Axis, &S, &R) -> (bool, bool),
    L: Fn(&Vec<usize>, &Vec<T>, &R) -> Option<(usize, D)>,

    requires
        picks_listed::<R, T, D, L>(nearest),
        node.traversal(ray, ts, hits, side, nearest, r),
    ensures
        r matches Some((i, _)) ==> node.holds(i),
    decreases node,
{
    match node {
        KDNode::Leaf(b, items) => {
            if let Some((i, d)) = r {
                if hits.ensures((&b, &ray), true) && nearest.ensures((&items, &ts, &ray), r) {
                    assert(nearest.ensures((&items, &ts, &ray), Some((i, d))));
                }
            }
        },
        KDNode::Branch(_, _, _, left, right) => {
            if r is Some {
                if left.traversal(ray, ts, hits, side, nearest, r) {
                    lemma_found_is_held(*left, ray, ts, hits, side, nearest, r);
                }
                if right.traversal(ray, ts, hits, side, nearest, r) {
                    lemma_found_is_held(*right, ray, ts, hits, side, nearest, r);
                }
            }
        },
    }
}

/// The items among the first `n` of `items` whose flag puts them on the
/// left (`left`) or on the right side of a split, in their order.
pub open spec fn picked(items: Seq<usize>, flags: Seq<(bool, bool)>, n: int, left: bool) -> Seq<
    usize,
>
    decreases n,
{
    if n <= 0 {
        seq![]
    } else {
        let rest = picked(items, flags, n - 1, left);
        let f = flags[n - 1];
        if (left && f.0) || (!left && f.1) {
            rest.push(items[n - 1])
        } else {
            rest
        }
    }
}

/// `flags` holds, for each of `items`, an answer that `classify` can give for
/// its triangle of `g` against the split value `at` along `axis`.
pub open spec fn classified<T, S, C: Fn(&T, Axis, &S) -> (bool, bool)>(
    g: Seq<T>,
    items: Seq<usize>,
    axis: Axis,
    at: S,
    classify: C,
    flags: Seq<(bool, bool)>,
) -> bool {
    &&& flags.len() == items.len()
    &&& forall|k: int|
        0 <= k < items.len() ==> #[trigger] classify.ensures((&g[items[k] as int], axis, &at), flags[k])
}

/// The indices `0..n` in order.
pub open spec fn all_indices(n: nat) -> Seq<usize> {
    Seq::new(n, |j: int| j as usize)
}

/// `r` is a tree that the construction gives for the triangles `items` of
/// `g`, in the region `bounds`, splitting along `axis` at depth `depth`. At
/// `MAX_DEPTH`, or with at most `NUM_POLYGONS` triangles, the node is a leaf
/// listing them. Otherwise `split` halves the region and gives the split
/// value, and `classify` flags each triangle: if every triangle goes to both
/// sides the node is a leaf listing them; else it is a branch along `axis` at
/// that value, over `bounds`, whose children are built in the same way, one
/// level deeper along the next axis, from the triangles flagged left and
/// right, in order, in the two halves.
pub open spec fn built<T, S, B, P, C>(
    g: Seq<T>,
    items: Seq<usize>,
    bounds: B,
    axis: Axis,
    depth: nat,
    split: P,
    classify: C,
    r: KDNode<S, B>,
) -> bool where
    P: Fn(&B, Axis) -> (B, B, S),
    C: Fn(&T, Axis, &S) -> (bool, bool),

    decreases MAX_DEPTH - depth,
{
    if depth >= MAX_DEPTH || items.len() <= NUM_POLYGONS {
        r matches KDNode::Leaf(b, v) && b == bounds && v@ == items
    } else {
        exists|sp: (B, B, S), flags: Seq<(bool, bool)>|
            #[trigger] split.ensures((&bounds, axis), sp) && #[trigger] classified(
                g,
                items,
                axis,
                sp.2,
                classify,
                flags,
            ) && {
                let left = picked(items, flags, items.len() as int, true);
                let right = picked(items, flags, items.len() as int, false);
                if left.len() == items.len() && right.len() == items.len() {
                    r matches KDNode::Leaf(b, v) && b == bounds && v@ == items
                } else {
                    r matches KDNode::Branch(a, s, b, l, rt) && a == axis && s == sp.2 && b == bounds
                        && built(g, left, sp.0, axis.spec_next(), depth + 1, split, classify, *l)
                        && built(g, right, sp.1, axis.spec_next(), depth + 1, split, classify, *rt)
                }
            }
    }
}

proof fn lemma_picked_prefix(items: Seq<usize>, f1: Seq<(bool, bool)>, f2: Seq<(bool, bool)>, n: int, left: bool)
    requires
        n <= f1.len(),
        n <= f2.len(),
        forall|j: int| 0 <= j < n ==> f1[j] == f2[j],
    ensures
        picked(items, f1, n, left) == picked(items, f2, n, left),
    decreases n,
{
    if n > 0 {
        lemma_picked_prefix(items, f1, f2, n - 1, left);
    }
}

/// Builds the tree over the triangles of `g`, whose common region is
/// `bounds`. `split` halves a region along an axis and gives the split value;
/// `classify` says whether a triangle has a vertex at or left of, and one at or
/// right of, a split value along an axis. A triangle on both sides goes to both
/// children. A node becomes a leaf at `MAX_DEPTH`, with at most `NUM_POLYGONS`
/// triangles, or where both children would get all of its triangles.
pub fn build_kdtree<T, S, B, P, C>(g: &Vec<T>, bounds: B, split: &P, classify: &C) -> (r: KDNode<
    S,
    B,
>) where
    P: Fn(&B, Axis) -> (B, B, S),
    C: Fn(&T, Axis, &S) -> (bool, bool),

    requires
        forall|b: &B, a: Axis| split.requires((b, a)),
        forall|t: &T, a: Axis, s: &S| classify.requires((t, a, s)),
    ensures
        r.height() <= MAX_DEPTH,
        r.axes_from(Axis::X),
        forall|i: usize| r.holds(i) ==> i < g.len(),
        forall|i: usize| i < g.len() && !r.holds(i) ==> rejected(*classify, g@[i as int]),
        r.spec_bounds() == bounds,
        built(g@, all_indices(g.len() as nat), bounds, Axis::X, 0, *split, *classify, r),
{
    let count = g.len();
    let mut items: Vec<usize> = Vec::new();
    let mut k: usize = 0;
    while k < count
        invariant
            k <= count,
            items@ == Seq::new(k as nat, |j: int| j as usize),
        decreases count - k,
    {
        items.push(k);
        k = k + 1;
    }
    assert forall|i: usize| i < count implies items@.contains(i) by {
        assert(items@[i as int] == i);
    }
    assert forall|i: usize| items@.contains(i) implies i < count by {
        let j = items@.index_of(i);
        assert(items@[j] == j as usize);
    }
    let ghost all = items@;
    assert(all =~= all_indices(g.len() as nat));
    let r = build_node(g, items, bounds, Axis::X, 0, split, classify);
    assert forall|i: usize| r.holds(i) implies i < count by {
        assert(all.contains(i));
    }
    assert forall|i: usize| i < count && !r.holds(i) implies rejected(*classify, g@[i as int]) by {
        assert(all.contains(i));
    }
    r
}

fn build_node<T, S, B, P, C>(
    g: &Vec<T>,
    items: Vec<usize>,
    bounds: B,
    axis: Axis,
    depth: usize,
    split: &P,
    classify: &C,
) -> (r: KDNode<S, B>) where
    P: Fn(&B, Axis) -> (B, B, S),
    C: Fn(&T, Axis, &S) -> (bool, bool),

    requires
        depth <= MAX_DEPTH,
        forall|i: usize| items@.contains(i) ==> i < g.len(),
        forall|b: &B, a: Axis| split.requires((b, a)),
        forall|t: &T, a: Axis, s: &S| classify.requires((t, a, s)),
    ensures
        r.height() + depth <= MAX_DEPTH,
        r.axes_from(axis),
        forall|i: usize| r.holds(i) ==> items@.contains(i),
        forall|i: usize| items@.contains(i) && !r.holds(i) ==> rejected(*classify, g@[i as int]),
        r.spec_bounds() == bounds,
        built(g@, items@, bounds, axis, depth as nat, *split, *classify, r),
    decreases MAX_DEPTH - depth,
{
    if depth >= MAX_DEPTH || items.len() <= NUM_POLYGONS {
        return KDNode::Leaf(bounds, items);
    }
    let (lb, rb, at) = split(&bounds, axis);
    let ghost sp = (lb, rb, at);
    assert(split.ensures((&bounds, axis), sp));
    let ghost mut flags: Seq<(bool, bool)> = seq![];
    let mut left: Vec<usize> = Vec::new();
    let mut right: Vec<usize> = Vec::new();
    let mut k: usize = 0;
    while k < items.len()
        invariant
            k <= items.len(),
            left.len() <= k,
            right.len() <= k,
            forall|i: usize| items@.contains(i) ==> i < g.len(),
            forall|t: &T, a: Axis, s: &S| classify.requires((t, a, s)),
            forall|i: usize| left@.contains(i) ==> items@.contains(i),
            forall|i: usize| right@.contains(i) ==> items@.contains(i),
            forall|j: int|
                0 <= j < k ==> left@.contains(#[trigger] items@[j]) || right@.contains(items@[j])
                    || rejected(*classify, g@[items@[j] as int]),
            flags.len() == k,
            forall|j: int|
                0 <= j < k ==> #[trigger] classify.ensures(
                    (&g@[items@[j] as int], axis, &at),
                    flags[j],
                ),
            left@ == picked(items@, flags, k as int, true),
            right@ == picked(items@, flags, k as int, false),
        decreases items.len() - k,
    {
        let i = items[k];
        proof {
            assert(items@.contains(items@[k as int]));
        }
        let (l, r) = classify(&g[i], axis, &at);
        let ghost left0 = left@;
        let ghost right0 = right@;
        let ghost flags0 = flags;
        proof {
            flags = flags.push((l, r));
            lemma_picked_prefix(items@, flags0, flags, k as int, true);
            lemma_picked_prefix(items@, flags0, flags, k as int, false);
        }
        if l {
            left.push(i);
            assert(left@[left@.len() - 1] == i);
        }
        if r {
            right.push(i);
            assert(right@[right@.len() - 1] == i);
        }
        assert forall|x: usize| left0.contains(x) implies left@.contains(x) by {
            assert(left@[left0.index_of(x)] == x);
        }
        assert forall|x: usize| right0.contains(x) implies right@.contains(x) by {
            assert(right@[right0.index_of(x)] == x);
        }
        assert(left@ =~= picked(items@, flags, k + 1, true));
        assert(right@ =~= picked(items@, flags, k + 1, false));
        if !l && !r {
            assert(classify.ensures((&g@[i as int], axis, &at), (false, false)));
            assert(rejected(*classify, g@[i as int]));
        }
        k = k + 1;
    }
    assert(classified(g@, items@, axis, at, *classify, flags));
    if left.len() == right.len() && left.len() == items.len() {
        return KDNode::Leaf(bounds, items);
    }
    let next = axis.next();
    let lnode = build_node(g, left, lb, next, depth + 1, split, classify);
    let rnode = build_node(g, right, rb, next, depth + 1, split, classify);
    proof {
        assert forall|i: usize| items@.contains(i) && !lnode.holds(i) && !rnode.holds(i) implies rejected(
            *classify,
            g@[i as int],
        ) by {
            let j = items@.index_of(i);
            assert(items@[j] == i);
        }
    }
    KDNode::Branch(axis, at, bounds, Box::new(lnode), Box::new(rnode))
}

} // verus!
