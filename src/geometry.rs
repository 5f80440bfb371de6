use vstd::prelude::*;

verus! {

/// One of the three coordinate axes. A kd-tree splits along them in turn.
#[derive(Clone, Copy, Debug, PartialEq, Eq, Structural)]
pub enum Axis {
    X,
    Y,
    Z,
}

impl Axis {
    /// The axis that follows this one in the cycle X, Y, Z, X, ...
    pub open spec fn spec_next(self) -> Axis {
        match self {
            Axis::X => Axis::Y,
            Axis::Y => Axis::Z,
            Axis::Z => Axis::X,
        }
    }

    /// Position of the axis among X, Y, Z (0, 1 or 2).
    pub open spec fn ordinal(self) -> nat {
        match self {
            Axis::X => 0,
            Axis::Y => 1,
            Axis::Z => 2,
        }
    }

    pub fn next(self) -> (r: Axis)
        ensures
            r == self.spec_next(),
            r.ordinal() == (self.ordinal() + 1) % 3,
    {
        match self {
            Axis::X => Axis::Y,
            Axis::Y => Axis::Z,
            Axis::Z => Axis::X,
        }
    }
}

/// The indices of the three vertices of the triangle whose first vertex is
/// `start` in a vertex buffer that lists each triangle's vertices in turn.
pub fn indices(start: u32) -> (r: [u32; 3])
    requires
        start + 2 <= u32::MAX,
    ensures
        r@ == seq![start, (start + 1) as u32, (start + 2) as u32],
{
    [start, start + 1, start + 2]
}

/// The triangles of the thin box drawn along a ray, as corners: `0..4` lie
/// around the start of the ray and `4..8` around its end, each four in the
/// order (+y, +z), (+y, -z), (-y, +z), (-y, -z) from the axis.
pub open spec fn tube_spec() -> Seq<(usize, usize, usize)> {
    seq![
        (2usize, 1usize, 0usize),
        (3, 1, 2),
        (4, 5, 6),
        (6, 5, 7),
        (5, 4, 0),
        (1, 5, 0),
        (2, 6, 7),
        (2, 7, 3),
        (2, 4, 6),
        (2, 0, 4),
        (7, 5, 3),
        (5, 1, 3),
    ]
}

/// The triangles of the thin box drawn along a ray (see `tube_spec`).
pub fn tube_faces() -> (r: [(usize, usize, usize); 12])
    ensures
        r@ == tube_spec(),
{
    let r = [
        (2, 1, 0),
        (3, 1, 2),
        (4, 5, 6),
        (6, 5, 7),
        (5, 4, 0),
        (1, 5, 0),
        (2, 6, 7),
        (2, 7, 3),
        (2, 4, 6),
        (2, 0, 4),
        (7, 5, 3),
        (5, 1, 3),
    ];
    assert(r@ =~= tube_spec());
    r
}

/// Triangle `f` runs from corner `a` to corner `b` along one of its edges.
pub open spec fn has_edge(f: (usize, usize, usize), a: usize, b: usize) -> bool {
    (f.0 == a && f.1 == b) || (f.1 == a && f.2 == b) || (f.2 == a && f.0 == b)
}

/// The box drawn along a ray is closed and consistently wound: each edge of
/// one of its triangles is run the other way by another of them, and no two
/// run an edge the same way, so every edge belongs to exactly two triangles.
pub proof fn lemma_tube_closed()
    ensures
        forall|k: int, a: usize, b: usize|
            0 <= k < 12 && #[trigger] has_edge(tube_spec()[k], a, b) ==> exists|k2: int|
                0 <= k2 < 12 && #[trigger] has_edge(tube_spec()[k2], b, a),
        forall|k1: int, k2: int, a: usize, b: usize|
            0 <= k1 < 12 && 0 <= k2 < 12 && #[trigger] has_edge(tube_spec()[k1], a, b)
                && #[trigger] has_edge(tube_spec()[k2], a, b) ==> k1 == k2,
{
    let t = tube_spec();
    assert(t.len() == 12);
    assert forall|k: int, a: usize, b: usize|
        0 <= k < 12 && #[trigger] has_edge(t[k], a, b) implies exists|k2: int|
            0 <= k2 < 12 && #[trigger] has_edge(t[k2], b, a) by {
        if k == 0 {
            if has_edge(t[1], b, a) {} else if has_edge(t[5], b, a) {} else { assert(has_edge(t[9], b, a)); }
        } else if k == 1 {
            if has_edge(t[11], b, a) {} else if has_edge(t[0], b, a) {} else { assert(has_edge(t[7], b, a)); }
        } else if k == 2 {
            if has_edge(t[4], b, a) {} else if has_edge(t[3], b, a) {} else { assert(has_edge(t[8], b, a)); }
        } else if k == 3 {
            if has_edge(t[2], b, a) {} else if has_edge(t[10], b, a) {} else { assert(has_edge(t[6], b, a)); }
        } else if k == 4 {
            if has_edge(t[2], b, a) {} else if has_edge(t[9], b, a) {} else { assert(has_edge(t[5], b, a)); }
        } else if k == 5 {
            if has_edge(t[11], b, a) {} else if has_edge(t[4], b, a) {} else { assert(has_edge(t[0], b, a)); }
        } else if k == 6 {
            if has_edge(t[8], b, a) {} else if has_edge(t[3], b, a) {} else { assert(has_edge(t[7], b, a)); }
        } else if k == 7 {
            if has_edge(t[6], b, a) {} else if has_edge(t[10], b, a) {} else { assert(has_edge(t[1], b, a)); }
        } else if k == 8 {
            if has_edge(t[9], b, a) {} else if has_edge(t[2], b, a) {} else { assert(has_edge(t[6], b, a)); }
        } else if k == 9 {
            if has_edge(t[0], b, a) {} else if has_edge(t[4], b, a) {} else { assert(has_edge(t[8], b, a)); }
        } else if k == 10 {
            if has_edge(t[3], b, a) {} else if has_edge(t[11], b, a) {} else { assert(has_edge(t[7], b, a)); }
        } else {
            if has_edge(t[5], b, a) {} else if has_edge(t[1], b, a) {} else { assert(has_edge(t[10], b, a)); }
        }
    }
}

/// Three steps of the cycle lead back to the axis one started from.
pub proof fn lemma_axis_cycle(a: Axis)
    ensures
        a.spec_next().spec_next().spec_next() == a,
        a.spec_next() != a,
{
}

} // verus!
