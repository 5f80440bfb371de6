use vstd::prelude::*;

use crate::geometry::{indices, Axis};
use crate::kdtree::{all_indices, build_kdtree, built, rejected, KDNode, MAX_DEPTH};

verus! {

/// The triangles `[index, index + count)` of a scene's triangle buffer.
#[derive(Clone, Copy, Debug, PartialEq, Eq, Structural)]
pub struct Model {
    pub index: u32,
    pub count: u32,
}

impl Model {
    pub open spec fn end(self) -> int {
        self.index + self.count
    }
}

/// How an entity answers a ray that hits it. `F` is a refractive index.
pub enum Material<F> {
    Solid,
    Mirror,
    Glass(F),
}

impl<F> Material<F> {
    /// Whether a ray that hits this material is worth showing: it meets a lens
    /// or a reflector rather than an opaque wall.
    pub fn is_optical(&self) -> (r: bool)
        ensures
            r == !(*self is Solid),
    {
        match self {
            Material::Solid => false,
            Material::Mirror => true,
            Material::Glass(_) => true,
        }
    }
}

/// A light source. `P` is a point or a vector in space.
pub enum Light<P> {
    /// Emits one ray, from an origin along a direction.
    Laser(P, P),
    /// Emits rays from an origin in random directions.
    Point(P),
}

/// Why a scene could not be queried or traced.
#[derive(Clone, Copy, Debug, PartialEq, Eq, Structural)]
pub enum TraceError {
    /// The spatial index has not been built since the last entity was added.
    NotBuilt,
    /// The spatial index gave a triangle that no entity owns.
    NoOwner(usize),
    /// The triangle buffer cannot take the triangles of one more ray.
    BufferFull,
}

/// Where a traced ray ended.
#[derive(Clone, Copy, Debug, PartialEq, Eq, Structural)]
pub enum Outcome {
    /// It left the scene without hitting anything.
    Escaped,
    /// It hit a solid entity.
    Absorbed(usize),
    /// It hit a mirror, which ends the path.
    Mirrored(usize),
    /// It could not leave a glass entity: total internal reflection.
    Trapped(usize),
    /// It was refracted `MAX_BOUNCES` times without ending.
    BounceLimit,
}

/// What tracing does after one step.
pub enum Step<R> {
    /// Follow this refracted ray.
    Continue(R),
    /// The path ends here.
    Stop(Outcome),
}

/// Most refractions one traced ray may go through.
pub const MAX_BOUNCES: usize = 64;

/// Rays sampled from a point light.
pub const POINT_SAMPLES: usize = 1000;

/// Where the triangles of entity `n` start in the flattened buffer: the sum of
/// the triangle counts of the entities before it.
pub open spec fn offset(models: Seq<Model>, n: int) -> int
    decreases n,
{
    if n <= 0 {
        0
    } else {
        offset(models, n - 1) + models[n - 1].count
    }
}

/// Position in the flattened buffer of the `j`-th triangle of entity `e`.
pub open spec fn flat_pos(models: Seq<Model>, e: int, j: int) -> int {
    offset(models, e) + j
}

/// Entity `e` owns position `p` of the flattened buffer.
pub open spec fn owns(models: Seq<Model>, e: int, p: int) -> bool {
    0 <= e < models.len() && offset(models, e) <= p < offset(models, e + 1)
}

pub proof fn lemma_offset_monotone(models: Seq<Model>, a: int, b: int)
    requires
        0 <= a <= b,
    ensures
        offset(models, a) <= offset(models, b),
    decreases b - a,
{
    if a < b {
        lemma_offset_monotone(models, a, b - 1);
    }
}

/// The flattened buffer and the resolution of a triangle to its entity agree:
/// the `j`-th triangle of entity `e` lies at a position that `e` owns, and no
/// other entity owns it.
pub proof fn lemma_flattened_owner(models: Seq<Model>, e: int, j: int)
    requires
        0 <= e < models.len(),
        0 <= j < models[e].count,
    ensures
        owns(models, e, flat_pos(models, e, j)),
        forall|e2: int| owns(models, e2, flat_pos(models, e, j)) ==> e2 == e,
{
    let p = flat_pos(models, e, j);
    assert forall|e2: int| owns(models, e2, p) implies e2 == e by {
        if e2 < e {
            lemma_offset_monotone(models, e2 + 1, e);
        } else if e2 > e {
            lemma_offset_monotone(models, e + 1, e2);
        }
    }
}

/// A scene: entities placed in it, each showing a model of the shared
/// triangle buffer with a material, the lights, the rays traced so far, and
/// the spatial index over the flattened buffer. Positions, scales and colours
/// are kept by the caller, one per entity, in the order of `models`.
pub struct World<T, F, S, B, P> {
    /// The model of each entity.
    pub models: Vec<Model>,
    /// The material of each entity.
    pub materials: Vec<Material<F>>,
    /// The models of the traced rays, for display only.
    pub lines: Vec<Model>,
    /// Every model added, in order.
    pub model_idx: Vec<Model>,
    /// The triangle buffer, in model space.
    pub model_data: Vec<T>,
    pub lights: Vec<Light<P>>,
    pub kdtree: Option<KDNode<S, B>>,
    /// The flattened buffer (see `world_tris`) that `kdtree` was built over.
    pub tris: Vec<T>,
}

impl<T, F, S, B, P> World<T, F, S, B, P> {
    /// Every model lies inside the triangle buffer, and there is one material
    /// per entity.
    pub open spec fn wf(&self) -> bool {
        &&& self.models.len() == self.materials.len()
        &&& self.model_data.len() <= u32::MAX
        &&& self.kdtree is Some ==> self.tris.len() == self.flat_len()
        &&& forall|e: int| 0 <= e < self.models.len() ==> #[trigger] self.models@[e].end() <= self.model_data.len()
        &&& forall|k: int| 0 <= k < self.lines.len() ==> #[trigger] self.lines@[k].end() <= self.model_data.len()
        &&& forall|k: int|
            0 <= k < self.model_idx.len() ==> #[trigger] self.model_idx@[k].end() <= self.model_data.len()
    }

    /// `ts` holds every entity's triangles, entity by entity, each as `place`
    /// moved it for that entity.
    pub open spec fn flattened_by<M: Fn(&T, usize) -> T>(&self, place: M, ts: Seq<T>) -> bool {
        &&& ts.len() == self.flat_len()
        &&& forall|e: int, j: int|
            0 <= e < self.models.len() && 0 <= j < self.models@[e].count ==> place.ensures(
                (&self.model_data@[self.models@[e].index + j], e as usize),
                #[trigger] ts[flat_pos(self.models@, e, j)],
            )
    }

    /// `r` is what a query gives for the walk's result `h`: the entity that
    /// owns the triangle found, the triangle, and the distance.
    pub open spec fn resolves<D>(
        &self,
        h: Option<(usize, D)>,
        r: Result<Option<(usize, usize, D)>, TraceError>,
    ) -> bool {
        match h {
            None => r == Ok::<Option<(usize, usize, D)>, TraceError>(None),
            Some((ti, d)) => match r {
                Ok(Some((e, t, d2))) => t == ti && d2 == d && owns(self.models@, e as int, ti as int),
                Ok(None) => false,
                Err(x) => x == TraceError::NoOwner(ti) && (ti > u32::MAX || self.flat_len() <= ti),
            },
        }
    }

    /// Number of triangles in the flattened buffer.
    pub open spec fn flat_len(&self) -> int {
        offset(self.models@, self.models.len() as int)
    }

    pub fn new() -> (r: Self)
        ensures
            r.wf(),
            r.models.len() == 0,
            r.lines.len() == 0,
            r.model_idx.len() == 0,
            r.model_data.len() == 0,
            r.lights.len() == 0,
            r.kdtree is None,
    {
        World {
            models: Vec::new(),
            materials: Vec::new(),
            lines: Vec::new(),
            model_idx: Vec::new(),
            model_data: Vec::new(),
            lights: Vec::new(),
            kdtree: None,
            tris: Vec::new(),
        }
    }

    /// Appends triangles to the buffer and returns the range they occupy.
    pub fn add_model(&mut self, triangles: Vec<T>) -> (r: Model)
        requires
            old(self).wf(),
            old(self).model_data.len() + triangles.len() <= u32::MAX,
        ensures
            final(self).wf(),
            r.index == old(self).model_data.len(),
            r.count == triangles.len(),
            final(self).model_data@ == old(self).model_data@ + triangles@,
            final(self).model_idx@ == old(self).model_idx@.push(r),
            final(self).models == old(self).models,
            final(self).materials == old(self).materials,
            final(self).lines@ == old(self).lines@,
            final(self).lights == old(self).lights,
            final(self).kdtree == old(self).kdtree,
            final(self).tris == old(self).tris,
    {
        let mut triangles = triangles;
        let start = self.model_data.len();
        let count = triangles.len();
        self.model_data.append(&mut triangles);
        let m = Model { index: start as u32, count: count as u32 };
        self.model_idx.push(m);
        m
    }

    /// Places an entity showing `model` and returns its id. The spatial index
    /// no longer describes the scene and is dropped.
    pub fn add_entity(&mut self, model: Model, material: Material<F>) -> (r: usize)
        requires
            old(self).wf(),
            model.end() <= old(self).model_data.len(),
        ensures
            final(self).wf(),
            r == old(self).models.len(),
            final(self).models@ == old(self).models@.push(model),
            final(self).materials@ == old(self).materials@.push(material),
            final(self).kdtree is None,
            final(self).tris == old(self).tris,
            final(self).model_data == old(self).model_data,
            final(self).model_idx == old(self).model_idx,
            final(self).lines@ == old(self).lines@,
            final(self).lights == old(self).lights,
    {
        self.models.push(model);
        self.materials.push(material);
        self.kdtree = None;
        self.models.len() - 1
    }

    pub fn add_light(&mut self, l: Light<P>)
        requires
            old(self).wf(),
        ensures
            final(self).wf(),
            final(self).lights@ == old(self).lights@.push(l),
            final(self).models == old(self).models,
            final(self).materials == old(self).materials,
            final(self).model_data == old(self).model_data,
            final(self).model_idx == old(self).model_idx,
            final(self).lines@ == old(self).lines@,
            final(self).kdtree == old(self).kdtree,
            final(self).tris == old(self).tris,
    {
        self.lights.push(l);
    }

    /// The entity that owns position `tri` of the flattened buffer.
    pub fn model_from_tri(&self, tri: u32) -> (r: Result<usize, TraceError>)
        requires
            self.wf(),
        ensures
            match r {
                Ok(e) => owns(self.models@, e as int, tri as int),
                Err(x) => x == TraceError::NoOwner(tri as usize) && self.flat_len() <= tri,
            },
    {
        let mut idx: u64 = 0;
        let mut i: usize = 0;
        while i < self.models.len()
            invariant
                i <= self.models.len(),
                idx == offset(self.models@, i as int),
                idx <= tri,
            decreases self.models.len() - i,
        {
            let m = self.models[i];
            if idx + (m.count as u64) > tri as u64 {
                return Ok(i);
            }
            idx = idx + m.count as u64;
            i = i + 1;
        }
        Err(TraceError::NoOwner(tri as usize))
    }

    /// Every entity's triangles, entity by entity, each moved into place by
    /// `place` (which is given the entity's id).
    pub fn world_tris<M>(&self, place: &M) -> (r: Vec<T>) where M: Fn(&T, usize) -> T
        requires
            self.wf(),
            forall|t: &T, e: usize| place.requires((t, e)),
        ensures
            self.flattened_by(*place, r@),
    {
        let mut tris: Vec<T> = Vec::new();
        let mut i: usize = 0;
        while i < self.models.len()
            invariant
                self.wf(),
                forall|t: &T, e: usize| place.requires((t, e)),
                i <= self.models.len(),
                tris.len() == offset(self.models@, i as int),
                forall|e: int, j: int|
                    0 <= e < i && 0 <= j < self.models@[e].count ==> place.ensures(
                        (&self.model_data@[self.models@[e].index + j], e as usize),
                        #[trigger] tris@[flat_pos(self.models@, e, j)],
                    ),
            decreases self.models.len() - i,
        {
            let m = self.models[i];
            assert(m.end() <= self.model_data.len());
            let ghost before = tris@;
            let mut j: u32 = 0;
            while j < m.count
                invariant
                    self.wf(),
                    forall|t: &T, e: usize| place.requires((t, e)),
                    i < self.models.len(),
                    m == self.models@[i as int],
                    m.end() <= self.model_data.len(),
                    j <= m.count,
                    tris.len() == before.len() + j,
                    before.len() == offset(self.models@, i as int),
                    forall|k: int| 0 <= k < before.len() ==> tris@[k] == before[k],
                    forall|jj: int|
                        0 <= jj < j ==> place.ensures(
                            (&self.model_data@[m.index + jj], i),
                            #[trigger] tris@[before.len() + jj],
                        ),
                decreases m.count - j,
            {
                let t = place(&self.model_data[(m.index + j) as usize], i);
                tris.push(t);
                j = j + 1;
            }
            proof {
                assert forall|e: int, jj: int|
                    0 <= e <= i && 0 <= jj < self.models@[e].count implies place.ensures(
                    (&self.model_data@[self.models@[e].index + jj], e as usize),
                    #[trigger] tris@[flat_pos(self.models@, e, jj)],
                ) by {
                    lemma_offset_monotone(self.models@, 0, e);
                    if e < i {
                        lemma_offset_monotone(self.models@, e + 1, i as int);
                        assert(offset(self.models@, e + 1) == offset(self.models@, e) + self.models@[e].count);
                        assert(tris@[flat_pos(self.models@, e, jj)] == before[flat_pos(
                            self.models@,
                            e,
                            jj,
                        )]);
                    } else {
                        assert(tris@[before.len() + jj] == tris@[flat_pos(self.models@, e, jj)]);
                    }
                }
            }
            i = i + 1;
        }
        tris
    }

    /// Builds the spatial index (see `built`) over the flattened buffer (see
    /// `world_tris`), in the region that `bounds` gives for it, and keeps that
    /// buffer in `tris`.
    pub fn build_kdtree<M, U, Q, C>(&mut self, place: &M, bounds: &U, split: &Q, classify: &C) where
        M: Fn(&T, usize) -> T,
        U: Fn(&Vec<T>) -> B,
        Q: Fn(&B, Axis) -> (B, B, S),
        C: Fn(&T, Axis, &S) -> (bool, bool),

        requires
            old(self).wf(),
            forall|t: &T, e: usize| place.requires((t, e)),
            forall|v: &Vec<T>| bounds.requires((v,)),
            forall|b: &B, a: Axis| split.requires((b, a)),
            forall|t: &T, a: Axis, s: &S| classify.requires((t, a, s)),
        ensures
            final(self).wf(),
            old(self).flattened_by(*place, final(self).tris@),
            final(self).kdtree matches Some(tree) && bounds.ensures((&final(self).tris,), tree.spec_bounds())
                && built(
                final(self).tris@,
                all_indices(final(self).tris.len() as nat),
                tree.spec_bounds(),
                Axis::X,
                0,
                *split,
                *classify,
                tree,
            ) && tree.height() <= MAX_DEPTH && tree.axes_from(Axis::X) && forall|i: usize|
                #![trigger tree.holds(i)]
                (tree.holds(i) ==> i < final(self).tris.len()) && (i < final(self).tris.len()
                    && !tree.holds(i) ==> rejected(*classify, final(self).tris@[i as int])),
            final(self).models == old(self).models,
            final(self).materials == old(self).materials,
            final(self).model_data == old(self).model_data,
            final(self).model_idx == old(self).model_idx,
            final(self).lines@ == old(self).lines@,
            final(self).lights == old(self).lights,
    {
        let tris = self.world_tris(place);
        let root = bounds(&tris);
        let tree = build_kdtree(&tris, root, split, classify);
        self.kdtree = Some(tree);
        self.tris = tris;
    }

    /// The nearest hit of `ray` among the triangles of the flattened buffer
    /// `tris`, over which the spatial index was built: the entity, the
    /// triangle's position in `tris` and the distance.
    pub fn intersect<R, D, H, O, L>(
        &self,
        ray: &R,
        hits: &H,
        side: &O,
        nearest: &L,
    ) -> (r: Result<Option<(usize, usize, D)>, TraceError>) where
        H: Fn(&B, &R) -> bool,
        O: Fn(Axis, &S, &R) -> (bool, bool),
        L: Fn(&Vec<usize>, &Vec<T>, &R) -> Option<(usize, D)>,

        requires
            self.wf(),
            forall|b: &B, x: &R| hits.requires((b, x)),
            forall|a: Axis, s: &S, x: &R| side.requires((a, s, x)),
            forall|v: &Vec<usize>, w: &Vec<T>, x: &R| nearest.requires((v, w, x)),
        ensures
            self.kdtree is None ==> r == Err::<Option<(usize, usize, D)>, TraceError>(
                TraceError::NotBuilt,
            ),
            self.kdtree matches Some(tree) ==> exists|h: Option<(usize, D)>|
                tree.traversal(*ray, self.tris, *hits, *side, *nearest, h) && #[trigger] self.resolves(h, r),
    {
        match &self.kdtree {
            None => Err(TraceError::NotBuilt),
            Some(tree) => {
                let h = tree.intersect(ray, &self.tris, hits, side, nearest);
                match h {
                    None => {
                        let r = Ok(None);
                        assert(self.resolves(h, r));
                        r
                    },
                    Some((ti, d)) => {
                        if ti > u32::MAX as usize {
                            let r = Err(TraceError::NoOwner(ti));
                            assert(self.resolves(Some((ti, d)), r));
                            return r;
                        }
                        match self.model_from_tri(ti as u32) {
                            Ok(e) => {
                                let ghost hh = Some((ti, d));
                                let r = Ok(Some((e, ti, d)));
                                assert(self.resolves(hh, r));
                                r
                            },
                            Err(x) => {
                                let r = Err(x);
                                assert(self.resolves(Some((ti, d)), r));
                                r
                            },
                        }
                    },
                }
            },
        }
    }

    /// The scene apart from the traced rays and the triangle buffer is as in
    /// `old`, and what was traced before is kept.
    pub open spec fn extends(&self, old: &Self) -> bool {
        &&& self.models == old.models
        &&& self.materials == old.materials
        &&& self.lights == old.lights
        &&& self.kdtree == old.kdtree
        &&& self.tris == old.tris
        &&& old.lines.len() <= self.lines.len()
        &&& forall|k: int| 0 <= k < old.lines.len() ==> self.lines@[k] == old.lines@[k]
        &&& old.model_data.len() <= self.model_data.len()
        &&& forall|k: int| 0 <= k < old.model_data.len() ==> self.model_data@[k] == old.model_data@[k]
    }

    /// `next` is this scene with `tube` appended to the triangle buffer as a
    /// new model listed among the traced rays.
    pub open spec fn adds_line(&self, next: &Self, tube: Seq<T>) -> bool {
        let m = Model { index: self.model_data.len() as u32, count: tube.len() as u32 };
        &&& next.model_data@ == self.model_data@ + tube
        &&& next.model_idx@ == self.model_idx@.push(m)
        &&& next.lines@ == self.lines@.push(m)
        &&& next.models == self.models
        &&& next.materials == self.materials
        &&& next.lights == self.lights
        &&& next.kdtree == self.kdtree
        &&& next.tris == self.tris
    }

    /// How entity `e` answers `ray`, which hit triangle `ti` of `tris` at
    /// distance `d`: a solid absorbs it, a mirror ends it, and glass refracts
    /// it unless `refract`, given that triangle, finds total internal
    /// reflection.
    pub open spec fn responds<R, D, Q>(
        &self,
        e: usize,
        ray: R,
        inside: bool,
        ti: usize,
        d: D,
        refract: Q,
        r: Result<Step<R>, TraceError>,
    ) -> bool where Q: Fn(&R, bool, &T, &D, &F) -> Option<R> {
        match self.materials@[e as int] {
            Material::Solid => r == Ok::<Step<R>, TraceError>(Step::Stop(Outcome::Absorbed(e))),
            Material::Mirror => r == Ok::<Step<R>, TraceError>(Step::Stop(Outcome::Mirrored(e))),
            Material::Glass(eta) => exists|o: Option<R>|
                #[trigger] refract.ensures((&ray, inside, &self.tris[ti as int], &d, &eta), o) && match o {
                    None => r == Ok::<Step<R>, TraceError>(Step::Stop(Outcome::Trapped(e))),
                    Some(n) => r == Ok::<Step<R>, TraceError>(Step::Continue(n)),
                },
        }
    }

    /// One step of tracing `ray` from scene `self` to scene `next` with result
    /// `r`: the query of the spatial index (see `intersect`); nothing more
    /// where it fails or finds nothing; otherwise the segment up to the hit is
    /// drawn (`segment` gives its triangles) and the entity hit answers
    /// (see `responds`).
    pub open spec fn step<R, D, H, O, L, G, Q>(
        &self,
        next: &Self,
        ray: R,
        inside: bool,
        hits: H,
        side: O,
        nearest: L,
        segment: G,
        refract: Q,
        r: Result<Step<R>, TraceError>,
    ) -> bool where
        H: Fn(&B, &R) -> bool,
        O: Fn(Axis, &S, &R) -> (bool, bool),
        L: Fn(&Vec<usize>, &Vec<T>, &R) -> Option<(usize, D)>,
        G: Fn(&R, &D) -> Vec<T>,
        Q: Fn(&R, bool, &T, &D, &F) -> Option<R>,
     {
        match self.kdtree {
            None => r == Err::<Step<R>, TraceError>(TraceError::NotBuilt) && *next == *self,
            Some(tree) => exists|h: Option<(usize, D)>, q: Result<Option<(usize, usize, D)>, TraceError>|
                #[trigger] tree.traversal(ray, self.tris, hits, side, nearest, h) && #[trigger] self.resolves(
                    h,
                    q,
                ) && match q {
                    Err(x) => r == Err::<Step<R>, TraceError>(x) && *next == *self,
                    Ok(None) => r == Ok::<Step<R>, TraceError>(Step::Stop(Outcome::Escaped))
                        && *next == *self,
                    Ok(Some((e, ti, d))) => exists|tube: Vec<T>|
                        #[trigger] segment.ensures((&ray, &d), tube) && if self.model_data.len()
                            + tube.len() > u32::MAX {
                            r == Err::<Step<R>, TraceError>(TraceError::BufferFull) && *next == *self
                        } else {
                            self.adds_line(next, tube@) && self.responds(e, ray, inside, ti, d, refract, r)
                        },
                },
        }
    }

    /// Tracing `ray` from scene `self` ends in scene `last` with result `r`,
    /// allowing `budget` more refractions: steps (see `step`) follow one
    /// another, each from the ray the last one refracted, with inside and
    /// outside swapped, until one stops or fails.
    pub open spec fn run<R, D, H, O, L, G, Q>(
        &self,
        last: &Self,
        ray: R,
        inside: bool,
        budget: nat,
        hits: H,
        side: O,
        nearest: L,
        segment: G,
        refract: Q,
        r: Result<Outcome, TraceError>,
    ) -> bool where
        H: Fn(&B, &R) -> bool,
        O: Fn(Axis, &S, &R) -> (bool, bool),
        L: Fn(&Vec<usize>, &Vec<T>, &R) -> Option<(usize, D)>,
        G: Fn(&R, &D) -> Vec<T>,
        Q: Fn(&R, bool, &T, &D, &F) -> Option<R>,

        decreases budget,
    {
        if budget == 0 {
            r == Ok::<Outcome, TraceError>(Outcome::BounceLimit) && *last == *self
        } else {
            exists|mid: Self, s: Result<Step<R>, TraceError>|
                #[trigger] self.step(&mid, ray, inside, hits, side, nearest, segment, refract, s)
                    && match s {
                    Err(x) => r == Err::<Outcome, TraceError>(x) && *last == mid,
                    Ok(Step::Stop(o)) => r == Ok::<Outcome, TraceError>(o) && *last == mid,
                    Ok(Step::Continue(n)) => mid.run(
                        last,
                        n,
                        !inside,
                        (budget - 1) as nat,
                        hits,
                        side,
                        nearest,
                        segment,
                        refract,
                        r,
                    ),
                }
        }
    }

    /// Adds, for display, the segment of `ray` over distance `d`: `segment`
    /// gives its triangles, which become a new model listed in `lines`.
    fn add_ray<R, D, G>(&mut self, ray: &R, d: &D, segment: &G) -> (r: Result<(), TraceError>) where
        G: Fn(&R, &D) -> Vec<T>,

        requires
            old(self).wf(),
            forall|x: &R, y: &D| segment.requires((x, y)),
        ensures
            final(self).wf(),
            exists|tube: Vec<T>|
                #[trigger] segment.ensures((ray, d), tube) && if old(self).model_data.len()
                    + tube.len() > u32::MAX {
                    r == Err::<(), TraceError>(TraceError::BufferFull) && *final(self) == *old(self)
                } else {
                    r is Ok && old(self).adds_line(final(self), tube@)
                },
    {
        let tube = segment(ray, d);
        let ghost t = tube;
        if tube.len() > u32::MAX as usize - self.model_data.len() {
            return Err(TraceError::BufferFull);
        }
        let m = self.add_model(tube);
        self.lines.push(m);
        assert(segment.ensures((ray, d), t));
        Ok(())
    }

    /// One step of tracing `ray` (see `step`); `inside` tells whether it
    /// travels inside glass.
    pub fn trace_step<R, D, H, O, L, G, Q>(
        &mut self,
        ray: &R,
        inside: bool,
        hits: &H,
        side: &O,
        nearest: &L,
        segment: &G,
        refract: &Q,
    ) -> (r: Result<Step<R>, TraceError>) where
        H: Fn(&B, &R) -> bool,
        O: Fn(Axis, &S, &R) -> (bool, bool),
        L: Fn(&Vec<usize>, &Vec<T>, &R) -> Option<(usize, D)>,
        G: Fn(&R, &D) -> Vec<T>,
        Q: Fn(&R, bool, &T, &D, &F) -> Option<R>,

        requires
            old(self).wf(),
            forall|b: &B, x: &R| hits.requires((b, x)),
            forall|a: Axis, s: &S, x: &R| side.requires((a, s, x)),
            forall|v: &Vec<usize>, w: &Vec<T>, x: &R| nearest.requires((v, w, x)),
            forall|x: &R, y: &D| segment.requires((x, y)),
            forall|x: &R, i: bool, t: &T, y: &D, f: &F| refract.requires((x, i, t, y, f)),
        ensures
            final(self).wf(),
            final(self).extends(old(self)),
            old(self).step(
                final(self),
                *ray,
                inside,
                *hits,
                *side,
                *nearest,
                *segment,
                *refract,
                r,
            ),
    {
        let ghost start = *self;
        let hit = self.intersect(ray, hits, side, nearest);
        let (e, ti, d) = match hit {
            Err(x) => {
                if self.kdtree.is_some() {
                    let ghost tree = self.kdtree->0;
                    let ghost h = choose|h: Option<(usize, D)>|
                        tree.traversal(*ray, self.tris, *hits, *side, *nearest, h) && #[trigger] self.resolves(
                            h,
                            hit,
                        );
                    assert(tree.traversal(*ray, self.tris, *hits, *side, *nearest, h) && self.resolves(h, hit));
                }
                return Err(x);
            },
            Ok(None) => {
                let ghost tree = self.kdtree->0;
                let ghost h = choose|h: Option<(usize, D)>|
                    tree.traversal(*ray, self.tris, *hits, *side, *nearest, h) && #[trigger] self.resolves(h, hit);
                assert(tree.traversal(*ray, self.tris, *hits, *side, *nearest, h) && self.resolves(h, hit));
                return Ok(Step::Stop(Outcome::Escaped));
            },
            Ok(Some(x)) => x,
        };
        let ghost tree = self.kdtree->0;
        let ghost h = choose|h: Option<(usize, D)>|
            tree.traversal(*ray, self.tris, *hits, *side, *nearest, h) && #[trigger] self.resolves(h, hit);
        assert(tree.traversal(*ray, self.tris, *hits, *side, *nearest, h) && self.resolves(h, hit));
        let added = self.add_ray(ray, &d, segment);
        let ghost tube = choose|tube: Vec<T>|
            #[trigger] segment.ensures((ray, &d), tube) && if start.model_data.len() + tube.len()
                > u32::MAX {
                added == Err::<(), TraceError>(TraceError::BufferFull) && *self == start
            } else {
                added is Ok && start.adds_line(self, tube@)
            };
        assert(segment.ensures((ray, &d), tube));
        match added {
            Err(x) => {
                return Err(x);
            },
            Ok(()) => {},
        }
        assert(self.materials == start.materials);
        assert(forall|k: int| 0 <= k < start.lines.len() ==> self.lines@[k] == start.lines@[k]);
        assert(forall|k: int|
            0 <= k < start.model_data.len() ==> self.model_data@[k] == start.model_data@[k]);
        let r = match &self.materials[e] {
            Material::Solid => Ok(Step::Stop(Outcome::Absorbed(e))),
            Material::Mirror => Ok(Step::Stop(Outcome::Mirrored(e))),
            Material::Glass(eta) => {
                proof {
                    lemma_offset_monotone(self.models@, e + 1, self.models.len() as int);
                }
                let o = refract(ray, inside, &self.tris[ti], &d, eta);
                assert(refract.ensures((ray, inside, &self.tris@[ti as int], &d, eta), o));
                match o {
                    None => Ok(Step::Stop(Outcome::Trapped(e))),
                    Some(n) => Ok(Step::Continue(n)),
                }
            },
        };
        assert(start.responds(e, *ray, inside, ti, d, *refract, r));
        r
    }

    /// Follows `ray` through the scene, step
    /// after step (see `run` and `step`). Each segment up to a hit is drawn.
    /// A ray that hits nothing, a solid or a mirror ends there. Glass refracts
    /// it: `refract` is given the ray, whether it travels inside glass, the
    /// triangle hit, the distance and the refractive index, and gives the ray
    /// that leaves the hit point, or nothing under total internal reflection,
    /// which ends the path. The path ends after `MAX_BOUNCES` refractions.
    pub fn trace_ray<R, D, H, O, L, G, Q>(
        &mut self,
        ray: R,
        hits: &H,
        side: &O,
        nearest: &L,
        segment: &G,
        refract: &Q,
    ) -> (r: Result<Outcome, TraceError>) where
        H: Fn(&B, &R) -> bool,
        O: Fn(Axis, &S, &R) -> (bool, bool),
        L: Fn(&Vec<usize>, &Vec<T>, &R) -> Option<(usize, D)>,
        G: Fn(&R, &D) -> Vec<T>,
        Q: Fn(&R, bool, &T, &D, &F) -> Option<R>,

        requires
            old(self).wf(),
            forall|b: &B, x: &R| hits.requires((b, x)),
            forall|a: Axis, s: &S, x: &R| side.requires((a, s, x)),
            forall|v: &Vec<usize>, w: &Vec<T>, x: &R| nearest.requires((v, w, x)),
            forall|x: &R, y: &D| segment.requires((x, y)),
            forall|x: &R, i: bool, t: &T, y: &D, f: &F| refract.requires((x, i, t, y, f)),
        ensures
            final(self).wf(),
            final(self).extends(old(self)),
            old(self).run(
                final(self),
                ray,
                false,
                MAX_BOUNCES as nat,
                *hits,
                *side,
                *nearest,
                *segment,
                *refract,
                r,
            ),
            old(self).kdtree is None ==> r == Err::<Outcome, TraceError>(TraceError::NotBuilt)
                && final(self).lines@ == old(self).lines@,
            r == Err::<Outcome, TraceError>(TraceError::NotBuilt) ==> old(self).kdtree is None,
    {
        let mut cur_ray = ray;
        let mut inside = false;
        let mut n: usize = 0;
        while n < MAX_BOUNCES
            invariant
                self.wf(),
                self.extends(old(self)),
                n <= MAX_BOUNCES,
                old(self).kdtree is None ==> n == 0 && *self == *old(self) && cur_ray == ray && !inside,
                n == 0 ==> *self == *old(self) && cur_ray == ray && !inside,
                forall|last: Self, res: Result<Outcome, TraceError>|
                    #[trigger] self.run(
                        &last,
                        cur_ray,
                        inside,
                        (MAX_BOUNCES - n) as nat,
                        *hits,
                        *side,
                        *nearest,
                        *segment,
                        *refract,
                        res,
                    ) ==> old(self).run(
                        &last,
                        ray,
                        false,
                        MAX_BOUNCES as nat,
                        *hits,
                        *side,
                        *nearest,
                        *segment,
                        *refract,
                        res,
                    ),
                forall|b: &B, x: &R| hits.requires((b, x)),
                forall|a: Axis, s: &S, x: &R| side.requires((a, s, x)),
                forall|v: &Vec<usize>, w: &Vec<T>, x: &R| nearest.requires((v, w, x)),
                forall|x: &R, y: &D| segment.requires((x, y)),
                forall|x: &R, i: bool, t: &T, y: &D, f: &F| refract.requires((x, i, t, y, f)),
            decreases MAX_BOUNCES - n,
        {
            let ghost cur = *self;
            let s = self.trace_step(&cur_ray, inside, hits, side, nearest, segment, refract);
            let ghost mid = *self;
            let ghost budget = (MAX_BOUNCES - n) as nat;
            assert(cur.step(&mid, cur_ray, inside, *hits, *side, *nearest, *segment, *refract, s));
            match s {
                Err(x) => {
                    assert(cur.run(&mid, cur_ray, inside, budget, *hits, *side, *nearest, *segment, *refract, Err(x)));
                    return Err(x);
                },
                Ok(Step::Stop(o)) => {
                    assert(cur.run(&mid, cur_ray, inside, budget, *hits, *side, *nearest, *segment, *refract, Ok(o)));
                    return Ok(o);
                },
                Ok(Step::Continue(next)) => {
                    let ghost ray_before = cur_ray;
                    let ghost inside_before = inside;
                    let ghost flipped = !inside;
                    let ghost rest = (MAX_BOUNCES - (n + 1)) as nat;
                    assert(rest == (budget - 1) as nat);
                    assert forall|last: Self, res: Result<Outcome, TraceError>|
                        #[trigger] mid.run(
                            &last,
                            next,
                            flipped,
                            rest,
                            *hits,
                            *side,
                            *nearest,
                            *segment,
                            *refract,
                            res,
                        ) implies cur.run(
                        &last,
                        ray_before,
                        inside_before,
                        budget,
                        *hits,
                        *side,
                        *nearest,
                        *segment,
                        *refract,
                        res,
                    ) by {
                        assert(cur.step(&mid, ray_before, inside_before, *hits, *side, *nearest, *segment, *refract, s));
                    }
                    cur_ray = next;
                    inside = !inside;
                },
            }
            n = n + 1;
        }
        let ghost fin = *self;
        assert(fin.run(
            &fin,
            cur_ray,
            inside,
            (MAX_BOUNCES - n) as nat,
            *hits,
            *side,
            *nearest,
            *segment,
            *refract,
            Ok(Outcome::BounceLimit),
        ));
        Ok(Outcome::BounceLimit)
    }

    /// `q` is what a query for `ray` gives (see `intersect`).
    pub open spec fn queried<R, D, H, O, L>(
        &self,
        ray: R,
        hits: H,
        side: O,
        nearest: L,
        q: Result<Option<(usize, usize, D)>, TraceError>,
    ) -> bool where
        H: Fn(&B, &R) -> bool,
        O: Fn(Axis, &S, &R) -> (bool, bool),
        L: Fn(&Vec<usize>, &Vec<T>, &R) -> Option<(usize, D)>,
     {
        match self.kdtree {
            None => q == Err::<Option<(usize, usize, D)>, TraceError>(TraceError::NotBuilt),
            Some(tree) => exists|h: Option<(usize, D)>|
                #[trigger] tree.traversal(ray, self.tris, hits, side, nearest, h) && self.resolves(h, q),
        }
    }

    /// Rays `k..POINT_SAMPLES` of the point light `l`, from scene `self` to
    /// scene `last` with result `r`: each ray is drawn by `spawn` and queried;
    /// one whose first hit is glass or a mirror is traced (see `run`).
    pub open spec fn samples<R, D, W, H, O, L, G, Q>(
        &self,
        last: &Self,
        l: Light<P>,
        k: nat,
        spawn: W,
        hits: H,
        side: O,
        nearest: L,
        segment: G,
        refract: Q,
        r: Result<(), TraceError>,
    ) -> bool where
        W: Fn(&Light<P>) -> R,
        H: Fn(&B, &R) -> bool,
        O: Fn(Axis, &S, &R) -> (bool, bool),
        L: Fn(&Vec<usize>, &Vec<T>, &R) -> Option<(usize, D)>,
        G: Fn(&R, &D) -> Vec<T>,
        Q: Fn(&R, bool, &T, &D, &F) -> Option<R>,

        decreases POINT_SAMPLES - k,
    {
        if k >= POINT_SAMPLES {
            r == Ok::<(), TraceError>(()) && *last == *self
        } else {
            exists|ray: R, q: Result<Option<(usize, usize, D)>, TraceError>|
                #[trigger] spawn.ensures((&l,), ray) && #[trigger] self.queried(
                    ray,
                    hits,
                    side,
                    nearest,
                    q,
                ) && match q {
                    Err(x) => r == Err::<(), TraceError>(x) && *last == *self,
                    Ok(Some((e, _, _))) if !(self.materials@[e as int] is Solid) => exists|
                        mid: Self,
                        o: Result<Outcome, TraceError>,
                    |
                        #[trigger] self.run(
                            &mid,
                            ray,
                            false,
                            MAX_BOUNCES as nat,
                            hits,
                            side,
                            nearest,
                            segment,
                            refract,
                            o,
                        ) && match o {
                            Err(x) => r == Err::<(), TraceError>(x) && *last == mid,
                            Ok(_) => mid.samples(
                                last,
                                l,
                                k + 1,
                                spawn,
                                hits,
                                side,
                                nearest,
                                segment,
                                refract,
                                r,
                            ),
                        },
                    _ => self.samples(last, l, k + 1, spawn, hits, side, nearest, segment, refract, r),
                }
        }
    }

    /// Lights `i..i + left`, from scene `self` to scene `last` with result
    /// `r`: a laser's ray, drawn by `spawn`, is traced (see `run`); a point
    /// light's rays are sampled (see `samples`). The first failure ends it all.
    pub open spec fn lights_run<R, D, W, H, O, L, G, Q>(
        &self,
        last: &Self,
        i: nat,
        left: nat,
        spawn: W,
        hits: H,
        side: O,
        nearest: L,
        segment: G,
        refract: Q,
        r: Result<(), TraceError>,
    ) -> bool where
        W: Fn(&Light<P>) -> R,
        H: Fn(&B, &R) -> bool,
        O: Fn(Axis, &S, &R) -> (bool, bool),
        L: Fn(&Vec<usize>, &Vec<T>, &R) -> Option<(usize, D)>,
        G: Fn(&R, &D) -> Vec<T>,
        Q: Fn(&R, bool, &T, &D, &F) -> Option<R>,

        decreases left,
    {
        if left == 0 {
            r == Ok::<(), TraceError>(()) && *last == *self
        } else {
            exists|mid: Self, s: Result<(), TraceError>|
                #[trigger] self.light_done(
                    &mid,
                    i,
                    spawn,
                    hits,
                    side,
                    nearest,
                    segment,
                    refract,
                    s,
                ) && match s {
                    Err(x) => r == Err::<(), TraceError>(x) && *last == mid,
                    Ok(()) => mid.lights_run(
                        last,
                        i + 1,
                        (left - 1) as nat,
                        spawn,
                        hits,
                        side,
                        nearest,
                        segment,
                        refract,
                        r,
                    ),
                }
        }
    }

    /// Light `i` alone, from scene `self` to scene `last` with result `r`
    /// (see `lights_run`).
    pub open spec fn light_done<R, D, W, H, O, L, G, Q>(
        &self,
        last: &Self,
        i: nat,
        spawn: W,
        hits: H,
        side: O,
        nearest: L,
        segment: G,
        refract: Q,
        r: Result<(), TraceError>,
    ) -> bool where
        W: Fn(&Light<P>) -> R,
        H: Fn(&B, &R) -> bool,
        O: Fn(Axis, &S, &R) -> (bool, bool),
        L: Fn(&Vec<usize>, &Vec<T>, &R) -> Option<(usize, D)>,
        G: Fn(&R, &D) -> Vec<T>,
        Q: Fn(&R, bool, &T, &D, &F) -> Option<R>,
     {
        let l = self.lights@[i as int];
        match l {
            Light::Laser(_, _) => exists|ray: R, o: Result<Outcome, TraceError>|
                #[trigger] spawn.ensures((&l,), ray) && #[trigger] self.run(
                    last,
                    ray,
                    false,
                    MAX_BOUNCES as nat,
                    hits,
                    side,
                    nearest,
                    segment,
                    refract,
                    o,
                ) && match o {
                    Err(x) => r == Err::<(), TraceError>(x),
                    Ok(_) => r == Ok::<(), TraceError>(()),
                },
            Light::Point(_) => self.samples(
                last,
                l,
                0,
                spawn,
                hits,
                side,
                nearest,
                segment,
                refract,
                r,
            ),
        }
    }

    /// Traces every light in turn (see `lights_run`) against the spatial index
    /// and the buffer `tris` it was built over. A laser's one ray is always
    /// followed. Of `POINT_SAMPLES` rays drawn from a point light, only those
    /// whose first hit is glass or a mirror are followed. `spawn` draws a ray
    /// from a light.
    pub fn trace<R, D, W, H, O, L, G, Q>(
        &mut self,
        spawn: &W,
        hits: &H,
        side: &O,
        nearest: &L,
        segment: &G,
        refract: &Q,
    ) -> (r: Result<(), TraceError>) where
        W: Fn(&Light<P>) -> R,
        H: Fn(&B, &R) -> bool,
        O: Fn(Axis, &S, &R) -> (bool, bool),
        L: Fn(&Vec<usize>, &Vec<T>, &R) -> Option<(usize, D)>,
        G: Fn(&R, &D) -> Vec<T>,
        Q: Fn(&R, bool, &T, &D, &F) -> Option<R>,

        requires
            old(self).wf(),
            forall|l: &Light<P>| spawn.requires((l,)),
            forall|b: &B, x: &R| hits.requires((b, x)),
            forall|a: Axis, s: &S, x: &R| side.requires((a, s, x)),
            forall|v: &Vec<usize>, w: &Vec<T>, x: &R| nearest.requires((v, w, x)),
            forall|x: &R, y: &D| segment.requires((x, y)),
            forall|x: &R, i: bool, t: &T, y: &D, f: &F| refract.requires((x, i, t, y, f)),
        ensures
            final(self).wf(),
            final(self).extends(old(self)),
            old(self).lights_run(
                    final(self),
                    0,
                    old(self).lights.len() as nat,
                    *spawn,
                    *hits,
                    *side,
                    *nearest,
                    *segment,
                    *refract,
                    r,
                ),
            old(self).kdtree is None && old(self).lights.len() > 0 ==> r == Err::<(), TraceError>(
                TraceError::NotBuilt,
            ) && final(self).lines@ == old(self).lines@,
    {
        let mut i: usize = 0;
        while i < self.lights.len()
            invariant
                self.wf(),
                self.extends(old(self)),
                i <= self.lights.len(),
                old(self).kdtree is None ==> i == 0 && *self == *old(self),
                i == 0 ==> *self == *old(self),
                forall|last: Self, res: Result<(), TraceError>|
                    #[trigger] self.lights_run(
                        &last,
                        i as nat,
                        (self.lights.len() - i) as nat,
                        *spawn,
                        *hits,
                        *side,
                        *nearest,
                        *segment,
                        *refract,
                        res,
                    ) ==> old(self).lights_run(
                        &last,
                        0,
                        old(self).lights.len() as nat,
                        *spawn,
                        *hits,
                        *side,
                        *nearest,
                        *segment,
                        *refract,
                        res,
                    ),
                forall|l: &Light<P>| spawn.requires((l,)),
                forall|b: &B, x: &R| hits.requires((b, x)),
                forall|a: Axis, s: &S, x: &R| side.requires((a, s, x)),
                forall|v: &Vec<usize>, w: &Vec<T>, x: &R| nearest.requires((v, w, x)),
                forall|x: &R, y: &D| segment.requires((x, y)),
                forall|x: &R, i: bool, t: &T, y: &D, f: &F| refract.requires((x, i, t, y, f)),
            decreases self.lights.len() - i,
        {
            let ghost w0 = *self;
            let ghost left = (self.lights.len() - i) as nat;
            let laser = match &self.lights[i] {
                Light::Laser(_, _) => true,
                Light::Point(_) => false,
            };
            let s: Result<(), TraceError>;
            if laser {
                let ray = spawn(&self.lights[i]);
                let ghost ray0 = ray;
                let o = self.trace_ray(ray, hits, side, nearest, segment, refract);
                s = match o {
                    Err(x) => Err(x),
                    Ok(_) => Ok(()),
                };
                let ghost mid = *self;
                assert(spawn.ensures((&w0.lights@[i as int],), ray0));
                assert(w0.light_done(&mid, i as nat, *spawn, *hits, *side, *nearest, *segment, *refract, s));
            } else {
                let ghost l = self.lights@[i as int];
                let mut k: usize = 0;
                while k < POINT_SAMPLES
                    invariant
                        self.wf(),
                        self.extends(old(self)),
                        self.extends(&w0),
                        i < self.lights.len(),
                        l == self.lights@[i as int],
                        l is Point,
                        old(self).kdtree is None ==> k == 0 && *self == *old(self),
                        i == 0 ==> w0 == *old(self),
                        left == (self.lights.len() - i) as nat,
                                forall|last: Self, rr: Result<(), TraceError>|
                            #[trigger] w0.lights_run(
                                &last,
                                i as nat,
                                left,
                                        *spawn,
                                *hits,
                                *side,
                                *nearest,
                                *segment,
                                *refract,
                                rr,
                            ) ==> old(self).lights_run(
                                &last,
                                0,
                                old(self).lights.len() as nat,
                                        *spawn,
                                *hits,
                                *side,
                                *nearest,
                                *segment,
                                *refract,
                                rr,
                            ),
                        forall|last: Self, rr: Result<(), TraceError>|
                            #[trigger] self.samples(
                                &last,
                                l,
                                k as nat,
                                        *spawn,
                                *hits,
                                *side,
                                *nearest,
                                *segment,
                                *refract,
                                rr,
                            ) ==> w0.samples(
                                &last,
                                l,
                                0,
                                        *spawn,
                                *hits,
                                *side,
                                *nearest,
                                *segment,
                                *refract,
                                rr,
                            ),
                        forall|ll: &Light<P>| spawn.requires((ll,)),
                        forall|b: &B, x: &R| hits.requires((b, x)),
                        forall|a: Axis, s: &S, x: &R| side.requires((a, s, x)),
                        forall|v: &Vec<usize>, w: &Vec<T>, x: &R| nearest.requires((v, w, x)),
                        forall|x: &R, y: &D| segment.requires((x, y)),
                        forall|x: &R, i: bool, t: &T, y: &D, f: &F| refract.requires(
                            (x, i, t, y, f),
                        ),
                    decreases POINT_SAMPLES - k,
                {
                    let ghost cur = *self;
                    let ray = spawn(&self.lights[i]);
                    let hit = self.intersect(&ray, hits, side, nearest);
                    assert(spawn.ensures((&l,), ray));
                    assert(cur.queried(ray, *hits, *side, *nearest, hit));
                    let ghost next_k = (k + 1) as nat;
                    match hit {
                        Err(x) => {
                            let ghost e = Err::<(), TraceError>(x);
                            assert(cur.samples(&cur, l, k as nat, *spawn, *hits, *side, *nearest, *segment, *refract, e));
                            assert(w0.samples(&cur, l, 0, *spawn, *hits, *side, *nearest, *segment, *refract, e));
                            assert(w0.light_done(&cur, i as nat, *spawn, *hits, *side, *nearest, *segment, *refract, e));
                            assert(w0.lights_run(&cur, i as nat, left, *spawn, *hits, *side, *nearest, *segment, *refract, e));
                            return Err(x);
                        },
                        Ok(None) => {
                            assert forall|last: Self, rr: Result<(), TraceError>|
                                #[trigger] cur.samples(&last, l, next_k, *spawn, *hits, *side, *nearest, *segment, *refract, rr)
                                implies cur.samples(&last, l, k as nat, *spawn, *hits, *side, *nearest, *segment, *refract, rr) by {
                                assert(spawn.ensures((&l,), ray));
                                assert(cur.queried(ray, *hits, *side, *nearest, hit));
                            }
                        },
                        Ok(Some((e, _, _))) => {
                            proof {
                                let tree = cur.kdtree->0;
                                let h = choose|h: Option<(usize, D)>|
                                    #[trigger] tree.traversal(ray, cur.tris, *hits, *side, *nearest, h) && cur.resolves(h, hit);
                                assert(cur.resolves(h, hit));
                            }
                            if self.materials[e].is_optical() {
                                let ghost ray0 = ray;
                                let o = self.trace_ray(ray, hits, side, nearest, segment, refract);
                                let ghost mid = *self;
                                assert(cur.run(&mid, ray0, false, MAX_BOUNCES as nat, *hits, *side, *nearest, *segment, *refract, o));
                                match o {
                                    Err(x) => {
                                        let ghost e = Err::<(), TraceError>(x);
                                        assert(spawn.ensures((&l,), ray0));
                                        assert(cur.samples(&mid, l, k as nat, *spawn, *hits, *side, *nearest, *segment, *refract, e));
                                        assert(w0.samples(&mid, l, 0, *spawn, *hits, *side, *nearest, *segment, *refract, e));
                                        assert(w0.light_done(&mid, i as nat, *spawn, *hits, *side, *nearest, *segment, *refract, e));
                                        assert(w0.lights_run(&mid, i as nat, left, *spawn, *hits, *side, *nearest, *segment, *refract, e));
                                        return Err(x);
                                    },
                                    Ok(_) => {
                                        assert forall|last: Self, rr: Result<(), TraceError>|
                                            #[trigger] mid.samples(&last, l, next_k, *spawn, *hits, *side, *nearest, *segment, *refract, rr)
                                            implies cur.samples(&last, l, k as nat, *spawn, *hits, *side, *nearest, *segment, *refract, rr) by {
                                            assert(spawn.ensures((&l,), ray0));
                                            assert(cur.queried(ray0, *hits, *side, *nearest, hit));
                                            assert(cur.run(&mid, ray0, false, MAX_BOUNCES as nat, *hits, *side, *nearest, *segment, *refract, o));
                                        }
                                    },
                                }
                            } else {
                                assert forall|last: Self, rr: Result<(), TraceError>|
                                    #[trigger] cur.samples(&last, l, next_k, *spawn, *hits, *side, *nearest, *segment, *refract, rr)
                                    implies cur.samples(&last, l, k as nat, *spawn, *hits, *side, *nearest, *segment, *refract, rr) by {
                                    assert(spawn.ensures((&l,), ray));
                                    assert(cur.queried(ray, *hits, *side, *nearest, hit));
                                }
                            }
                        },
                    }
                    k = k + 1;
                }
                s = Ok(());
                let ghost mid = *self;
                assert(mid.samples(&mid, l, k as nat, *spawn, *hits, *side, *nearest, *segment, *refract, s));
                assert(w0.samples(&mid, l, 0, *spawn, *hits, *side, *nearest, *segment, *refract, s));
                assert(w0.light_done(&mid, i as nat, *spawn, *hits, *side, *nearest, *segment, *refract, s));
            }
            let ghost mid = *self;
            match s {
                Err(x) => {
                    assert(w0.lights_run(&mid, i as nat, left, *spawn, *hits, *side, *nearest, *segment, *refract, s));
                    return Err(x);
                },
                Ok(()) => {},
            }
            let ghost rest = (left - 1) as nat;
            let ghost next_i = (i + 1) as nat;
            assert(rest == (self.lights.len() - (i + 1)) as nat);
            assert forall|last: Self, res: Result<(), TraceError>|
                #[trigger] mid.lights_run(&last, next_i, rest, *spawn, *hits, *side, *nearest, *segment, *refract, res)
                implies w0.lights_run(&last, i as nat, left, *spawn, *hits, *side, *nearest, *segment, *refract, res) by {
                assert(w0.light_done(&mid, i as nat, *spawn, *hits, *side, *nearest, *segment, *refract, s));
            }
            i = i + 1;
        }
        let ghost fin = *self;
        assert(fin.lights_run(&fin, i as nat, (self.lights.len() - i) as nat, *spawn, *hits, *side, *nearest, *segment, *refract, Ok(())));
        Ok(())
    }

    /// The index buffer for drawing the triangle buffer: three consecutive
    /// indices per triangle, `0, 1, 2, 3, ...`.
    pub fn index_buffer(&self) -> (r: Vec<u32>)
        requires
            3 * self.model_data.len() <= u32::MAX + 1,
        ensures
            r.len() == 3 * self.model_data.len(),
            forall|k: int| 0 <= k < r.len() ==> r@[k] == k,
    {
        let mut r: Vec<u32> = Vec::new();
        let mut i: usize = 0;
        while i < self.model_data.len()
            invariant
                i <= self.model_data.len(),
                3 * self.model_data.len() <= u32::MAX + 1,
                r.len() == 3 * i,
                forall|k: int| 0 <= k < r.len() ==> r@[k] == k,
            decreases self.model_data.len() - i,
        {
            let t = indices((3 * i) as u32);
            r.push(t[0]);
            r.push(t[1]);
            r.push(t[2]);
            i = i + 1;
        }
        r
    }
}

} // verus!
