use lenses::geometry::Axis;
use lenses::kdtree::{build_kdtree, KDNode, MAX_DEPTH};
use lenses::world::{Light, Material, Outcome, Step, TraceError, World};

type V = [f32; 3];
type Tri = [V; 3];
type Bx = (V, V);

#[derive(Clone, Copy, Debug)]
struct Ray {
    o: V,
    d: V,
}

type Scene = World<Tri, f32, f32, Bx, V>;

fn sub(a: V, b: V) -> V {
    [a[0] - b[0], a[1] - b[1], a[2] - b[2]]
}

fn add(a: V, b: V) -> V {
    [a[0] + b[0], a[1] + b[1], a[2] + b[2]]
}

fn scale(a: V, k: f32) -> V {
    [a[0] * k, a[1] * k, a[2] * k]
}

fn dot(a: V, b: V) -> f32 {
    a[0] * b[0] + a[1] * b[1] + a[2] * b[2]
}

fn cross(a: V, b: V) -> V {
    [a[1] * b[2] - a[2] * b[1], a[2] * b[0] - a[0] * b[2], a[0] * b[1] - a[1] * b[0]]
}

fn normalize(a: V) -> V {
    scale(a, 1.0 / dot(a, a).sqrt())
}

fn ray(o: V, d: V) -> Ray {
    Ray { o, d: normalize(d) }
}

fn tri_hit(t: &Tri, r: &Ray) -> Option<f32> {
    let e1 = sub(t[1], t[0]);
    let e2 = sub(t[2], t[0]);
    let rov0 = sub(r.o, t[0]);
    let n = cross(e1, e2);
    let q = cross(rov0, r.d);
    let ang = dot(r.d, n);
    if ang == 0.0 {
        return None;
    }
    let d = 1.0 / ang;
    let u = d * dot(scale(q, -1.0), e2);
    let v = d * dot(q, e1);
    let t = d * dot(scale(n, -1.0), rov0);
    if u < 0.0 || v < 0.0 || u + v > 1.0 || t < 0.0 {
        None
    } else {
        Some(t)
    }
}

fn fit(t: &Tri) -> Bx {
    let mut lo = t[0];
    let mut hi = t[0];
    for v in t.iter() {
        for k in 0..3 {
            lo[k] = lo[k].min(v[k]);
            hi[k] = hi[k].max(v[k]);
        }
    }
    (lo, hi)
}

fn union(a: Bx, b: Bx) -> Bx {
    let mut r = a;
    for k in 0..3 {
        r.0[k] = r.0[k].min(b.0[k]);
        r.1[k] = r.1[k].max(b.1[k]);
    }
    r
}

fn bounds(ts: &Vec<Tri>) -> Bx {
    ts.iter().fold(([0.0; 3], [0.0; 3]), |a, t| union(a, fit(t)))
}

fn ax(a: Axis) -> usize {
    match a {
        Axis::X => 0,
        Axis::Y => 1,
        Axis::Z => 2,
    }
}

fn split(b: &Bx, a: Axis) -> (Bx, Bx, f32) {
    let k = ax(a);
    let mid = (b.0[k] + b.1[k]) / 2.0;
    let mut l = *b;
    let mut r = *b;
    l.1[k] = mid;
    r.0[k] = mid;
    (l, r, mid)
}

fn classify(t: &Tri, a: Axis, v: &f32) -> (bool, bool) {
    let k = ax(a);
    (t.iter().any(|p| p[k] <= *v), t.iter().any(|p| p[k] >= *v))
}

fn box_hit(b: &Bx, r: &Ray) -> bool {
    let mut tmin = f32::NEG_INFINITY;
    let mut tmax = f32::INFINITY;
    for k in 0..3 {
        if r.d[k] == 0.0 {
            if r.o[k] < b.0[k] || r.o[k] > b.1[k] {
                return false;
            }
        } else {
            let t1 = (b.0[k] - r.o[k]) / r.d[k];
            let t2 = (b.1[k] - r.o[k]) / r.d[k];
            let (t1, t2) = if t1 > t2 { (t2, t1) } else { (t1, t2) };
            tmin = tmin.max(t1);
            tmax = tmax.min(t2);
            if tmin > tmax {
                return false;
            }
        }
    }
    true
}

fn side(a: Axis, v: &f32, r: &Ray) -> (bool, bool) {
    let k = ax(a);
    (r.o[k] - *v < 0.0, r.d[k] < 0.0)
}

fn nearest(items: &Vec<usize>, ts: &Vec<Tri>, r: &Ray) -> Option<(usize, f32)> {
    items
        .iter()
        .filter_map(|&i| tri_hit(&ts[i], r).map(|d| (i, d)))
        .filter(|(_, d)| *d > 0.000001)
        .min_by(|a, b| a.1.partial_cmp(&b.1).unwrap())
}

fn brute(ts: &Vec<Tri>, r: &Ray) -> Option<(usize, f32)> {
    let all: Vec<usize> = (0..ts.len()).collect();
    nearest(&all, ts, r)
}

struct Lcg(u64);

impl Lcg {
    fn next(&mut self) -> f32 {
        self.0 = self.0.wrapping_mul(6364136223846793005).wrapping_add(1442695040888963407);
        ((self.0 >> 40) as f32) / ((1u64 << 24) as f32)
    }

    fn point(&mut self, lo: f32, hi: f32) -> V {
        [
            lo + (hi - lo) * self.next(),
            lo + (hi - lo) * self.next(),
            lo + (hi - lo) * self.next(),
        ]
    }
}

fn random_tris(g: &mut Lcg, n: usize) -> Vec<Tri> {
    (0..n)
        .map(|_| {
            let c = g.point(-5.0, 5.0);
            [add(c, g.point(-0.5, 0.5)), add(c, g.point(-0.5, 0.5)), add(c, g.point(-0.5, 0.5))]
        })
        .collect()
}

fn leaves<S, B>(n: &KDNode<S, B>, depth: usize, out: &mut Vec<(usize, Vec<usize>)>) {
    match n {
        KDNode::Branch(_, _, _, l, r) => {
            leaves(l, depth + 1, out);
            leaves(r, depth + 1, out);
        }
        KDNode::Leaf(_, items) => out.push((depth, items.clone())),
    }
}

#[test]
fn kdtree_keeps_every_triangle_within_depth() {
    let mut g = Lcg(7);
    let ts = random_tris(&mut g, 300);
    let tree = build_kdtree(&ts, bounds(&ts), &split, &classify);
    let mut ls = vec![];
    leaves(&tree, 0, &mut ls);
    for i in 0..ts.len() {
        assert!(ls.iter().any(|(_, items)| items.contains(&i)));
    }
    assert!(ls.iter().all(|(d, _)| *d <= MAX_DEPTH));
    assert!(ls.len() > 1);
}

#[test]
fn kdtree_stops_on_triangles_spanning_every_split() {
    let big: Tri = [[-10.0, -10.0, -10.0], [10.0, 10.0, 10.0], [10.0, -10.0, 10.0]];
    let ts = vec![big, big, big];
    let tree = build_kdtree(&ts, bounds(&ts), &split, &classify);
    match tree {
        KDNode::Leaf(_, items) => assert_eq!(items, vec![0, 1, 2]),
        KDNode::Branch(..) => panic!("expected a single leaf"),
    }
}

#[test]
fn kdtree_single_triangle_is_leaf() {
    let ts = vec![[[0.0, 0.0, 0.0], [1.0, 0.0, 0.0], [0.0, 1.0, 0.0]]];
    let tree = build_kdtree(&ts, bounds(&ts), &split, &classify);
    assert!(matches!(tree, KDNode::Leaf(_, ref items) if items == &vec![0]));
    let empty: Vec<Tri> = vec![];
    let tree = build_kdtree(&empty, bounds(&empty), &split, &classify);
    assert!(matches!(tree, KDNode::Leaf(_, ref items) if items.is_empty()));
}

#[test]
fn kdtree_agrees_with_brute_force() {
    let mut g = Lcg(42);
    let ts = random_tris(&mut g, 200);
    let tree = build_kdtree(&ts, bounds(&ts), &split, &classify);
    let total = 500;
    let mut agree = 0;
    let mut hits = 0;
    for _ in 0..total {
        let r = ray(g.point(-8.0, 8.0), g.point(-1.0, 1.0));
        let a = tree.intersect(&r, &ts, &box_hit, &side, &nearest);
        let b = brute(&ts, &r);
        if b.is_some() {
            hits += 1;
        }
        let same = match (a, b) {
            (None, None) => true,
            (Some((_, x)), Some((_, y))) => (x - y).abs() < 1e-4,
            _ => false,
        };
        if same {
            agree += 1;
        }
    }
    assert!(hits > 20);
    assert!(agree * 100 >= total * 95);
}

#[test]
fn kdtree_axis_parallel_ray() {
    let ts = vec![
        [[0.0, -1.0, -1.0], [0.0, 1.0, -1.0], [0.0, 0.0, 1.0]],
        [[3.0, -1.0, -1.0], [3.0, 1.0, -1.0], [3.0, 0.0, 1.0]],
    ];
    let tree = build_kdtree(&ts, bounds(&ts), &split, &classify);
    let r = ray([-2.0, 0.0, 0.0], [1.0, 0.0, 0.0]);
    let h = tree.intersect(&r, &ts, &box_hit, &side, &nearest).unwrap();
    assert_eq!(h.0, 0);
    assert!((h.1 - 2.0).abs() < 1e-6);
    let back = ray([5.0, 0.0, 0.0], [-1.0, 0.0, 0.0]);
    let h = tree.intersect(&back, &ts, &box_hit, &side, &nearest).unwrap();
    assert_eq!(h.0, 1);
    assert!((h.1 - 2.0).abs() < 1e-6);
    let miss = ray([-2.0, 5.0, 0.0], [1.0, 0.0, 0.0]);
    assert!(tree.intersect(&miss, &ts, &box_hit, &side, &nearest).is_none());
}

/// A square in the plane x = `x`, as two triangles.
fn square(x: f32, h: f32) -> Vec<Tri> {
    vec![
        [[x, -h, -h], [x, h, -h], [x, h, h]],
        [[x, -h, -h], [x, h, h], [x, -h, h]],
    ]
}

fn segment(r: &Ray, d: &f32) -> Vec<Tri> {
    let t = add(r.o, scale(r.d, *d));
    vec![[r.o, t, add(t, [0.0, 0.005, 0.0])]]
}

fn normal(t: &Tri) -> V {
    scale(normalize(cross(sub(t[1], t[0]), sub(t[2], t[0]))), -1.0)
}

fn refract_with(r: &Ray, inside: bool, t: &Tri, d: &f32, eta: &f32) -> Option<Ray> {
    let mut n = normal(t);
    if dot(r.d, n) > 0.0 {
        n = scale(n, -1.0);
    }
    let cos_theta = dot(scale(r.d, -1.0), n).min(1.0);
    let sin_theta = (1.0 - cos_theta * cos_theta).sqrt();
    let ratio = if inside { *eta } else { 1.0 / *eta };
    if sin_theta * ratio > 1.0 {
        return None;
    }
    let perp = scale(add(r.d, scale(n, cos_theta)), ratio);
    let para = scale(n, -(1.0 - dot(perp, perp)).abs().sqrt());
    Some(ray(add(r.o, scale(r.d, *d)), add(perp, para)))
}

/// A glass slab between x = -0.05 and x = 0.05 and a solid wall at x = 3.
fn slab_scene() -> Scene {
    let mut w = Scene::new();
    let mut slab = square(-0.05, 1.0);
    slab.extend(square(0.05, 1.0));
    let lens = w.add_model(slab);
    let wall = w.add_model(square(3.0, 4.0));
    w.add_entity(lens, Material::Glass(1.3));
    w.add_entity(wall, Material::Solid);
    w
}

fn place(t: &Tri, _e: usize) -> Tri {
    *t
}

fn run_trace(w: &mut Scene) -> Result<(), TraceError> {
    let refract = refract_with;
    let spawn = |l: &Light<V>| match l {
        Light::Laser(o, d) => ray(*o, *d),
        Light::Point(o) => ray(*o, [1.0, 0.0, 0.0]),
    };
    w.trace(&spawn, &box_hit, &side, &nearest, &segment, &refract)
}

fn build(w: &mut Scene) {
    w.build_kdtree(&place, &bounds, &split, &classify);
}

#[test]
fn trace_before_build_is_an_error() {
    let mut w = slab_scene();
    w.add_light(Light::Laser([-2.0, 0.0, 0.0], [1.0, 0.0, 0.0]));
    assert_eq!(run_trace(&mut w), Err(TraceError::NotBuilt));
    assert!(w.lines.is_empty());
    let r = ray([-2.0, 0.0, 0.0], [1.0, 0.0, 0.0]);
    assert_eq!(
        w.intersect(&r, &box_hit, &side, &nearest),
        Err(TraceError::NotBuilt)
    );
}

#[test]
fn adding_an_entity_drops_the_index() {
    let mut w = slab_scene();
    build(&mut w);
    assert!(w.kdtree.is_some());
    let m = w.model_idx[0];
    w.add_entity(m, Material::Solid);
    assert!(w.kdtree.is_none());
}

#[test]
fn laser_through_flat_slab_goes_straight() {
    let mut w = slab_scene();
    w.add_light(Light::Laser([-2.0, 0.0, 0.0], [1.0, 0.0, 0.0]));
    build(&mut w);
    assert_eq!(run_trace(&mut w), Ok(()));
    // into the slab, across it, on to the wall
    assert_eq!(w.lines.len(), 3);
    let ends: Vec<V> = w
        .lines
        .iter()
        .map(|m| w.model_data[m.index as usize][1])
        .collect();
    assert!((ends[0][0] + 0.05).abs() < 1e-5);
    assert!((ends[1][0] - 0.05).abs() < 1e-5);
    assert!((ends[2][0] - 3.0).abs() < 1e-4);
    for e in ends.iter() {
        assert!(e[1].abs() < 1e-5 && e[2].abs() < 1e-5);
    }
}

#[test]
fn trace_ray_outcomes() {
    let mut w = slab_scene();
    build(&mut w);
    let refract = refract_with;
    let straight = ray([-2.0, 0.0, 0.0], [1.0, 0.0, 0.0]);
    let out = w.trace_ray(straight, &box_hit, &side, &nearest, &segment, &refract);
    assert_eq!(out, Ok(Outcome::Absorbed(1)));
    let away = ray([-2.0, 0.0, 0.0], [-1.0, 0.0, 0.0]);
    let before = w.lines.len();
    let out = w.trace_ray(away, &box_hit, &side, &nearest, &segment, &refract);
    assert_eq!(out, Ok(Outcome::Escaped));
    assert_eq!(w.lines.len(), before);
}

#[test]
fn steep_ray_in_glass_is_trapped() {
    // Inside glass of index 1.5, 60 degrees from the normal exceeds the
    // critical angle (about 41.8 degrees).
    let mut w = Scene::new();
    let m = w.add_model(square(0.0, 10.0));
    w.add_entity(m, Material::Glass(1.5));
    build(&mut w);
    let refract = |r: &Ray, _inside: bool, t: &Tri, d: &f32, eta: &f32| refract_with(r, true, t, d, eta);
    let r = ray([-1.0, 0.0, 0.0], [0.5, 0.866, 0.0]);
    let out = w.trace_ray(r, &box_hit, &side, &nearest, &segment, &refract);
    assert_eq!(out, Ok(Outcome::Trapped(0)));
    assert_eq!(w.lines.len(), 1);
    // 30 degrees stays below it and passes
    let r = ray([-1.0, 0.0, 0.0], [0.866, 0.5, 0.0]);
    let out = w.trace_ray(r, &box_hit, &side, &nearest, &segment, &refract);
    assert_eq!(out, Ok(Outcome::Escaped));
    let last = w.lines[w.lines.len() - 1];
    let after = w.model_data[last.index as usize];
    assert!((after[1][0]).abs() < 1e-5);
}

#[test]
fn mirror_ends_the_path() {
    let mut w = Scene::new();
    let m = w.add_model(square(1.0, 1.0));
    w.add_entity(m, Material::Mirror);
    build(&mut w);
    let refract = refract_with;
    let r = ray([0.0, 0.0, 0.0], [1.0, 0.0, 0.0]);
    let out = w.trace_ray(r, &box_hit, &side, &nearest, &segment, &refract);
    assert_eq!(out, Ok(Outcome::Mirrored(0)));
    assert_eq!(w.lines.len(), 1);
}

#[test]
fn endless_refraction_stops_at_bounce_limit() {
    let mut w = Scene::new();
    let mut panes = square(-1.0, 1.0);
    panes.extend(square(1.0, 1.0));
    let m = w.add_model(panes);
    w.add_entity(m, Material::Glass(1.0));
    build(&mut w);
    // turn the ray back at every pane
    let bounce = |r: &Ray, _inside: bool, _t: &Tri, d: &f32, _eta: &f32| {
        Some(Ray { o: add(r.o, scale(r.d, *d)), d: scale(r.d, -1.0) })
    };
    let r = ray([0.0, 0.0, 0.0], [1.0, 0.0, 0.0]);
    let out = w.trace_ray(r, &box_hit, &side, &nearest, &segment, &bounce);
    assert_eq!(out, Ok(Outcome::BounceLimit));
    assert_eq!(w.lines.len(), lenses::world::MAX_BOUNCES);
}

#[test]
fn unowned_triangle_is_an_error() {
    let mut w = slab_scene();
    build(&mut w);
    let bogus = |_items: &Vec<usize>, _ts: &Vec<Tri>, _r: &Ray| Some((99usize, 1.0f32));
    let r = ray([-2.0, 0.0, 0.0], [1.0, 0.0, 0.0]);
    assert_eq!(
        w.intersect(&r, &box_hit, &side, &bogus),
        Err(TraceError::NoOwner(99))
    );
}

#[test]
fn point_light_traces_only_optical_hits() {
    // The point light's rays all go along +x: through the slab to the wall.
    let mut w = slab_scene();
    w.add_light(Light::Point([-2.0, 0.0, 0.0]));
    build(&mut w);
    assert_eq!(run_trace(&mut w), Ok(()));
    assert_eq!(w.lines.len(), 3 * lenses::world::POINT_SAMPLES);

    // Seen from behind the wall, the first hit is solid: nothing is traced.
    let mut w = slab_scene();
    w.add_light(Light::Point([5.0, 0.0, 0.0]));
    build(&mut w);
    let spawn = |l: &Light<V>| match l {
        Light::Laser(o, d) => ray(*o, *d),
        Light::Point(o) => ray(*o, [-1.0, 0.0, 0.0]),
    };
    let refract = refract_with;
    assert_eq!(
        w.trace(&spawn, &box_hit, &side, &nearest, &segment, &refract),
        Ok(())
    );
    assert!(w.lines.is_empty());
}

#[test]
fn trace_step_reports_each_answer() {
    let mut w = slab_scene();
    build(&mut w);
    let refract = refract_with;
    let into = ray([-2.0, 0.0, 0.0], [1.0, 0.0, 0.0]);
    match w.trace_step(&into, false, &box_hit, &side, &nearest, &segment, &refract) {
        Ok(Step::Continue(n)) => {
            assert!((n.o[0] + 0.05).abs() < 1e-5);
            assert!((n.d[0] - 1.0).abs() < 1e-5);
        }
        _ => panic!("expected a refracted ray"),
    }
    assert_eq!(w.lines.len(), 1);
    let away = ray([-2.0, 0.0, 0.0], [-1.0, 0.0, 0.0]);
    let s = w.trace_step(&away, false, &box_hit, &side, &nearest, &segment, &refract);
    assert!(matches!(s, Ok(Step::Stop(Outcome::Escaped))));
    assert_eq!(w.lines.len(), 1);
    let to_wall = ray([2.0, 0.0, 0.0], [1.0, 0.0, 0.0]);
    let s = w.trace_step(&to_wall, false, &box_hit, &side, &nearest, &segment, &refract);
    assert!(matches!(s, Ok(Step::Stop(Outcome::Absorbed(1)))));
    assert_eq!(w.lines.len(), 2);
}

#[test]
fn build_records_the_flattened_buffer() {
    let mut w = slab_scene();
    let shift = |t: &Tri, e: usize| {
        let d = e as f32;
        [add(t[0], [0.0, d, 0.0]), add(t[1], [0.0, d, 0.0]), add(t[2], [0.0, d, 0.0])]
    };
    w.build_kdtree(&shift, &bounds, &split, &classify);
    let flat = w.world_tris(&shift);
    assert_eq!(w.tris, flat);
    assert_eq!(w.tris.len(), 6);
    // the wall, entity 1, is moved up by one
    assert_eq!(w.tris[4][0], [3.0, -3.0, -4.0]);
    let root = match w.kdtree.as_ref().unwrap() {
        KDNode::Branch(a, _, b, _, _) => {
            assert_eq!(*a, Axis::X);
            *b
        }
        KDNode::Leaf(b, _) => *b,
    };
    assert_eq!(root, bounds(&flat));
}

#[test]
fn kdtree_splits_separated_triangles_at_midpoint() {
    let ts = vec![
        [[0.0, 0.0, 0.0], [1.0, 0.0, 0.0], [0.0, 1.0, 0.0]],
        [[3.0, 0.0, 0.0], [4.0, 0.0, 0.0], [3.0, 1.0, 0.0]],
    ];
    let b = bounds(&ts);
    assert_eq!(b, ([0.0, 0.0, 0.0], [4.0, 1.0, 0.0]));
    match build_kdtree(&ts, b, &split, &classify) {
        KDNode::Branch(a, at, bb, l, r) => {
            assert_eq!(a, Axis::X);
            assert_eq!(at, 2.0);
            assert_eq!(bb, b);
            assert!(matches!(*l, KDNode::Leaf(lb, ref v) if v == &vec![0] && lb == ([0.0, 0.0, 0.0], [2.0, 1.0, 0.0])));
            assert!(matches!(*r, KDNode::Leaf(rb, ref v) if v == &vec![1] && rb == ([2.0, 0.0, 0.0], [4.0, 1.0, 0.0])));
        }
        KDNode::Leaf(..) => panic!("expected a split"),
    }
}
