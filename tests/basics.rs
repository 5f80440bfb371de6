use lenses::geometry::{indices, tube_faces, Axis};
use lenses::world::{Material, Model, TraceError, World};

type Scene = World<u32, f32, f32, u32, u32>;

#[test]
fn axis_cycles_through_all_three() {
    assert_eq!(Axis::X.next(), Axis::Y);
    assert_eq!(Axis::Y.next(), Axis::Z);
    assert_eq!(Axis::Z.next(), Axis::X);
    assert_eq!(Axis::X.next().next().next(), Axis::X);
}

#[test]
fn triangle_indices_are_consecutive() {
    assert_eq!(indices(0), [0, 1, 2]);
    assert_eq!(indices(9), [9, 10, 11]);
}

#[test]
fn add_model_returns_appended_range() {
    let mut w = Scene::new();
    let a = w.add_model(vec![10, 11, 12]);
    let b = w.add_model(vec![20, 21]);
    assert_eq!(a, Model { index: 0, count: 3 });
    assert_eq!(b, Model { index: 3, count: 2 });
    assert_eq!(w.model_data, vec![10, 11, 12, 20, 21]);
    assert_eq!(w.model_idx, vec![a, b]);
}

#[test]
fn add_entity_returns_sequential_ids() {
    let mut w = Scene::new();
    let m = w.add_model(vec![1, 2]);
    assert_eq!(w.add_entity(m, Material::Solid), 0);
    assert_eq!(w.add_entity(m, Material::Glass(1.5)), 1);
    assert_eq!(w.models.len(), 2);
    assert!(w.kdtree.is_none());
}

#[test]
fn model_from_tri_resolves_by_flattened_position() {
    let mut w = Scene::new();
    let a = w.add_model(vec![1, 2]);
    let empty = w.add_model(vec![]);
    let b = w.add_model(vec![3, 4, 5]);
    w.add_entity(a, Material::Solid);
    w.add_entity(empty, Material::Solid);
    w.add_entity(b, Material::Mirror);
    w.add_entity(a, Material::Glass(1.3));
    assert_eq!(w.model_from_tri(0), Ok(0));
    assert_eq!(w.model_from_tri(1), Ok(0));
    assert_eq!(w.model_from_tri(2), Ok(2));
    assert_eq!(w.model_from_tri(4), Ok(2));
    assert_eq!(w.model_from_tri(5), Ok(3));
    assert_eq!(w.model_from_tri(6), Ok(3));
    assert_eq!(w.model_from_tri(7), Err(TraceError::NoOwner(7)));
}

#[test]
fn world_tris_places_each_entity_in_order() {
    let mut w = Scene::new();
    let a = w.add_model(vec![1, 2]);
    let b = w.add_model(vec![3]);
    w.add_entity(b, Material::Solid);
    w.add_entity(a, Material::Solid);
    w.add_entity(b, Material::Solid);
    let shifted = w.world_tris(&|t: &u32, e: usize| *t + 100 * e as u32);
    assert_eq!(shifted, vec![3, 101, 102, 203]);
}

#[test]
fn index_buffer_counts_up() {
    let mut w = Scene::new();
    w.add_model(vec![7, 8]);
    assert_eq!(w.index_buffer(), vec![0, 1, 2, 3, 4, 5]);
    assert_eq!(Scene::new().index_buffer(), Vec::<u32>::new());
}

#[test]
fn material_optical_kinds() {
    assert!(!Material::<f32>::Solid.is_optical());
    assert!(Material::<f32>::Mirror.is_optical());
    assert!(Material::Glass(1.5f32).is_optical());
}

#[test]
fn tube_is_a_closed_surface() {
    let faces = tube_faces();
    assert_eq!(faces.len(), 12);
    assert_eq!(faces[0], (2, 1, 0));
    let mut edges = vec![];
    for &(a, b, c) in faces.iter() {
        edges.push((a, b));
        edges.push((b, c));
        edges.push((c, a));
    }
    for &(a, b) in edges.iter() {
        assert_eq!(edges.iter().filter(|&&e| e == (a, b)).count(), 1);
        assert_eq!(edges.iter().filter(|&&e| e == (b, a)).count(), 1);
    }
    // both ends and all four sides are used
    for corner in 0..8 {
        assert!(faces.iter().any(|&(a, b, c)| a == corner || b == corner || c == corner));
    }
}
