// Geometric core of a tracer that follows light through lenses and walls.
//
// `geometry`: the axes a spatial index splits along, and the index layout of
// the triangles drawn for rays. `kdtree`: a kd-tree over a triangle buffer,
// its construction and its front-to-back nearest-hit walk. `world`: a scene
// of entities sharing one triangle buffer, the resolution of a triangle to its
// entity, and the tracing of rays from lights through glass. `ply`: the
// header and faces of ASCII PLY meshes.
//
// Coordinates, distances and refractive indices are left to the caller: the
// types here are generic over them, and the tests on them (does a ray hit a
// box, where does it leave a surface) are passed in as functions.

pub mod geometry;
pub mod kdtree;
pub mod ply;
pub mod world;
