//! A small recursive ray tracer over spheres with mirror materials.
//!
//! `vecs` holds the three-component vector and the ray, generic over the
//! component type; `objects` the mirror material's reflection and tint;
//! `trace` the decision taken for each traced ray (nearest hit, background,
//! or an exhausted depth budget); `tiles` the tiling of the image, the
//! outward spiral in which tiles are rendered, and the byte layout in which a
//! finished tile is handed out.

pub mod objects;
pub mod tiles;
pub mod trace;
pub mod vecs;
