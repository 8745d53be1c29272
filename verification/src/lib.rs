//! The core of a recursive ray tracer that needs no floating-point
//! arithmetic: the containers a scene is read into, the reading of the scene
//! file's JSON and of its whole numbers, the expansion of meshes into
//! triangles, the kinds of material, and the decisions of the integrator.

pub mod dataforms;
pub mod json;
pub mod json_parser;
pub mod material;
pub mod renderer;
pub mod scene;
pub mod shapes;
