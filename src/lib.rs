//! Verified core of a small ray tracer: the mesh description format, fan
//! triangulation of its faces, and the frame driver that fills an RGBA image
//! pixel by pixel.

pub mod frame;
pub mod load_geo_scene;
pub mod text;
pub mod transforming;
