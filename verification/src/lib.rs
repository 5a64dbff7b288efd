//! Verified core of a JSON-driven ray tracer: the scene-description data
//! structures and the text parsing that turns the scene file into them.

pub mod brdf;
pub mod image;
pub mod json_deserialized;
pub mod json_parser;
pub mod json_structs;
pub mod light;
pub mod output;
pub mod scene;
pub mod text;
