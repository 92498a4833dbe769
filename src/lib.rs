//! Interaction core of a node-graph editor (pin rules, registries, selection,
//! viewport and link geometry), with text offset conversions and accessibility
//! role names used by the surrounding toolkit.

pub mod pins;
pub mod geometry;
pub mod registry;
pub mod overlay;
pub mod background;
pub mod text_offsets;
pub mod roles;
