//! Block state and model resolution engine for cube-grid game assets.
//!
//! Given a block's property assignments and a library of blockstate rule
//! records and model geometry records, the engine selects the matching model
//! placements, resolves model inheritance and texture indirection, applies
//! face rotation remapping, and emits per-face quad geometry with culling.

pub mod biome;
pub mod blockstate;
pub mod builder;
pub mod data_raw;
pub mod errors;
pub mod expression;
pub mod loader;
pub mod math;
pub mod model;
pub mod render;
pub mod util;
pub mod uuid;
