//! Voxel building plans: materials, blueprints of positioned blocks, a library of named
//! blueprints, structural validation, and a few ready-made blueprints.
pub mod blueprint;
pub mod connectivity;
pub mod laws;
pub mod library;
pub mod material;
pub mod prebuilt;
pub mod prebuilt_laws;
pub mod text;
pub mod validator;

pub use blueprint::{Blueprint, BlueprintBlock, MaterialCounts, Position};
pub use library::BlueprintLib;
pub use material::Material;
pub use prebuilt::{bridge, castle_wall, crystal_garden, small_house, tower};
pub use validator::{StructureValidator, ValidationResult, MAX_BLOCKS};
