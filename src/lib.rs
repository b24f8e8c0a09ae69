//! Callsign prefix database: parses a country file into a table of
//! entities and resolves callsigns by exact and longest-prefix matching.
pub mod alias;
pub mod entity;
pub mod laws;
pub mod table;
pub mod text;

pub use alias::decode_alias;
pub use entity::{Annotation, CtyError, Entity, Field};
pub use table::Cty;
