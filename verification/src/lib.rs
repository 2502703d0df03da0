//! Resolves the column headers of tabular data to locations in a nested
//! document: collation of field names, the names under which a location may
//! appear in a header, and the table that a schema's locations and the
//! user's overrides give.

pub mod collation;
pub mod decimal;
pub mod escape;
pub mod laws;
pub mod names;
pub mod pointer;
pub mod resolve;
pub mod shape;
pub mod table;
pub mod text;

pub use collation::collate;
pub use names::derive_field_names;
pub use pointer::{Pointer, Token};
pub use resolve::{build_projections, Override, Projections, ShapeLocation, Warning};
pub use shape::{Exists, JsonType, Shape, TypeInfo, TypeSet};
pub use table::ProjectionTable;
