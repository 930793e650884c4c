//! Verified core of a point-cloud merge tool: a schema-header parser for the
//! record-oriented binary format, two point-selection algorithms (voxel
//! density comparison and scale-threshold partition), and the merge writer
//! that reassembles the output byte stream.

pub mod schema;
pub mod output;
pub mod select;
pub mod text;
