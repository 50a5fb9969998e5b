//! Converts a flat, indentation-encoded table into a nested tree and renders
//! that tree as JSON, either as a verbose array of named nodes or as a compact
//! name-keyed mapping.

pub mod builder;
pub mod laws;
pub mod layout;
pub mod json;
pub mod rows;
pub mod sheet;

pub use rows::ConvertError;
pub use sheet::parse_spreadsheet;

pub use builder::can_insert;
pub use builder::compact_of;
pub use builder::create_compact_collection;
pub use builder::insert_tree;
pub use builder::inserted;
pub use layout::CompactCollection;
pub use layout::CompactEntry;
pub use layout::CompactView;
pub use layout::NeighbourhoodPoint;
pub use layout::NeighbourhoodPoints;
pub use layout::VerboseEntry;
pub use layout::VerboseView;
