//! Hierarchical sheets of a KiCad schematic: the sheets on a canvas, the pins on
//! their boxes, and the tree of files that the sheets span.
//!
//! The library decides and computes on values; reading and writing files is left
//! to its callers. Lengths are counted in units of 10^-12 mm and angles in units
//! of 10^-12 degrees, and paths are text with `/` between the names.
//!
//! - [`model`] holds sheets, pins and labels; [`refusal`] the ways in which a
//!   request is turned down; [`catalogue`] the tools that are offered.
//! - [`geometry`] says where on a sheet box a pin may be; [`pins`] adds, edits and
//!   deletes pins; [`import`] makes pins for the labels of a child.
//! - [`sheets`] edits, moves and deletes sheets; [`new_sheets`] plans new ones and
//!   copies; [`commit`] checks an edit before and after it is written.
//! - [`hierarchy`], [`renumber`] and [`validation`] walk the tree of sheets over
//!   the files listed as [`files`] has them; [`renumber_laws`] says what
//!   renumbering leaves behind.
//! - [`uuids`] gives a copied document new identities; [`root_uuid`] gives a
//!   document one of its own; [`uuid_laws`] says what a copy keeps.
//! - [`text`], [`numeral`] and [`paths`] are what the others rest on.
//! - [`sheet_laws`], [`import_laws`], [`tree_laws`] and [`document_laws`] say what
//!   each operation gives, in terms of what it is given; [`view_laws`] that the
//!   values they speak of are those at hand.

pub mod catalogue;
pub mod commit;
pub mod document_laws;
pub mod files;
pub mod geometry;
pub mod hierarchy;
pub mod import;
pub mod import_laws;
pub mod model;
pub mod new_sheets;
pub mod numeral;
pub mod paths;
pub mod pins;
pub mod refusal;
pub mod renumber;
pub mod renumber_laws;
pub mod root_uuid;
pub mod sheet_laws;
pub mod sheets;
pub mod text;
pub mod tree_laws;
pub mod uuid_laws;
pub mod uuids;
pub mod validation;
pub mod view_laws;
