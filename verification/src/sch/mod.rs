//! Schematic attributes and the bill-of-materials rules applied to them.
pub mod bom;
pub mod entries;
pub mod grouping;
pub mod value;
