//! Decoding of OpenStreetMap primitive groups into nodes, ways and relations.
//!
//! A [`osmformat::PrimitiveBlock`] carries the string table and the coordinate
//! scale shared by the records of a [`osmformat::PrimitiveGroup`]. The
//! producers in [`groups`] turn the compact records (delta-coded integers,
//! string-table indices) into fully resolved [`objects`].

pub mod osmformat;
pub mod text;
pub mod objects;
pub mod decode;
pub mod records;
pub mod dense;
pub mod groups;
