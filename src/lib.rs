//! Extraction of water-system buyer/seller relationships from parsed detail
//! pages: locating captioned tables, reading labelled values, cutting relationship
//! cells into fields, and resolving them into systems and relationships that are
//! recorded once per natural key.
pub mod config;
pub mod document;
pub mod extract;
pub mod model;
pub mod resolve;
pub mod store;
pub mod text;

pub use model::{BuyerSellerRelationship, RawRow, WaterDetail};
