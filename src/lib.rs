// A catalog of products and their SKUs: keyed record stores, identity allocation, the
// product-to-SKU consistency rules, and the parsers for quantities and units.
pub mod error;
pub mod hex_id;
pub mod product;
pub mod quantity;
pub mod service;
pub mod store;
pub mod text;
pub mod vat;
