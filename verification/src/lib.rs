//! Schema documentation: identifier keys, DBML rendering, snapshot
//! collection decisions and the standalone HTML export.
pub mod text;
pub mod name_map;
pub mod model;
pub mod keys;
pub mod dbml;
pub mod collector;
pub mod annotations;
pub mod request;
pub mod export;
