pub mod asset;
pub mod path;
pub mod scan;
pub mod schema;
