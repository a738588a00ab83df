//! Planning, retrying, ordering and encoding for harvesting a paginated
//! feature service into one CSV table or one GeoJSON feature collection.

pub mod text;
pub mod metadata;
pub mod planner;
pub mod fetch;
pub mod harvest;
pub mod encode;
pub mod csv;
pub mod assemble;
