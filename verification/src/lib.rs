//! Volume discovery, mount exclusion, removal guards and Darwin bulk-metadata records for a
//! disk-usage treemap, together with the decisions that the treemap's painter makes per tile.
pub mod bulk;
pub mod path;
pub mod text;
pub mod volumes;
pub mod mosaic;
pub mod appearance;
