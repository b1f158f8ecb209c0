//! Dense grid cache of roads, claims, terrain and resources, one per region.

pub mod allowlist;
pub mod apply;
pub mod catalog;
pub mod coords;
pub mod decode;
pub mod grid;
pub mod harvestable;
pub mod index;
pub mod join;
pub mod map_laws;
pub mod meta;
pub mod resource_laws;
pub mod resource_map;
pub mod serve;
pub mod store;
pub mod type_dict;
pub mod watch;
