//! Local private data authoring: the layout of workspaces and worlds, their
//! configuration, and the record files that authors start from.
pub mod collections;
pub mod config;
pub mod data;
pub mod data_validation;
pub mod ecs_compile;
pub mod error;
pub mod event_profiles;
pub mod filename_hints;
pub mod imports;
pub mod kinship;
pub mod locations;
pub mod married_names;
pub mod name_hints;
pub mod paths;
pub mod plan;
pub mod read;
pub mod records;
pub mod refs;
pub mod schema;
pub mod skeleton;
pub mod summary;
pub mod timeline_compile;
pub mod tree_compile;
pub mod views;
