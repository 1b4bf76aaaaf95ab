//! Kleio: people, events, timelines and local authoring, with verified contracts.
pub mod attribution;
pub mod event;
pub mod event_type;
pub mod event_validation;
pub mod genealogy_event;
pub mod genealogy_index;
pub mod import_batch;
pub mod links;
pub mod local_authoring;
pub mod model;
pub mod pack;
pub mod pack_builder;
pub mod pack_import;
pub mod pack_json;
pub mod pack_samples;
pub mod pack_toml;
pub mod sorted_text;
pub mod text;
pub mod timeline_document_io;
pub mod timeline_repository;
pub mod timeline_repository_async;
pub mod timeline_source;
pub mod tree;
pub mod tree_filter;
