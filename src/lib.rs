//! Reference documentation for custom resource definitions: a schema tree is
//! flattened into addressable property paths, and each version is laid out as
//! an abstract document of headings, paragraphs, rules and tables.
pub mod anchor;
pub mod document;
pub mod path;
pub mod render;
pub mod schema;
