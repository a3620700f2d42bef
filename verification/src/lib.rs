//! Storage core of a version-control engine: content-derived identifiers, the
//! object model of trees, commits and merges, their canonical byte encoding,
//! and the contract a storage backend has to meet.

pub mod backend;
pub mod byte_order;
pub mod commit;
pub mod conflict;
pub mod content_hash;
pub mod hex_codec;
pub mod listing;
pub mod merge;
pub mod merged_tree;
pub mod next;
pub mod object_id;
pub mod prefix;
pub mod repo_path;
pub mod text;
pub mod timestamp;
pub mod tree;
pub mod tree_value;
