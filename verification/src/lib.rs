//! The decisions behind a `.pxar` backup client, separated from its input and output.

pub mod acl;
pub mod archiver;
pub mod backup_repo;
pub mod bytes;
pub mod copy;
pub mod error;
pub mod exclude_laws;
pub mod excludes;
pub mod files;
pub mod flags;
pub mod fs_magic;
pub mod hardlinks;
pub mod laws;
pub mod metadata;
pub mod metadata_laws;
pub mod mode;
pub mod open;
pub mod patterns;
pub mod plan;
pub mod services;
pub mod sort;
pub mod step_laws;
pub mod steps;
pub mod stream;
pub mod text;
pub mod text_laws;
pub mod tree;
pub mod tree_laws;
