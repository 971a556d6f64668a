//! Building blocks of the content cache that a game patcher downloads from.

pub mod cache;
pub mod cache_laws;
pub mod digest;
pub mod file_map;
pub mod finalize;
pub mod finalize_laws;
pub mod globs;
pub mod manifest_laws;
pub mod options;
pub mod pki;
pub mod pki_laws;
pub mod run_laws;
pub mod text;
pub mod text_laws;
pub mod visit_laws;
