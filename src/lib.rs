//! A directory-listing engine: metadata projection, a multi-key comparator
//! with a stable sort, path decomposition, and caches for listings and state.

pub mod models;
pub mod text;
pub mod order;
pub mod dir;
pub mod path_ext;
pub mod system_time_ext;
pub mod api;
