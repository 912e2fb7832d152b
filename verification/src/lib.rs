//! Verified core of the dxpdf HTTP service.

pub mod binary32;
pub mod command;
pub mod config;
pub mod engine;
pub mod fraction;
pub mod image_dpi;
pub mod literal;
pub mod server;
pub mod text;
pub mod winsvc;

pub use vstd::hash_map::StringHashMap;
