//! Remote document sources for a desktop wiki.
//!
//! Nothing here sends a request or reads a file: each task is a value that names what to do next and
//! takes what came of it.

pub mod cache_key;
pub mod core_content_client;
pub mod core_content_laws;
pub mod desktop;
pub mod encoding;
pub mod json;
pub mod login;
pub mod login_laws;
pub mod source_path;
pub mod text;
pub mod text_laws;
pub mod text_map;
pub mod transport;
pub mod xecm_client;
pub mod xecm_laws;
