//! Absolute filesystem paths in Unix, Windows drive-letter and Windows UNC
//! style, joined by content-sniffed separator rules and rendered as URIs.

pub mod encoding;
pub mod path;
pub mod text;
