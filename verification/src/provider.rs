//! Source providers.

pub mod ytdlp;
