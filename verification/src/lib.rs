//! The deciding half of a terminal workspace for agents.

pub mod cli;
pub mod host;
pub mod images;
pub mod letters;
pub mod logo;
pub mod markdown;
pub mod measure;
pub mod notify;
pub mod paths;
pub mod text;
pub mod words;
