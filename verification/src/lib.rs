pub mod json;
pub mod merge;
pub mod keys;
pub mod text;
pub mod title;
pub mod path;
pub mod config;
pub mod validate;
pub mod memory;
pub mod jsontext;
pub mod compose;
pub mod clipboard;
pub mod session;
pub mod lines;
pub mod image;
pub mod sandbox;
pub mod protocol;
pub mod cli;
pub mod mcp;
pub mod remote;
pub mod identity;
pub mod update;
