//! Turns a system's proxy settings into shell commands that export them.
//!
//! Each platform hands over what it stores in its own form; the parsers under
//! [`work`] bring that to one [`work::ProxyList`], and a [`utils::Terminal`]
//! writes the list out as assignments in the syntax of one shell.

pub mod cli;
pub mod text;
pub mod utils;
pub mod work;
