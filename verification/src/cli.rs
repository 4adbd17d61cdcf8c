//! What the user asks for on the command line, as plain values.

use crate::utils::Terminal;
use vstd::prelude::*;

verus! {

/// The whole command line.
#[derive(Debug)]
pub struct Args {
    /// What is to be done.
    pub command: Commands,
}

/// What is to be done.
#[derive(Debug)]
pub enum Commands {
    /// Write the script that sets the proxy variables in `terminal`.
    Init { terminal: Terminal, options: Box<Options> },
    /// Show the proxy variables that the environment holds now.
    Cat,
}

/// How the script is made and where it goes.
#[derive(Debug)]
pub struct Options {
    /// The file to write the script to, in place of the standard output.
    pub output: Option<String>,
    /// The addresses to ask the system's proxy resolver about.
    pub query: QueryOptions,
    /// The values that take the place of what the system holds.
    pub overrides: OverrideOptions,
}

/// The addresses to ask the system's proxy resolver about, where the system
/// has one.
#[derive(Debug)]
pub struct QueryOptions {
    /// The address whose proxy becomes the one for HTTP.
    pub http_query_addr: String,
    /// The address whose proxy becomes the one for HTTPS.
    pub https_query_addr: String,
    /// The address whose proxy becomes the one for FTP.
    pub ftp_query_addr: String,
    /// The address whose proxy becomes the one for everything else.
    pub all_query_addr: String,
    /// The addresses that are listed in `no_proxy` if they need no proxy.
    pub no_query_addrs: Vec<String>,
}

/// The values that take the place of what the system holds.
#[derive(Debug)]
pub struct OverrideOptions {
    /// The proxy for HTTP.
    pub http_proxy: Option<String>,
    /// The proxy for HTTPS.
    pub https_proxy: Option<String>,
    /// The proxy for FTP.
    pub ftp_proxy: Option<String>,
    /// The proxy for everything else.
    pub all_proxy: Option<String>,
    /// The hosts that are reached without a proxy.
    pub no_proxy: Option<String>,
    /// Leave the system's settings unread.
    pub no_detect: bool,
    /// Take a bare IPv4 address and port for a SOCKS5 proxy that resolves
    /// names itself.
    pub force_socks5h: bool,
}

} // verus!
