//! The command line of `ncp`: its commands with their arguments, and how the stored
//! configuration fills in what the command line leaves out.
//!
//! Reading the arguments (and the defaults written on them) belongs to the argument
//! parser outside the library; the parsed values arrive here as plain data.
use crate::utils::AppConfig;
use vstd::prelude::*;

verus! {

/// The parsed command line.
pub struct Cli {
    pub command: Option<Commands>,
}

/// The commands of `ncp`.
#[allow(inconsistent_fields)]
pub enum Commands {
    /// Port scan a host.
    Scan {
        host: String,
        range: String,
        timeout: String,
        out: Option<String>,
        udp: bool,
        subnet: Option<String>,
        concurrency: usize,
    },
    /// Send one file or directory to a remote host.
    Send {
        host: String,
        port: u16,
        path: String,
        compress: bool,
        encrypt: bool,
        passphrase: Option<String>,
    },
    /// Listen and receive files.
    Receive { port: u16, out_dir: Option<String>, passphrase: Option<String> },
    /// Send plain text directly over TCP.
    TextSend { host: String, port: u16, message: String, repeat: usize, interval: String },
    /// Listen for incoming plain text over TCP.
    TextListen { port: u16, keep_alive: bool },
    /// Make an HTTP request.
    Http {
        url: String,
        method: String,
        headers: bool,
        header_list: Vec<String>,
        body: Option<String>,
        repeat: usize,
        out: Option<String>,
        follow: bool,
        max_redirects: usize,
    },
    /// Live packet capture on an interface.
    Sniff {
        interface: Option<String>,
        proto: Option<String>,
        host: Option<String>,
        port: Option<u16>,
        dns: bool,
        pcap: Option<String>,
        stats: bool,
    },
    /// Open the full TUI dashboard.
    Dash,
}

/// The command to run: the one given, or the dashboard when there is none.
pub fn command_to_run(cli: Cli) -> (c: Commands)
    ensures
        match cli.command {
            Some(given) => c == given,
            None => c is Dash,
        },
{
    match cli.command {
        Some(c) => c,
        None => Commands::Dash,
    }
}

/// `given`, or `fallback` when `given` is empty.
pub fn or_when_empty(given: String, fallback: String) -> (s: String)
    ensures
        s@ == if given@.len() == 0 {
            fallback@
        } else {
            given@
        },
{
    if given.as_str().is_empty() {
        fallback
    } else {
        given
    }
}

/// The port range and timeout of a scan: those given, the configured defaults for any
/// left empty.
pub fn scan_settings(range: String, timeout: String, cfg: AppConfig) -> (r: (String, String))
    ensures
        r.0@ == if range@.len() == 0 {
            cfg.default_scan_range@
        } else {
            range@
        },
        r.1@ == if timeout@.len() == 0 {
            cfg.default_timeout@
        } else {
            timeout@
        },
{
    let AppConfig { default_interface: _, default_scan_range, default_timeout } = cfg;
    (or_when_empty(range, default_scan_range), or_when_empty(timeout, default_timeout))
}

/// The interface to sniff: the one given, else the configured default.
pub fn sniff_interface(interface: Option<String>, cfg: AppConfig) -> (r: Option<String>)
    ensures
        match interface {
            Some(i) => r == Some(i),
            None => r == cfg.default_interface,
        },
{
    match interface {
        Some(i) => Some(i),
        None => cfg.default_interface,
    }
}

} // verus!
