pub mod api;
pub mod cli;
pub mod compress;
pub mod dashboard;
pub mod discovery;
pub mod ffi;
pub mod http;
pub mod interfaces;
pub mod metrics;
pub mod panels;
pub mod scanner;
pub mod sniffer;
pub mod sorting;
pub mod text;
pub mod transfer;
pub mod utils;
