//! Core of the `rtk` command-line proxy: what it does with the output of the commands it runs.
//!
//! The library does no input or output of its own. It decodes and filters text, decides what is
//! captured, and tells its caller what to run, write and report.

pub mod ansi;
pub mod capture;
pub mod chars;
pub mod color;
pub mod command;
pub mod composer;
pub mod constants;
pub mod decode;
pub mod exit;
pub mod filter;
pub mod laws;
pub mod lines;
pub mod numbers;
pub mod outside;
pub mod regex_filter;
pub mod session;
pub mod stream;
pub mod text;
