//! What the operations of the library do, stated on their arguments and results.
//!
//! Each law speaks of calls: `call_ensures(f, arguments, r)` says that `f` returned `r` on the
//! arguments. What follows from it is said in plain terms: characters, numbers and bytes, or how
//! the results of several calls relate.

pub mod ansi;
pub mod color;
pub mod command;
pub mod composer;
pub mod constants;
pub mod decode;
pub mod exit;
pub mod filter;
pub mod numbers;
pub mod session;
pub mod stream;
pub mod text;
