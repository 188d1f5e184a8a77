//! Core of a terminal document viewer: a greedy line wrapper and a
//! viewport/pagination engine that computes the visible slice of a document.
//!
//! The library is pure computation: it consumes already-decoded lines and
//! terminal dimensions and produces the rows to paint.  Reading files,
//! polling keys and painting the terminal are left to the surrounding
//! application.
use vstd::prelude::*;

pub mod pagination;
pub mod parsers;
pub mod text_utils;

verus! {

/// Builds the usage message shown when the command line is wrong,
/// with a caller-supplied explanation on the second line.
pub fn get_usage_error(additional_info: &str) -> (msg: String)
    ensures
        msg@ == "Usage: book <file_to_read> [OPTIONS]\n"@ + additional_info@,
{
    let mut msg = String::from_str("Usage: book <file_to_read> [OPTIONS]\n");
    msg.append(additional_info);
    msg
}

} // verus!
