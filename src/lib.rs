//! Pulls a function body, together with a chosen set of the declarations it
//! leans on, out of a Rust source file and turns it into the text of a
//! documentation example.
use vstd::prelude::*;

pub mod decl;
pub mod error;
pub mod extract;
pub mod laws;
pub mod order;
pub mod request;
pub mod syntax;
pub mod text;

verus! {

/// A function whose documentation is assembled from a separate example file.
pub fn my_function() {
}

} // verus!
