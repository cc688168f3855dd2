//! Layout directives for structure declarations.
//!
//! A structure declaration carries a `size = N` directive and, on some of its
//! fields, `loc(start:end)` directives that assert the inclusive byte range the
//! field occupies. This crate reads those directives, removes them from the
//! declaration, and builds the list of layout checks that a verification
//! routine performs against the layout the compiler really produced.

pub mod text;
pub mod error;
pub mod literal;
pub mod model;
pub mod directive;
pub mod synth;
pub mod emit;
pub mod layout;

use vstd::prelude::*;
use crate::directive::{extract_ranges, parse_size};
use crate::emit::{clean_structure, expansion_of, Expansion};
use crate::error::ExpandError;
use crate::model::Structure;
use crate::synth::synthesize;

verus! {

/// Expands one declaration: reads the size directive from `args` and the
/// range directives from the fields, builds the verification routine and
/// returns it with the declaration cleaned of its directives. Any structural
/// error stops the expansion and nothing is produced.
pub fn test_structure(args: &str, structure: Structure) -> (r: Result<Expansion, ExpandError>)
    ensures
        match expansion_of(args@, structure@) {
            Ok(expansion) => r is Ok && r->Ok_0@ == expansion,
            Err(e) => r == Err::<Expansion, ExpandError>(e),
        },
{
    let size: u64 = match parse_size(args) {
        Ok(size) => size,
        Err(e) => {
            return Err(e);
        },
    };
    let directives = match extract_ranges(&structure) {
        Ok(directives) => directives,
        Err(e) => {
            return Err(e);
        },
    };
    let routine = match synthesize(&structure, &directives, size) {
        Ok(routine) => routine,
        Err(e) => {
            return Err(e);
        },
    };
    Ok(Expansion { structure: clean_structure(structure), routine })
}

} // verus!
