//! Analytical core of a binary-diffing tool.
//!
//! Two disassembled executables, each given as a call graph plus per-function
//! flow-graph records, are loaded into index-addressed graph stores, annotated
//! with deterministic MD-index fingerprints, and then paired function by
//! function by an ordered, configurable pipeline of matching steps driven to a
//! fixed point.

pub mod config;
pub mod graphs;
pub mod matching;
pub mod mdindex;
pub mod util;
pub mod version;

use vstd::prelude::*;

verus! {

/// Fatal errors raised while loading an export representation.
///
/// Either error aborts the whole load: no partial graph is ever returned.
#[derive(Clone, Copy, Debug, PartialEq, Eq, Structural)]
pub enum LoadError {
    /// Two consecutive vertices whose addresses are out of order; fields are
    /// the earlier (larger) address and the later (smaller) address.
    NotSorted { previous: u64, address: u64 },
    /// A vertex carried a demangled name without a mangled name, which the
    /// export producer promises never to emit.
    DemangledWithoutMangled { address: u64 },
}

/// The descriptive text of a load error.
pub open spec fn load_error_chars(e: LoadError) -> Seq<char> {
    match e {
        LoadError::NotSorted { previous, address } => "Call graph nodes not sorted: "@
            + crate::util::address_chars(address) + " < "@ + crate::util::address_chars(previous),
        LoadError::DemangledWithoutMangled { address } => {
            "Demangled name without mangled name at "@ + crate::util::address_chars(address)
        },
    }
}

impl LoadError {
    /// Renders the single descriptive fatal error the caller receives.
    pub fn message(&self) -> (r: String)
        ensures
            r@ == load_error_chars(*self),
    {
        match self {
            LoadError::NotSorted { previous, address } => {
                let mut s = String::from_str("Call graph nodes not sorted: ");
                s.append(crate::util::format_address(*address).as_str());
                s.append(" < ");
                s.append(crate::util::format_address(*previous).as_str());
                proof {
                    assert(s@ =~= load_error_chars(*self));
                }
                s
            },
            LoadError::DemangledWithoutMangled { address } => {
                let mut s = String::from_str("Demangled name without mangled name at ");
                s.append(crate::util::format_address(*address).as_str());
                proof {
                    assert(s@ =~= load_error_chars(*self));
                }
                s
            },
        }
    }
}

} // verus!
