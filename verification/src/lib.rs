//! Generates statically typed wrapper code for the public interface of a
//! dynamically typed foreign module, from a JSON schema describing that
//! interface, and models the small runtime library that such generated
//! wrappers rely on: a tagged-union dispatcher with ordered type probing,
//! a type-identity resolver with a cache, and a callable adapter.

use vstd::prelude::*;

pub mod adapter;
pub mod ast;
pub mod codec;
pub mod dispatch;
pub mod emit;
pub mod example;
pub mod json;
pub mod mapper;
pub mod resolver;
pub mod schema;
pub mod type_aliases;
pub mod value;

verus! {

/// Adds two sizes whose sum stays in bounds.
pub fn add(left: usize, right: usize) -> (r: usize)
    requires
        left + right <= usize::MAX,
    ensures
        r == left + right,
{
    left + right
}

} // verus!
