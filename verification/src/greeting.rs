//! The greeting that the desktop shell shows.

use vstd::prelude::*;
use vstd::string::StringExecFns;

verus! {

/// The greeting for `name`.
pub open spec fn greeting(name: Seq<char>) -> Seq<char> {
    "Hello, "@ + name + "! You've been greeted from Rust!"@
}

/// Greets `name`.
pub fn greet(name: &str) -> (out: String)
    ensures
        out@ == greeting(name@),
{
    let hello = String::from_str("Hello, ");
    let named = hello.concat(name);
    named.concat("! You've been greeted from Rust!")
}

} // verus!
