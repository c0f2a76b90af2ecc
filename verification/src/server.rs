//! Where the service listens.

use vstd::prelude::*;

verus! {

/// The address used when none is given.
pub open spec fn default_bind_addr() -> Seq<char> {
    "127.0.0.1:8888"@
}

/// Picks the address to listen on: the one given, else the default.
pub fn bind_addr(given: Option<String>) -> (addr: String)
    ensures
        addr@ == match given {
            Some(addr) => addr@,
            None => default_bind_addr(),
        },
{
    match given {
        Some(addr) => addr,
        None => "127.0.0.1:8888".to_owned(),
    }
}

} // verus!
