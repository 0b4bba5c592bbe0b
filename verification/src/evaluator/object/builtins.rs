use vstd::prelude::*;

verus! {

/// The functions that every program can call without defining them.
#[derive(Debug, PartialEq, Eq, Clone, Copy)]
pub enum Builtin {
    Len,
    Del,
    Rest,
    Push,
}

} // verus!
