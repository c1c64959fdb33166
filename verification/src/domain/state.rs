//! What a declared destination holds on disk.
use vstd::prelude::*;

verus! {

#[derive(Debug, Clone, Copy, PartialEq, Eq, Structural)]
pub enum LocalState {
    Missing,
    Cloned,
    Conflict,
    Unreadable,
}

} // verus!
