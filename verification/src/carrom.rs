//! The pieces of a carrom board.
use vstd::prelude::*;

verus! {

/// The kind of a carrom piece.
#[allow(non_camel_case_types)]
#[derive(Debug, Clone, Copy, PartialEq, Eq, Structural)]
pub enum Name {
    STRIKER,
    QUEEN,
    WHITE,
    BLACK,
}

} // verus!
