use vstd::prelude::*;

verus! {

/// Errors raised by the format layer.
///
/// Every inconsistency in the on-disk bytes is reported as `Corrupt`, with a
/// short description of what was wrong.
#[derive(Debug, Clone, PartialEq, Eq)]
pub enum LimboError {
    Corrupt(String),
}

/// Builds a `Corrupt` error carrying the given message.
pub fn corrupt(msg: &str) -> (r: LimboError)
    ensures
        r is Corrupt,
{
    LimboError::Corrupt(msg.to_owned())
}

} // verus!
