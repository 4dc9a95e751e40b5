//! The interface of a consumer that is handed entries one by one.

use vstd::prelude::*;
use crate::decode::Entry;

verus! {

/// What a consumer of entries implements. Nothing is asked of an
/// implementation but its signatures.
pub trait HandleEntry {
    /// Why an entry could not be handled.
    type Error;

    /// Takes one entry of `stream`.
    fn handle_entry(&mut self, stream: &str, entry: &Entry) -> Result<(), Self::Error>;

    /// Is told that a read has waited `_duration` milliseconds in vain.
    /// Unless an implementation says otherwise, that is no error.
    fn handle_timeout(&mut self, _duration: u32) -> (r: Result<(), Self::Error>)
        default_ensures
            r is Ok,
    {
        Ok(())
    }
}

} // verus!
