//! Client-side OSCORE orchestration: security-context lifecycle, credential
//! patching, durable sequence-number management, and request/response
//! correlation over a non-blocking drive loop.

use vstd::prelude::*;

pub mod config;
pub mod context;
pub mod doc;
pub mod driver;
pub mod hex;
pub mod patch;
pub mod seqrec;
pub mod session;
pub mod text;

verus! {

/// Chooses the sender sequence number a new security context starts from.
///
/// The durable store records the last sequence number that was actually used
/// on the wire; resuming from a recorded value therefore starts one past it,
/// so no sequence number is ever reused across a restart. With no (or an
/// unreadable) record, the caller-chosen default applies.
pub fn resume_sequence(stored: Option<u64>, default: u64) -> (r: Option<u64>)
    ensures
        stored is None ==> r == Some(default),
        stored matches Some(v) ==> r == (if v < u64::MAX {
            Some((v + 1) as u64)
        } else {
            None::<u64>
        }),
{
    match stored {
        None => Some(default),
        Some(v) => {
            if v < u64::MAX {
                Some(v + 1)
            } else {
                None
            }
        }
    }
}

} // verus!

