//! The shared time limit on each read and write of a connection, and the
//! message given when it runs out.

use vstd::prelude::*;

use crate::text::{decimal, spec_decimal};

verus! {

/// The time limit, in seconds, on each read or write.
pub const IO_TIMEOUT_SECS: u64 = 180;

/// The message for an action that ran out of time.
pub open spec fn spec_timeout_message(action: Seq<char>) -> Seq<char> {
    action + " timed out after "@ + spec_decimal(IO_TIMEOUT_SECS as nat) + "s"@
}

/// Builds a consistent timeout error message.
pub fn timeout_message(action: &str) -> (r: String)
    ensures
        r@ == spec_timeout_message(action@),
{
    let mut out = String::new();
    out.push_str(action);
    out.push_str(" timed out after ");
    let secs = decimal(IO_TIMEOUT_SECS);
    out.push_str(secs.as_str());
    out.push_str("s");
    assert(out@ =~= spec_timeout_message(action@));
    out
}

} // verus!
