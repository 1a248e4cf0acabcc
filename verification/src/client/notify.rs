use vstd::prelude::*;

use crate::structs::timestamp::NanoTimestamp;
use crate::structs::username::UserName;

verus! {

/// The time a message counts as received at: its own, or zero where it has none.
pub open spec fn received_or_zero(received_at: Option<NanoTimestamp>) -> u64 {
    match received_at {
        Some(t) => t.0,
        None => 0,
    }
}

/// Whether to announce the latest message of a direct conversation with `peer`: only while the
/// window is not focused, only for a message from the peer, and only for one received after
/// the last announced. Answers the new time of the last announced message, or `None` where
/// nothing is announced.
pub fn notify_decision(
    focused: bool,
    peer: &UserName,
    sender: &UserName,
    received_at: Option<NanoTimestamp>,
    max_notified: u64,
) -> (r: Option<u64>)
    ensures
        r is Some <==> !focused && sender@ == peer@ && received_or_zero(received_at) > max_notified,
        r matches Some(t) ==> t == received_or_zero(received_at) && t > max_notified,
{
    if focused {
        return None;
    }
    if !(*sender == *peer) {
        return None;
    }
    let t = match received_at {
        Some(ts) => ts.0,
        None => 0,
    };
    if t > max_notified {
        Some(t)
    } else {
        None
    }
}

/// The time of the last announced message only grows, so no message is announced twice.
pub proof fn lemma_notified_grows(
    focused: bool,
    peer: Seq<char>,
    sender: Seq<char>,
    received_at: Option<NanoTimestamp>,
    max_notified: u64,
    next: u64,
)
    requires
        !focused && sender == peer && received_or_zero(received_at) > max_notified,
        next == received_or_zero(received_at),
    ensures
        next > max_notified,
        !(received_or_zero(received_at) > next),
{
}

} // verus!
