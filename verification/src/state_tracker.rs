//! The forwarder's verified half: turning received updates into datagram
//! payloads.
//!
//! The run loop itself — receive from the queue, send on the socket, log
//! and continue on a send failure — is async plumbing that an embedding
//! supplies around these functions. The queue it reads is strictly FIFO, so
//! the loop emits exactly what `emit_in_order` computes for the updates it
//! receives: one payload per update, in arrival order, none reordered and
//! none dropped.

use vstd::prelude::*;

use crate::codec::{serialize_tracked_data, spec_encode};
use crate::tracked_data::TrackedData;

verus! {

/// The payload the forwarder sends for one received update.
pub fn forward_payload(data: &TrackedData) -> (payload: String)
    ensures
        payload@ == spec_encode(data@),
{
    serialize_tracked_data(data)
}

/// The datagrams for a run of received updates, in arrival order.
///
/// This is the forwarder's whole output on a FIFO queue: updates enqueued as
/// `u_1, ..., u_n` — by any interleaving of clients — come back as exactly
/// the encodings of `u_1, ..., u_n`, in that relative order. In particular,
/// when the queue closes after `u_n`, the forwarder still emits every update
/// enqueued before closure and then terminates: nothing is lost in a drain.
pub fn emit_in_order(updates: &Vec<TrackedData>) -> (payloads: Vec<String>)
    ensures
        payloads@.len() == updates@.len(),
        forall|i: int| 0 <= i < updates@.len()
            ==> (#[trigger] payloads@[i])@ == spec_encode(updates@[i]@),
{
    let mut payloads: Vec<String> = Vec::new();
    let mut i: usize = 0;
    while i < updates.len()
        invariant
            i <= updates@.len(),
            payloads@.len() == i,
            forall|k: int| 0 <= k < i
                ==> (#[trigger] payloads@[k])@ == spec_encode(updates@[k]@),
        decreases updates@.len() - i,
    {
        payloads.push(forward_payload(&updates[i]));
        i = i + 1;
    }
    payloads
}

} // verus!
