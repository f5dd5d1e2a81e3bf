//! The datagram dispatch: the single receive loop hands each datagram
//! to [`handle_datagram`], which parses it and either refreshes the
//! registry, asks for the message to be displayed and acknowledged, or
//! records and forwards an acknowledgement. Malformed datagrams are
//! discarded silently, changing nothing.

use vstd::prelude::*;

use crate::addr::IpAddress;
use crate::frame::{Frame, FrameModel, encode_frame, parse_frame, spec_encode, spec_parse};
use crate::registry::PeerRegistry;

verus! {

/// What the listener does with one datagram.
pub enum ListenerEvent {
    /// A heartbeat: the sender's registry record was refreshed.
    PeerSeen,
    /// A message: display `payload` tagged with the source address and
    /// send `ack` back to the source — exactly one acknowledgement per
    /// reception, so a retransmitted message is displayed and
    /// acknowledged again for each copy received.
    Deliver { payload: Vec<u8>, ack: Vec<u8> },
    /// An acknowledgement: `id` was recorded in the seen set and is to
    /// be forwarded to the send waiting on it, if any.
    AckReceived { id: u64 },
    /// A malformed datagram: discarded, nothing changed.
    Discarded,
}

fn contains_id(v: &Vec<u64>, id: u64) -> (r: bool)
    ensures
        r == v@.contains(id),
{
    let mut i: usize = 0;
    while i < v.len()
        invariant
            i <= v@.len(),
            forall|j: int| 0 <= j < i ==> v@[j] != id,
        decreases v@.len() - i,
    {
        if v[i] == id {
            assert(v@.contains(id));
            return true;
        }
        i = i + 1;
    }
    proof {
        if v@.contains(id) {
            let k = choose|j: int| 0 <= j < v@.len() && v@[j] == id;
            assert(v@[k] != id);
        }
    }
    false
}

/// Handles one received datagram of `data` from `src` at time `now`:
/// a `HELLO` refreshes the sender's registry record, a `MSG` yields
/// exactly one matching `ACK` to send back along with the payload to
/// display, an `ACK` is recorded in the `seen_acks` set — which only
/// ever grows — and anything malformed is discarded with no state
/// change.
pub fn handle_datagram(
    registry: &mut PeerRegistry,
    seen_acks: &mut Vec<u64>,
    src: IpAddress,
    data: &Vec<u8>,
    now: u64,
) -> (r: ListenerEvent)
    requires
        old(registry).wf(),
    ensures
        final(registry).wf(),
        match spec_parse(data@) {
            Some(m) => match m {
                FrameModel::Hello { nickname } => {
                    &&& r is PeerSeen
                    &&& final(registry)@ == old(registry)@.insert(src, (nickname, now))
                    &&& final(seen_acks)@ == old(seen_acks)@
                },
                FrameModel::Message { id, payload } => {
                    &&& (r matches ListenerEvent::Deliver { payload: p, ack: a } && p@ == payload
                        && a@ == spec_encode(FrameModel::Ack { id }))
                    &&& final(registry)@ == old(registry)@
                    &&& final(seen_acks)@ == old(seen_acks)@
                },
                FrameModel::Ack { id } => {
                    &&& r == (ListenerEvent::AckReceived { id })
                    &&& final(seen_acks)@ == (if old(seen_acks)@.contains(id) {
                        old(seen_acks)@
                    } else {
                        old(seen_acks)@.push(id)
                    })
                    &&& final(registry)@ == old(registry)@
                },
            },
            None => {
                &&& r is Discarded
                &&& final(registry)@ == old(registry)@
                &&& final(seen_acks)@ == old(seen_acks)@
            },
        },
{
    match parse_frame(data) {
        Some(f) => match f {
            Frame::Hello { nickname } => {
                registry.upsert(src, nickname, now);
                ListenerEvent::PeerSeen
            },
            Frame::Message { id, payload } => {
                let ack = encode_frame(&Frame::Ack { id });
                ListenerEvent::Deliver { payload, ack }
            },
            Frame::Ack { id } => {
                if !contains_id(seen_acks, id) {
                    seen_acks.push(id);
                }
                ListenerEvent::AckReceived { id }
            },
        },
        None => ListenerEvent::Discarded,
    }
}

} // verus!
