//! The presence beacon's per-interval work: build the heartbeat frame
//! announcing the local nickname, and prune the registry with the
//! user timeout. The surrounding loop — sending the frame to the
//! subnet broadcast address every `HELLO_INTERVAL` seconds, forever,
//! shrugging off send failures — lives with the I/O shell.

use vstd::prelude::*;

use crate::bytes::copy_bytes;
use crate::frame::{encode_frame, spec_encode, Frame, FrameModel};
use crate::registry::{purge_model, PeerRegistry};

verus! {

/// One beacon interval's work: returns the `HELLO` frame to broadcast
/// for `nickname`, and purges from `registry` every record whose last
/// heartbeat is `timeout` seconds or more in the past at `now`. The
/// purge always uses the caller's timeout, independent of the beacon
/// cadence.
pub fn beacon_tick(
    registry: &mut PeerRegistry,
    nickname: &Vec<u8>,
    now: u64,
    timeout: u64,
) -> (hello: Vec<u8>)
    requires
        old(registry).wf(),
    ensures
        final(registry).wf(),
        final(registry)@ == purge_model(old(registry)@, now, timeout),
        hello@ == spec_encode(FrameModel::Hello { nickname: nickname@ }),
{
    let frame = Frame::Hello { nickname: copy_bytes(nickname) };
    let hello = encode_frame(&frame);
    registry.purge(now, timeout);
    hello
}

} // verus!
