//! The handler capability and the adapter that feeds it.
//!
//! The caller implements `AtppHandle` and hands it to an `AtppAdapter`;
//! `unpack` then decodes an accumulated buffer and invokes the handler
//! synchronously, once per decoded packet, in wire order. The parser
//! imposes no sequencing or session correlation — that is the handler's
//! business, keyed by the token it receives in every packet.

use vstd::prelude::*;

use crate::packet::{AtppDataPackage, AtppEndPackage, AtppError, AtppEvent, AtppStartPackage};
use crate::parser::{spec_fault_message, spec_unpack, unpack_events, Tail};

verus! {

/// The capability interface that receives decoded packets, together
/// with the caller's connection context `T`. Invocations are
/// synchronous, from within `unpack`, in the exact order the packets
/// were decoded from the buffer.
#[allow(non_snake_case)]
pub trait AtppHandle<T> {
    fn OnStart(&self, stream: &mut T, pkg: AtppStartPackage);

    fn OnData(&self, stream: &mut T, pkg: AtppDataPackage, data: &mut Vec<u8>);

    fn OnEnd(&self, stream: &mut T, pkg: AtppEndPackage);
}

/// Drives a caller-supplied handler over a reassembled packet stream.
/// The adapter itself is stateless: the only state that persists across
/// calls is the leftover buffer, owned by the caller.
pub struct AtppAdapter<'a, H> {
    pub handle: &'a H,
}

impl<'a, H> AtppAdapter<'a, H> {
    pub fn new(handle: &'a H) -> (r: AtppAdapter<'a, H>)
        ensures
            r.handle == handle,
    {
        AtppAdapter { handle }
    }

    /// Decodes every complete packet in `data`, invoking the handler
    /// for each in wire order, and returns the trailing bytes that do
    /// not yet form a complete packet (to be prepended to the next
    /// inbound chunk), or the fatal framing error. The input buffer is
    /// left unchanged.
    pub fn unpack<T>(&self, stream: &mut T, data: &mut Vec<u8>) -> (r: Result<
        Option<Vec<u8>>,
        AtppError,
    >) where H: AtppHandle<T>
        ensures
            final(data)@ == old(data)@,
            match spec_unpack(old(data)@).tail {
                Tail::Leftover(l) => r matches Ok(opt) && opt matches Some(v) && v@ == l,
                Tail::Broken(f) => r matches Err(e) && e matches AtppError::BrokeData(m) && m@
                    == spec_fault_message(f),
            },
    {
        let (mut events, outcome) = unpack_events(&*data);
        while events.len() > 0
            decreases events.len(),
        {
            let e = events.remove(0);
            match e {
                AtppEvent::Start(p) => self.handle.OnStart(stream, p),
                AtppEvent::Data(p, payload) => {
                    let mut payload = payload;
                    self.handle.OnData(stream, p, &mut payload);
                },
                AtppEvent::End(p) => self.handle.OnEnd(stream, p),
            }
        }
        match outcome {
            Ok(leftover) => Ok(Some(leftover)),
            Err(e) => Err(e),
        }
    }
}

} // verus!
