//! The three packet shapes of the protocol, their mathematical models,
//! and their exact byte encodings.
//!
//! Every packet begins with the four magic bytes "ATPP" and a one-byte
//! type tag (1 = start, 2 = data, 3 = end); all multi-byte integers are
//! big-endian, and the session token occupies exactly 32 raw bytes.

use vstd::prelude::*;

use crate::endian::{push_i32_be, push_i64_be, spec_be_i32, spec_be_i64};

verus! {

/// The four magic bytes "ATPP" that open every packet.
pub open spec fn spec_magic() -> Seq<u8> {
    seq![0x41u8, 0x54u8, 0x50u8, 0x50u8]
}

/// Number of bytes the token field occupies on the wire.
pub open spec fn token_len() -> int {
    32
}

/// Mathematical model of a start packet.
pub struct StartFields {
    pub timestamp: i64,
    pub token: Seq<u8>,
    pub total_size: i64,
    pub slice_count: i32,
    pub slice_size: i32,
}

/// Mathematical model of a data packet header (the payload travels
/// beside it).
pub struct DataFields {
    pub timestamp: i64,
    pub token: Seq<u8>,
    pub slice_index: i32,
    pub slice_size: i32,
}

/// Mathematical model of an end packet.
pub struct EndFields {
    pub timestamp: i64,
    pub token: Seq<u8>,
}

impl StartFields {
    /// The token field is well formed when it is exactly 32 bytes;
    /// any other length desynchronizes the frame boundaries on the wire.
    pub open spec fn wf(self) -> bool {
        self.token.len() == token_len()
    }

    /// The exact wire encoding: magic, tag 1, timestamp, token,
    /// total_size, slice_count, slice_size.
    pub open spec fn spec_pack(self) -> Seq<u8> {
        spec_magic() + seq![1u8] + spec_be_i64(self.timestamp) + self.token + spec_be_i64(
            self.total_size,
        ) + spec_be_i32(self.slice_count) + spec_be_i32(self.slice_size)
    }
}

impl DataFields {
    /// The token field is well formed when it is exactly 32 bytes.
    pub open spec fn wf(self) -> bool {
        self.token.len() == token_len()
    }

    /// The exact wire encoding of the fixed header: magic, tag 2,
    /// timestamp, token, slice_index, slice_size. The payload bytes
    /// follow the header immediately and are not part of it.
    pub open spec fn spec_pack(self) -> Seq<u8> {
        spec_magic() + seq![2u8] + spec_be_i64(self.timestamp) + self.token + spec_be_i32(
            self.slice_index,
        ) + spec_be_i32(self.slice_size)
    }
}

impl EndFields {
    /// The token field is well formed when it is exactly 32 bytes.
    pub open spec fn wf(self) -> bool {
        self.token.len() == token_len()
    }

    /// The exact wire encoding: magic, tag 3, timestamp, token.
    pub open spec fn spec_pack(self) -> Seq<u8> {
        spec_magic() + seq![3u8] + spec_be_i64(self.timestamp) + self.token
    }
}

/// Announces a forthcoming transfer of `total_size` bytes split into
/// `slice_count` slices of nominally `slice_size` bytes each.
#[derive(Debug)]
pub struct AtppStartPackage {
    pub timestamp: i64,
    pub token: Vec<u8>,
    pub total_size: i64,
    pub slice_count: i32,
    pub slice_size: i32,
}

/// The fixed header of one payload slice; `slice_size` is the exact
/// byte length of the payload that follows the header on the wire.
#[derive(Debug)]
pub struct AtppDataPackage {
    pub timestamp: i64,
    pub token: Vec<u8>,
    pub slice_index: i32,
    pub slice_size: i32,
}

/// Marks the completion of a transfer.
#[derive(Debug)]
pub struct AtppEndPackage {
    pub timestamp: i64,
    pub token: Vec<u8>,
}

impl View for AtppStartPackage {
    type V = StartFields;

    open spec fn view(&self) -> StartFields {
        StartFields {
            timestamp: self.timestamp,
            token: self.token@,
            total_size: self.total_size,
            slice_count: self.slice_count,
            slice_size: self.slice_size,
        }
    }
}

impl View for AtppDataPackage {
    type V = DataFields;

    open spec fn view(&self) -> DataFields {
        DataFields {
            timestamp: self.timestamp,
            token: self.token@,
            slice_index: self.slice_index,
            slice_size: self.slice_size,
        }
    }
}

impl View for AtppEndPackage {
    type V = EndFields;

    open spec fn view(&self) -> EndFields {
        EndFields { timestamp: self.timestamp, token: self.token@ }
    }
}

impl AtppStartPackage {
    pub fn new(timestamp: i64, token: Vec<u8>, total_size: i64, slice_count: i32, slice_size: i32)
        -> (r: AtppStartPackage)
        ensures
            r@ == (StartFields {
                timestamp,
                token: token@,
                total_size,
                slice_count,
                slice_size,
            }),
    {
        AtppStartPackage { timestamp, token, total_size, slice_count, slice_size }
    }

    /// Serializes the packet; a total function whose result is exactly
    /// the wire encoding of the packet's fields.
    pub fn pack(&self) -> (r: Vec<u8>)
        ensures
            r@ == self@.spec_pack(),
    {
        let mut data: Vec<u8> = Vec::new();
        data.push(0x41);
        data.push(0x54);
        data.push(0x50);
        data.push(0x50);
        data.push(1);
        push_i64_be(&mut data, self.timestamp);
        push_bytes(&mut data, &self.token);
        push_i64_be(&mut data, self.total_size);
        push_i32_be(&mut data, self.slice_count);
        push_i32_be(&mut data, self.slice_size);
        proof {
            assert(data@ =~= self@.spec_pack());
        }
        data
    }
}

impl AtppDataPackage {
    pub fn new(timestamp: i64, token: Vec<u8>, slice_index: i32, slice_size: i32) -> (r:
        AtppDataPackage)
        ensures
            r@ == (DataFields { timestamp, token: token@, slice_index, slice_size }),
    {
        AtppDataPackage { timestamp, token, slice_index, slice_size }
    }

    /// Serializes the fixed header; the payload is appended by the
    /// caller, immediately after these bytes.
    pub fn pack(&self) -> (r: Vec<u8>)
        ensures
            r@ == self@.spec_pack(),
    {
        let mut data: Vec<u8> = Vec::new();
        data.push(0x41);
        data.push(0x54);
        data.push(0x50);
        data.push(0x50);
        data.push(2);
        push_i64_be(&mut data, self.timestamp);
        push_bytes(&mut data, &self.token);
        push_i32_be(&mut data, self.slice_index);
        push_i32_be(&mut data, self.slice_size);
        proof {
            assert(data@ =~= self@.spec_pack());
        }
        data
    }
}

impl AtppEndPackage {
    pub fn new(timestamp: i64, token: Vec<u8>) -> (r: AtppEndPackage)
        ensures
            r@ == (EndFields { timestamp, token: token@ }),
    {
        AtppEndPackage { timestamp, token }
    }

    /// Serializes the packet; a total function whose result is exactly
    /// the wire encoding of the packet's fields.
    pub fn pack(&self) -> (r: Vec<u8>)
        ensures
            r@ == self@.spec_pack(),
    {
        let mut data: Vec<u8> = Vec::new();
        data.push(0x41);
        data.push(0x54);
        data.push(0x50);
        data.push(0x50);
        data.push(3);
        push_i64_be(&mut data, self.timestamp);
        push_bytes(&mut data, &self.token);
        proof {
            assert(data@ =~= self@.spec_pack());
        }
        data
    }
}

/// Appends every byte of `src` to `out`, in order.
fn push_bytes(out: &mut Vec<u8>, src: &Vec<u8>)
    ensures
        final(out)@ == old(out)@ + src@,
{
    let n: usize = src.len();
    let mut i: usize = 0;
    while i < n
        invariant
            i <= n,
            n == src@.len(),
            out@ == old(out)@ + src@.take(i as int),
        decreases n - i,
    {
        out.push(src[i]);
        i = i + 1;
        proof {
            assert(out@ =~= old(out)@ + src@.take(i as int));
        }
    }
    proof {
        assert(out@ =~= old(out)@ + src@);
    }
}

/// The parser's two-tier error taxonomy: `NotEnoughData` signals that
/// more transport bytes are needed (never surfaced by `unpack` as a
/// failure), while `BrokeData` is a fatal framing error after which the
/// stream cannot be trusted; its text is diagnostic only.
#[derive(Debug)]
pub enum AtppError {
    BrokeData(String),
    NotEnoughData,
}

/// One decoded packet, in the order it was found on the wire; a data
/// packet carries its payload bytes beside the header.
#[derive(Debug)]
pub enum AtppEvent {
    Start(AtppStartPackage),
    Data(AtppDataPackage, Vec<u8>),
    End(AtppEndPackage),
}

/// Mathematical model of one decoded packet.
pub enum EventModel {
    Start(StartFields),
    Data(DataFields, Seq<u8>),
    End(EndFields),
}

impl View for AtppEvent {
    type V = EventModel;

    open spec fn view(&self) -> EventModel {
        match self {
            AtppEvent::Start(p) => EventModel::Start(p@),
            AtppEvent::Data(p, payload) => EventModel::Data(p@, payload@),
            AtppEvent::End(p) => EventModel::End(p@),
        }
    }
}

} // verus!
