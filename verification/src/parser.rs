//! The frame parser and reassembler.
//!
//! `spec_unpack` is the mathematical model of parsing: it maps an
//! accumulated byte buffer to the sequence of complete packets found in
//! it, together with either the trailing bytes that do not yet form a
//! complete packet or a fatal framing failure. `unpack_events` is the
//! verified executable parser, proved to return exactly that model.
//!
//! A partial packet is never half-consumed: the leftover always begins
//! at the partial packet's magic byte, so the next call re-parses it
//! from scratch once more bytes have arrived.

use vstd::prelude::*;
use vstd::string::StringExecFns;

use crate::endian::{read_i32_be, read_i64_be, spec_i32_of_be, spec_i64_of_be};
use crate::packet::{
    spec_magic, AtppDataPackage, AtppEndPackage, AtppError, AtppEvent, AtppStartPackage,
    DataFields, EndFields, EventModel, StartFields,
};

verus! {

/// Fewer than 45 bytes cannot hold even the shortest packet
/// (magic + tag + timestamp + token), so parsing always waits for more.
pub open spec fn min_prefix() -> int {
    45
}

/// What parsing a buffer yields: the decoded packets in wire order,
/// and how the buffer ended.
pub struct Unpacked {
    pub events: Seq<EventModel>,
    pub tail: Tail,
}

/// How parsing a buffer ended: either the trailing bytes that await
/// more data (possibly empty), or a fatal framing failure.
pub enum Tail {
    Leftover(Seq<u8>),
    Broken(FrameFault),
}

/// The two fatal framing faults: the four magic bytes are wrong, or the
/// type tag after them is not 1, 2 or 3.
pub enum FrameFault {
    BadMagic,
    BadTag,
}

/// The diagnostic text that accompanies each framing fault.
pub open spec fn spec_fault_message(f: FrameFault) -> Seq<char> {
    match f {
        FrameFault::BadMagic => "head wrong!"@,
        FrameFault::BadTag => "type has error!"@,
    }
}

/// Prepends already-decoded packets to a parse result.
pub open spec fn with_events(es: Seq<EventModel>, m: Unpacked) -> Unpacked {
    Unpacked { events: es + m.events, tail: m.tail }
}

/// The start packet fields laid out at the head of `b`, where `b` is
/// the buffer suffix immediately after magic and tag.
pub open spec fn spec_start_at(b: Seq<u8>) -> StartFields
    recommends
        b.len() >= 56,
{
    StartFields {
        timestamp: spec_i64_of_be(b.subrange(0, 8)),
        token: b.subrange(8, 40),
        total_size: spec_i64_of_be(b.subrange(40, 48)),
        slice_count: spec_i32_of_be(b.subrange(48, 52)),
        slice_size: spec_i32_of_be(b.subrange(52, 56)),
    }
}

/// The data packet header fields laid out at the head of `b`, where `b`
/// is the buffer suffix immediately after magic and tag.
pub open spec fn spec_data_at(b: Seq<u8>) -> DataFields
    recommends
        b.len() >= 48,
{
    DataFields {
        timestamp: spec_i64_of_be(b.subrange(0, 8)),
        token: b.subrange(8, 40),
        slice_index: spec_i32_of_be(b.subrange(40, 44)),
        slice_size: spec_i32_of_be(b.subrange(44, 48)),
    }
}

/// The end packet fields laid out at the head of `b`, where `b` is the
/// buffer suffix immediately after magic and tag.
pub open spec fn spec_end_at(b: Seq<u8>) -> EndFields
    recommends
        b.len() >= 40,
{
    EndFields { timestamp: spec_i64_of_be(b.subrange(0, 8)), token: b.subrange(8, 40) }
}

/// The model of parsing: decode as many complete packets as the buffer
/// holds, in order.
///
/// A buffer under 45 bytes is returned whole as leftover. A wrong magic
/// or an unknown type tag is fatal. A packet whose fixed header is
/// incomplete, or a data packet whose payload is not fully present, is
/// returned whole as leftover, starting at its magic byte. A payload
/// that exactly fills the rest of the buffer counts as complete; a
/// negative `slice_size` can never be satisfied and leaves the packet
/// as leftover.
pub open spec fn spec_unpack(s: Seq<u8>) -> Unpacked
    decreases s.len(),
{
    if s.len() < min_prefix() {
        Unpacked { events: Seq::empty(), tail: Tail::Leftover(s) }
    } else if s.subrange(0, 4) != spec_magic() {
        Unpacked { events: Seq::empty(), tail: Tail::Broken(FrameFault::BadMagic) }
    } else if s[4] == 1 {
        if s.len() >= 61 {
            with_events(
                seq![EventModel::Start(spec_start_at(s.skip(5)))],
                spec_unpack(s.skip(61)),
            )
        } else {
            Unpacked { events: Seq::empty(), tail: Tail::Leftover(s) }
        }
    } else if s[4] == 2 {
        if s.len() >= 53 {
            let d = spec_data_at(s.skip(5));
            if 0 <= d.slice_size && 53 + d.slice_size <= s.len() {
                with_events(
                    seq![EventModel::Data(d, s.subrange(53, 53 + d.slice_size as int))],
                    spec_unpack(s.skip(53 + d.slice_size as int)),
                )
            } else {
                Unpacked { events: Seq::empty(), tail: Tail::Leftover(s) }
            }
        } else {
            Unpacked { events: Seq::empty(), tail: Tail::Leftover(s) }
        }
    } else if s[4] == 3 {
        with_events(seq![EventModel::End(spec_end_at(s.skip(5)))], spec_unpack(s.skip(45)))
    } else {
        Unpacked { events: Seq::empty(), tail: Tail::Broken(FrameFault::BadTag) }
    }
}

/// The models of a sequence of decoded packets.
pub open spec fn events_of(s: Seq<AtppEvent>) -> Seq<EventModel> {
    s.map_values(|e: AtppEvent| e@)
}

/// What `unpack_events` promises: the decoded packets are exactly the
/// model's, and the second component is the model's tail — the leftover
/// bytes on success, a fatal framing error otherwise.
pub open spec fn unpack_post(
    input: Seq<u8>,
    events: Seq<AtppEvent>,
    out: Result<Vec<u8>, AtppError>,
) -> bool {
    let m = spec_unpack(input);
    &&& events_of(events) == m.events
    &&& match m.tail {
        Tail::Leftover(l) => out matches Ok(v) && v@ == l,
        Tail::Broken(f) => out matches Err(e) && e matches AtppError::BrokeData(m) && m@
            == spec_fault_message(f),
    }
}

pub(crate) proof fn lemma_with_events_assoc(a: Seq<EventModel>, b: Seq<EventModel>, m: Unpacked)
    ensures
        with_events(a, with_events(b, m)) == with_events(a + b, m),
{
    assert(a + (b + m.events) =~= (a + b) + m.events);
}

proof fn lemma_events_of_push(s: Seq<AtppEvent>, e: AtppEvent)
    ensures
        events_of(s.push(e)) == events_of(s) + seq![e@],
{
    assert(events_of(s.push(e)) =~= events_of(s) + seq![e@]);
}

/// Copies `data[start..end]` into a fresh vector.
fn copy_range(data: &Vec<u8>, start: usize, end: usize) -> (r: Vec<u8>)
    requires
        start <= end,
        end <= data@.len(),
    ensures
        r@ == data@.subrange(start as int, end as int),
{
    let mut r: Vec<u8> = Vec::new();
    let mut i: usize = start;
    while i < end
        invariant
            start <= i <= end,
            end <= data@.len(),
            r@ == data@.subrange(start as int, i as int),
        decreases end - i,
    {
        r.push(data[i]);
        i = i + 1;
        proof {
            assert(r@ =~= data@.subrange(start as int, i as int));
        }
    }
    r
}

/// Reads the start packet fields that follow magic and tag at `off`;
/// fails with `NotEnoughData` when any of the five fields is cut short.
fn unpack_start_package(buf: &Vec<u8>, off: usize) -> (r: Result<AtppStartPackage, AtppError>)
    requires
        off <= buf@.len(),
    ensures
        r matches Ok(p) ==> buf@.len() - off >= 56 && p@ == spec_start_at(buf@.skip(off as int)),
        r matches Err(e) ==> buf@.len() - off < 56 && e matches AtppError::NotEnoughData,
{
    let n: usize = buf.len();
    let mut oft: usize = off;
    if n - oft < 8 {
        return Err(AtppError::NotEnoughData);
    }
    let timestamp = read_i64_be(buf, oft);
    oft = oft + 8;
    if n - oft < 32 {
        return Err(AtppError::NotEnoughData);
    }
    let token = copy_range(buf, oft, oft + 32);
    oft = oft + 32;
    if n - oft < 8 {
        return Err(AtppError::NotEnoughData);
    }
    let total_size = read_i64_be(buf, oft);
    oft = oft + 8;
    if n - oft < 4 {
        return Err(AtppError::NotEnoughData);
    }
    let slice_count = read_i32_be(buf, oft);
    oft = oft + 4;
    if n - oft < 4 {
        return Err(AtppError::NotEnoughData);
    }
    let slice_size = read_i32_be(buf, oft);
    let p = AtppStartPackage { timestamp, token, total_size, slice_count, slice_size };
    proof {
        let b = buf@.skip(off as int);
        assert(b.subrange(0, 8) =~= buf@.subrange(off as int, off as int + 8));
        assert(b.subrange(8, 40) =~= buf@.subrange(off as int + 8, off as int + 40));
        assert(b.subrange(40, 48) =~= buf@.subrange(off as int + 40, off as int + 48));
        assert(b.subrange(48, 52) =~= buf@.subrange(off as int + 48, off as int + 52));
        assert(b.subrange(52, 56) =~= buf@.subrange(off as int + 52, off as int + 56));
        assert(p@ == spec_start_at(b));
    }
    Ok(p)
}

/// Reads the data packet header fields that follow magic and tag at
/// `off`; fails with `NotEnoughData` when any of the four fields is cut
/// short. The payload that follows is the caller's to check.
fn unpack_data_package(buf: &Vec<u8>, off: usize) -> (r: Result<AtppDataPackage, AtppError>)
    requires
        off <= buf@.len(),
    ensures
        r matches Ok(p) ==> buf@.len() - off >= 48 && p@ == spec_data_at(buf@.skip(off as int)),
        r matches Err(e) ==> buf@.len() - off < 48 && e matches AtppError::NotEnoughData,
{
    let n: usize = buf.len();
    let mut oft: usize = off;
    if n - oft < 8 {
        return Err(AtppError::NotEnoughData);
    }
    let timestamp = read_i64_be(buf, oft);
    oft = oft + 8;
    if n - oft < 32 {
        return Err(AtppError::NotEnoughData);
    }
    let token = copy_range(buf, oft, oft + 32);
    oft = oft + 32;
    if n - oft < 4 {
        return Err(AtppError::NotEnoughData);
    }
    let slice_index = read_i32_be(buf, oft);
    oft = oft + 4;
    if n - oft < 4 {
        return Err(AtppError::NotEnoughData);
    }
    let slice_size = read_i32_be(buf, oft);
    let p = AtppDataPackage { timestamp, token, slice_index, slice_size };
    proof {
        let b = buf@.skip(off as int);
        assert(b.subrange(0, 8) =~= buf@.subrange(off as int, off as int + 8));
        assert(b.subrange(8, 40) =~= buf@.subrange(off as int + 8, off as int + 40));
        assert(b.subrange(40, 44) =~= buf@.subrange(off as int + 40, off as int + 44));
        assert(b.subrange(44, 48) =~= buf@.subrange(off as int + 44, off as int + 48));
        assert(p@ == spec_data_at(b));
    }
    Ok(p)
}

/// Reads the end packet fields that follow magic and tag at `off`;
/// fails with `NotEnoughData` when either field is cut short.
fn unpack_end_package(buf: &Vec<u8>, off: usize) -> (r: Result<AtppEndPackage, AtppError>)
    requires
        off <= buf@.len(),
    ensures
        r matches Ok(p) ==> buf@.len() - off >= 40 && p@ == spec_end_at(buf@.skip(off as int)),
        r matches Err(e) ==> buf@.len() - off < 40 && e matches AtppError::NotEnoughData,
{
    let n: usize = buf.len();
    let mut oft: usize = off;
    if n - oft < 8 {
        return Err(AtppError::NotEnoughData);
    }
    let timestamp = read_i64_be(buf, oft);
    oft = oft + 8;
    if n - oft < 32 {
        return Err(AtppError::NotEnoughData);
    }
    let token = copy_range(buf, oft, oft + 32);
    let p = AtppEndPackage { timestamp, token };
    proof {
        let b = buf@.skip(off as int);
        assert(b.subrange(0, 8) =~= buf@.subrange(off as int, off as int + 8));
        assert(b.subrange(8, 40) =~= buf@.subrange(off as int + 8, off as int + 40));
        assert(p@ == spec_end_at(b));
    }
    Ok(p)
}

/// Decodes as many complete packets as the buffer holds, in wire order,
/// and returns them together with the undecoded trailing bytes — or the
/// fatal framing error on a corrupt magic or an unknown type tag.
///
/// The caller keeps the returned leftover and prepends it to the next
/// inbound chunk.
#[verifier::rlimit(100)]
pub fn unpack_events(data: &Vec<u8>) -> (r: (Vec<AtppEvent>, Result<Vec<u8>, AtppError>))
    ensures
        unpack_post(data@, r.0@, r.1),
{
    let ghost orig: Seq<u8> = data@;
    let n: usize = data.len();
    let mut events: Vec<AtppEvent> = Vec::new();
    let mut offset: usize = 0;
    proof {
        assert(orig.skip(0) =~= orig);
        assert(events_of(events@) =~= Seq::<EventModel>::empty());
        assert(Seq::<EventModel>::empty() + spec_unpack(orig).events =~= spec_unpack(orig).events);
    }
    loop
        invariant
            offset <= n,
            n == orig.len(),
            orig == data@,
            spec_unpack(orig) == with_events(
                events_of(events@),
                spec_unpack(orig.skip(offset as int)),
            ),
        decreases n - offset,
    {
        let ghost s = orig.skip(offset as int);
        if n - offset < 45 {
            let leftover = copy_range(data, offset, n);
            proof {
                assert(s.len() < 45);
                assert(leftover@ =~= s);
                assert(events_of(events@) + Seq::<EventModel>::empty() =~= events_of(events@));
            }
            return (events, Ok(leftover));
        }
        let magic_ok = data[offset] == 0x41 && data[offset + 1] == 0x54 && data[offset + 2]
            == 0x50 && data[offset + 3] == 0x50;
        proof {
            assert(s.subrange(0, 4)[0] == orig[offset as int]);
            assert(s.subrange(0, 4)[1] == orig[offset as int + 1]);
            assert(s.subrange(0, 4)[2] == orig[offset as int + 2]);
            assert(s.subrange(0, 4)[3] == orig[offset as int + 3]);
        }
        if !magic_ok {
            proof {
                assert(s.subrange(0, 4) != spec_magic());
                assert(events_of(events@) + Seq::<EventModel>::empty() =~= events_of(events@));
            }
            return (events, Err(AtppError::BrokeData(String::from_str("head wrong!"))));
        }
        proof {
            assert(s.subrange(0, 4) =~= spec_magic());
        }
        let tag = data[offset + 4];
        proof {
            assert(s[4] == tag);
        }
        if tag == 1 {
            match unpack_start_package(data, offset + 5) {
                Ok(p) => {
                    proof {
                        assert(s.len() >= 61);
                        assert(s.skip(5) =~= orig.skip(offset as int + 5));
                        assert(s.skip(61) =~= orig.skip(offset as int + 61));
                        assert(spec_unpack(s) == with_events(
                            seq![EventModel::Start(p@)],
                            spec_unpack(orig.skip(offset as int + 61)),
                        ));
                        lemma_with_events_assoc(
                            events_of(events@),
                            seq![EventModel::Start(p@)],
                            spec_unpack(orig.skip(offset as int + 61)),
                        );
                        lemma_events_of_push(events@, AtppEvent::Start(p));
                    }
                    events.push(AtppEvent::Start(p));
                    offset = offset + 61;
                },
                Err(_) => {
                    let leftover = copy_range(data, offset, n);
                    proof {
                        assert(s.len() < 61);
                        assert(leftover@ =~= s);
                        assert(events_of(events@) + Seq::<EventModel>::empty() =~= events_of(
                            events@,
                        ));
                    }
                    return (events, Ok(leftover));
                },
            }
        } else if tag == 2 {
            match unpack_data_package(data, offset + 5) {
                Ok(p) => {
                    proof {
                        assert(s.len() >= 53);
                        assert(s.skip(5) =~= orig.skip(offset as int + 5));
                        assert(p@ == spec_data_at(s.skip(5)));
                    }
                    let ssz: i32 = p.slice_size;
                    let rem_after: usize = n - offset - 53;
                    if ssz >= 0 && (ssz as usize) <= rem_after {
                        let ps: usize = ssz as usize;
                        let payload = copy_range(data, offset + 53, offset + 53 + ps);
                        proof {
                            assert(payload@ =~= s.subrange(53, 53 + ssz as int));
                            assert(s.skip(53 + ssz as int) =~= orig.skip(
                                offset as int + 53 + ssz as int,
                            ));
                            assert(spec_unpack(s) == with_events(
                                seq![EventModel::Data(p@, payload@)],
                                spec_unpack(orig.skip(offset as int + 53 + ssz as int)),
                            ));
                            lemma_with_events_assoc(
                                events_of(events@),
                                seq![EventModel::Data(p@, payload@)],
                                spec_unpack(orig.skip(offset as int + 53 + ssz as int)),
                            );
                            lemma_events_of_push(events@, AtppEvent::Data(p, payload));
                        }
                        events.push(AtppEvent::Data(p, payload));
                        offset = offset + 53 + ps;
                    } else {
                        let leftover = copy_range(data, offset, n);
                        proof {
                            assert(!(0 <= p@.slice_size && 53 + p@.slice_size <= s.len()));
                            assert(leftover@ =~= s);
                            assert(events_of(events@) + Seq::<EventModel>::empty() =~= events_of(
                                events@,
                            ));
                        }
                        return (events, Ok(leftover));
                    }
                },
                Err(_) => {
                    let leftover = copy_range(data, offset, n);
                    proof {
                        assert(s.len() < 53);
                        assert(leftover@ =~= s);
                        assert(events_of(events@) + Seq::<EventModel>::empty() =~= events_of(
                            events@,
                        ));
                    }
                    return (events, Ok(leftover));
                },
            }
        } else if tag == 3 {
            match unpack_end_package(data, offset + 5) {
                Ok(p) => {
                    proof {
                        assert(s.skip(5) =~= orig.skip(offset as int + 5));
                        assert(s.skip(45) =~= orig.skip(offset as int + 45));
                        assert(spec_unpack(s) == with_events(
                            seq![EventModel::End(p@)],
                            spec_unpack(orig.skip(offset as int + 45)),
                        ));
                        lemma_with_events_assoc(
                            events_of(events@),
                            seq![EventModel::End(p@)],
                            spec_unpack(orig.skip(offset as int + 45)),
                        );
                        lemma_events_of_push(events@, AtppEvent::End(p));
                    }
                    events.push(AtppEvent::End(p));
                    offset = offset + 45;
                },
                Err(_) => {
                    // an end packet's fields fit inside the 45 bytes that
                    // are known to be present, so they can never be short
                    proof {
                        assert(false);
                    }
                    return (events, Ok(Vec::new()));
                },
            }
        } else {
            proof {
                assert(events_of(events@) + Seq::<EventModel>::empty() =~= events_of(events@));
            }
            return (events, Err(AtppError::BrokeData(String::from_str("type has error!"))));
        }
    }
}

} // verus!
