//! The protocol's laws, proved once and for all over the parsing model.
//!
//! They relate the encoder and the parser: encoding round-trips,
//! concatenated packets decode one by one in wire order, a prefix of a
//! packet is always held back whole as leftover, and corruption of the
//! magic bytes or the type tag is always fatal.

use vstd::prelude::*;

use crate::endian::{
    lemma_i32_be_round_trip, lemma_i64_be_round_trip, spec_be_i32, spec_be_i64,
};
use crate::packet::{spec_magic, DataFields, EndFields, EventModel, StartFields};
use crate::parser::{
    lemma_with_events_assoc, min_prefix, spec_data_at, spec_end_at, spec_start_at, spec_unpack,
    with_events, FrameFault, Tail, Unpacked,
};

verus! {

/// The encoding of a start packet: 61 bytes whose pieces decode to the
/// fields they were encoded from.
proof fn lemma_start_encoding(v: StartFields)
    requires
        v.wf(),
    ensures
        v.spec_pack().len() == 61,
        v.spec_pack().subrange(0, 4) == spec_magic(),
        v.spec_pack()[4] == 1,
        spec_start_at(v.spec_pack().skip(5)) == v,
{
    let c = v.spec_pack();
    assert(spec_be_i64(v.timestamp).len() == 8);
    assert(spec_be_i64(v.total_size).len() == 8);
    assert(spec_be_i32(v.slice_count).len() == 4);
    assert(spec_be_i32(v.slice_size).len() == 4);
    assert(c.len() == 61);
    assert(c.subrange(0, 4) =~= spec_magic());
    let b = c.skip(5);
    assert(b.subrange(0, 8) =~= spec_be_i64(v.timestamp));
    assert(b.subrange(8, 40) =~= v.token);
    assert(b.subrange(40, 48) =~= spec_be_i64(v.total_size));
    assert(b.subrange(48, 52) =~= spec_be_i32(v.slice_count));
    assert(b.subrange(52, 56) =~= spec_be_i32(v.slice_size));
    lemma_i64_be_round_trip(v.timestamp);
    lemma_i64_be_round_trip(v.total_size);
    lemma_i32_be_round_trip(v.slice_count);
    lemma_i32_be_round_trip(v.slice_size);
    assert(spec_start_at(b) == v);
}

/// The encoding of a data packet followed by its payload: a 53-byte
/// header whose pieces decode to the fields they were encoded from,
/// with the payload laid out immediately after it.
proof fn lemma_data_encoding(v: DataFields, payload: Seq<u8>)
    requires
        v.wf(),
        0 <= v.slice_size,
        payload.len() == v.slice_size,
    ensures
        (v.spec_pack() + payload).len() == 53 + v.slice_size,
        (v.spec_pack() + payload).subrange(0, 4) == spec_magic(),
        (v.spec_pack() + payload)[4] == 2,
        spec_data_at((v.spec_pack() + payload).skip(5)) == v,
        (v.spec_pack() + payload).subrange(53, 53 + v.slice_size as int) == payload,
{
    let t = v.spec_pack() + payload;
    assert(spec_be_i64(v.timestamp).len() == 8);
    assert(spec_be_i32(v.slice_index).len() == 4);
    assert(spec_be_i32(v.slice_size).len() == 4);
    assert(v.spec_pack().len() == 53);
    assert(t.subrange(0, 4) =~= spec_magic());
    let b = t.skip(5);
    assert(b.subrange(0, 8) =~= spec_be_i64(v.timestamp));
    assert(b.subrange(8, 40) =~= v.token);
    assert(b.subrange(40, 44) =~= spec_be_i32(v.slice_index));
    assert(b.subrange(44, 48) =~= spec_be_i32(v.slice_size));
    lemma_i64_be_round_trip(v.timestamp);
    lemma_i32_be_round_trip(v.slice_index);
    lemma_i32_be_round_trip(v.slice_size);
    assert(spec_data_at(b) == v);
    assert(t.subrange(53, 53 + v.slice_size as int) =~= payload);
}

/// The encoding of an end packet: 45 bytes whose pieces decode to the
/// fields they were encoded from.
proof fn lemma_end_encoding(v: EndFields)
    requires
        v.wf(),
    ensures
        v.spec_pack().len() == 45,
        v.spec_pack().subrange(0, 4) == spec_magic(),
        v.spec_pack()[4] == 3,
        spec_end_at(v.spec_pack().skip(5)) == v,
{
    let c = v.spec_pack();
    assert(spec_be_i64(v.timestamp).len() == 8);
    assert(c.len() == 45);
    assert(c.subrange(0, 4) =~= spec_magic());
    let b = c.skip(5);
    assert(b.subrange(0, 8) =~= spec_be_i64(v.timestamp));
    assert(b.subrange(8, 40) =~= v.token);
    lemma_i64_be_round_trip(v.timestamp);
    assert(spec_end_at(b) == v);
}

/// Round-trip for start packets: parsing the encoding of any
/// well-formed start packet yields exactly that packet and an empty
/// leftover.
pub proof fn lemma_round_trip_start(v: StartFields)
    requires
        v.wf(),
    ensures
        spec_unpack(v.spec_pack()) == (Unpacked {
            events: seq![EventModel::Start(v)],
            tail: Tail::Leftover(Seq::empty()),
        }),
{
    lemma_start_encoding(v);
    let c = v.spec_pack();
    assert(c.skip(61) =~= Seq::<u8>::empty());
    assert(spec_unpack(c) == with_events(seq![EventModel::Start(v)], spec_unpack(c.skip(61))));
    assert(seq![EventModel::Start(v)] + Seq::<EventModel>::empty() =~= seq![
        EventModel::Start(v),
    ]);
}

/// Round-trip for data packets: parsing the encoding of any well-formed
/// data packet followed by its payload (whose length is exactly the
/// header's `slice_size`) yields exactly that packet with that payload,
/// and an empty leftover.
pub proof fn lemma_round_trip_data(v: DataFields, payload: Seq<u8>)
    requires
        v.wf(),
        0 <= v.slice_size,
        payload.len() == v.slice_size,
    ensures
        spec_unpack(v.spec_pack() + payload) == (Unpacked {
            events: seq![EventModel::Data(v, payload)],
            tail: Tail::Leftover(Seq::empty()),
        }),
{
    lemma_data_encoding(v, payload);
    let t = v.spec_pack() + payload;
    assert(t.skip(53 + v.slice_size as int) =~= Seq::<u8>::empty());
    assert(spec_unpack(t) == with_events(
        seq![EventModel::Data(v, payload)],
        spec_unpack(t.skip(53 + v.slice_size as int)),
    ));
    assert(seq![EventModel::Data(v, payload)] + Seq::<EventModel>::empty() =~= seq![
        EventModel::Data(v, payload),
    ]);
}

/// Round-trip for end packets: parsing the encoding of any well-formed
/// end packet yields exactly that packet and an empty leftover.
pub proof fn lemma_round_trip_end(v: EndFields)
    requires
        v.wf(),
    ensures
        spec_unpack(v.spec_pack()) == (Unpacked {
            events: seq![EventModel::End(v)],
            tail: Tail::Leftover(Seq::empty()),
        }),
{
    lemma_end_encoding(v);
    let c = v.spec_pack();
    assert(c.skip(45) =~= Seq::<u8>::empty());
    assert(spec_unpack(c) == with_events(seq![EventModel::End(v)], spec_unpack(c.skip(45))));
    assert(seq![EventModel::End(v)] + Seq::<EventModel>::empty() =~= seq![EventModel::End(v)]);
}

/// Concatenation: when a buffer parses without leftover, appending more
/// bytes decodes its packets first, in order, and then parses the
/// appended bytes from scratch. Together with the round-trip laws this
/// says that any number of concatenated packets fed in one call decode
/// one by one in wire order.
pub proof fn lemma_unpack_append(s1: Seq<u8>, s2: Seq<u8>)
    requires
        spec_unpack(s1).tail == Tail::Leftover(Seq::<u8>::empty()),
    ensures
        spec_unpack(s1 + s2) == with_events(spec_unpack(s1).events, spec_unpack(s2)),
    decreases s1.len(),
{
    let t = s1 + s2;
    if s1.len() < min_prefix() {
        assert(spec_unpack(s1).tail == Tail::Leftover(s1));
        assert(s1.len() == 0);
        assert(t =~= s2);
        assert(spec_unpack(s1).events =~= Seq::<EventModel>::empty());
        assert(Seq::<EventModel>::empty() + spec_unpack(s2).events =~= spec_unpack(s2).events);
    } else {
        assert(s1.subrange(0, 4) == spec_magic()) by {
            if s1.subrange(0, 4) != spec_magic() {
                assert(spec_unpack(s1).tail == Tail::Broken(FrameFault::BadMagic));
            }
        }
        assert(t.len() >= s1.len());
        assert(t.subrange(0, 4) =~= s1.subrange(0, 4));
        assert(t[4] == s1[4]);
        let tag = s1[4];
        if tag == 1 {
            assert(s1.len() >= 61) by {
                if s1.len() < 61 {
                    assert(spec_unpack(s1).tail == Tail::Leftover(s1));
                }
            }
            assert(spec_start_at(t.skip(5)) == spec_start_at(s1.skip(5))) by {
                assert(t.skip(5).subrange(0, 8) =~= s1.skip(5).subrange(0, 8));
                assert(t.skip(5).subrange(8, 40) =~= s1.skip(5).subrange(8, 40));
                assert(t.skip(5).subrange(40, 48) =~= s1.skip(5).subrange(40, 48));
                assert(t.skip(5).subrange(48, 52) =~= s1.skip(5).subrange(48, 52));
                assert(t.skip(5).subrange(52, 56) =~= s1.skip(5).subrange(52, 56));
            }
            let e = EventModel::Start(spec_start_at(s1.skip(5)));
            assert(spec_unpack(s1) == with_events(seq![e], spec_unpack(s1.skip(61))));
            assert(t.skip(61) =~= s1.skip(61) + s2);
            lemma_unpack_append(s1.skip(61), s2);
            assert(spec_unpack(t) == with_events(seq![e], spec_unpack(s1.skip(61) + s2)));
            lemma_with_events_assoc(seq![e], spec_unpack(s1.skip(61)).events, spec_unpack(s2));
        } else if tag == 2 {
            assert(s1.len() >= 53) by {
                if s1.len() < 53 {
                    assert(spec_unpack(s1).tail == Tail::Leftover(s1));
                }
            }
            let d = spec_data_at(s1.skip(5));
            assert(spec_data_at(t.skip(5)) == d) by {
                assert(t.skip(5).subrange(0, 8) =~= s1.skip(5).subrange(0, 8));
                assert(t.skip(5).subrange(8, 40) =~= s1.skip(5).subrange(8, 40));
                assert(t.skip(5).subrange(40, 44) =~= s1.skip(5).subrange(40, 44));
                assert(t.skip(5).subrange(44, 48) =~= s1.skip(5).subrange(44, 48));
            }
            assert(0 <= d.slice_size && 53 + d.slice_size <= s1.len()) by {
                if !(0 <= d.slice_size && 53 + d.slice_size <= s1.len()) {
                    assert(spec_unpack(s1).tail == Tail::Leftover(s1));
                }
            }
            assert(t.subrange(53, 53 + d.slice_size as int) =~= s1.subrange(
                53,
                53 + d.slice_size as int,
            ));
            let e = EventModel::Data(d, s1.subrange(53, 53 + d.slice_size as int));
            assert(spec_unpack(s1) == with_events(
                seq![e],
                spec_unpack(s1.skip(53 + d.slice_size as int)),
            ));
            assert(t.skip(53 + d.slice_size as int) =~= s1.skip(53 + d.slice_size as int) + s2);
            lemma_unpack_append(s1.skip(53 + d.slice_size as int), s2);
            assert(spec_unpack(t) == with_events(
                seq![e],
                spec_unpack(s1.skip(53 + d.slice_size as int) + s2),
            ));
            lemma_with_events_assoc(
                seq![e],
                spec_unpack(s1.skip(53 + d.slice_size as int)).events,
                spec_unpack(s2),
            );
        } else if tag == 3 {
            assert(spec_end_at(t.skip(5)) == spec_end_at(s1.skip(5))) by {
                assert(t.skip(5).subrange(0, 8) =~= s1.skip(5).subrange(0, 8));
                assert(t.skip(5).subrange(8, 40) =~= s1.skip(5).subrange(8, 40));
            }
            let e = EventModel::End(spec_end_at(s1.skip(5)));
            assert(spec_unpack(s1) == with_events(seq![e], spec_unpack(s1.skip(45))));
            assert(t.skip(45) =~= s1.skip(45) + s2);
            lemma_unpack_append(s1.skip(45), s2);
            assert(spec_unpack(t) == with_events(seq![e], spec_unpack(s1.skip(45) + s2)));
            lemma_with_events_assoc(seq![e], spec_unpack(s1.skip(45)).events, spec_unpack(s2));
        } else {
            assert(spec_unpack(s1).tail == Tail::Broken(FrameFault::BadTag));
        }
    }
}

/// Fragmentation for start packets: a well-formed start packet cut at
/// any position decodes nothing yet — the whole prefix is held back as
/// leftover — and the leftover followed by the remaining bytes is again
/// the full encoding, whose parse the round-trip law gives.
pub proof fn lemma_fragmentation_start(v: StartFields, i: int)
    requires
        v.wf(),
        0 <= i < v.spec_pack().len(),
    ensures
        spec_unpack(v.spec_pack().take(i)) == (Unpacked {
            events: Seq::empty(),
            tail: Tail::Leftover(v.spec_pack().take(i)),
        }),
        v.spec_pack().take(i) + v.spec_pack().skip(i) == v.spec_pack(),
{
    lemma_start_encoding(v);
    let c = v.spec_pack();
    let p = c.take(i);
    assert(p + c.skip(i) =~= c);
    if i >= min_prefix() {
        assert(p.subrange(0, 4) =~= c.subrange(0, 4));
        assert(p[4] == c[4]);
        assert(p.len() < 61);
    }
}

/// Fragmentation for data packets: a well-formed data packet with its
/// payload, cut at any position, decodes nothing yet — the whole prefix
/// is held back as leftover — and the leftover followed by the
/// remaining bytes is again the full encoding.
pub proof fn lemma_fragmentation_data(v: DataFields, payload: Seq<u8>, i: int)
    requires
        v.wf(),
        0 <= v.slice_size,
        payload.len() == v.slice_size,
        0 <= i < (v.spec_pack() + payload).len(),
    ensures
        spec_unpack((v.spec_pack() + payload).take(i)) == (Unpacked {
            events: Seq::empty(),
            tail: Tail::Leftover((v.spec_pack() + payload).take(i)),
        }),
        (v.spec_pack() + payload).take(i) + (v.spec_pack() + payload).skip(i) == v.spec_pack()
            + payload,
{
    lemma_data_encoding(v, payload);
    let t = v.spec_pack() + payload;
    let p = t.take(i);
    assert(p + t.skip(i) =~= t);
    if i >= min_prefix() {
        assert(p.subrange(0, 4) =~= t.subrange(0, 4));
        assert(p[4] == t[4]);
        if i >= 53 {
            assert(spec_data_at(p.skip(5)) == spec_data_at(t.skip(5))) by {
                assert(p.skip(5).subrange(0, 8) =~= t.skip(5).subrange(0, 8));
                assert(p.skip(5).subrange(8, 40) =~= t.skip(5).subrange(8, 40));
                assert(p.skip(5).subrange(40, 44) =~= t.skip(5).subrange(40, 44));
                assert(p.skip(5).subrange(44, 48) =~= t.skip(5).subrange(44, 48));
            }
            assert(p.len() < 53 + v.slice_size);
        }
    }
}

/// Fragmentation for end packets: an end packet cut at any position is
/// under the 45-byte minimum, decodes nothing, and is held back whole.
pub proof fn lemma_fragmentation_end(v: EndFields, i: int)
    requires
        v.wf(),
        0 <= i < v.spec_pack().len(),
    ensures
        spec_unpack(v.spec_pack().take(i)) == (Unpacked {
            events: Seq::empty(),
            tail: Tail::Leftover(v.spec_pack().take(i)),
        }),
        v.spec_pack().take(i) + v.spec_pack().skip(i) == v.spec_pack(),
{
    lemma_end_encoding(v);
    let c = v.spec_pack();
    assert(c.take(i) + c.skip(i) =~= c);
}

/// Minimum-prefix boundary: a buffer under 45 bytes decodes nothing and
/// is returned whole as leftover, regardless of its content.
pub proof fn lemma_minimum_prefix(s: Seq<u8>)
    requires
        s.len() < min_prefix(),
    ensures
        spec_unpack(s) == (Unpacked { events: Seq::empty(), tail: Tail::Leftover(s) }),
{
}

/// Data payload shortage: a complete data header whose payload is not
/// yet fully present decodes nothing — the leftover begins at the
/// header's magic byte.
pub proof fn lemma_data_payload_shortage(s: Seq<u8>)
    requires
        s.len() >= 53,
        s.subrange(0, 4) == spec_magic(),
        s[4] == 2,
        0 <= spec_data_at(s.skip(5)).slice_size,
        s.len() < 53 + spec_data_at(s.skip(5)).slice_size,
    ensures
        spec_unpack(s) == (Unpacked { events: Seq::empty(), tail: Tail::Leftover(s) }),
{
}

/// Corrupt magic: once at least 45 bytes are present, a buffer that
/// does not begin with the magic bytes is a fatal framing error — never
/// an insufficient-data leftover. (Under 45 bytes the parser has not
/// yet looked at the magic; see `lemma_minimum_prefix`.)
pub proof fn lemma_corrupt_magic(s: Seq<u8>)
    requires
        s.len() >= min_prefix(),
        s.subrange(0, 4) != spec_magic(),
    ensures
        spec_unpack(s) == (Unpacked {
            events: Seq::empty(),
            tail: Tail::Broken(FrameFault::BadMagic),
        }),
{
}

/// Unknown type tag: magic followed by a tag other than 1, 2 or 3 is a
/// fatal framing error.
pub proof fn lemma_unknown_tag(s: Seq<u8>)
    requires
        s.len() >= min_prefix(),
        s.subrange(0, 4) == spec_magic(),
        s[4] != 1,
        s[4] != 2,
        s[4] != 3,
    ensures
        spec_unpack(s) == (Unpacked {
            events: Seq::empty(),
            tail: Tail::Broken(FrameFault::BadTag),
        }),
{
}

} // verus!
