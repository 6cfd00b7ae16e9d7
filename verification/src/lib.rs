//! ATPP: a stream-oriented binary packet protocol for framing a blob
//! transfer (start descriptor, data slices, end marker) over a
//! byte-oriented transport, together with a reassembling parser that
//! tolerates arbitrary fragmentation and concatenation of the stream.

mod adapter;
mod endian;
mod laws;
mod packet;
mod parser;

pub use adapter::{AtppAdapter, AtppHandle};
pub use endian::{read_i32_be, read_i64_be};
pub use endian::{spec_be_i32, spec_be_i64, spec_be_u32, spec_be_u64};
pub use endian::{spec_i32_of_be, spec_i64_of_be, spec_u32_of_be, spec_u64_of_be};
pub use packet::{spec_magic, token_len};
pub use packet::{AtppDataPackage, AtppEndPackage, AtppError, AtppEvent, AtppStartPackage};
pub use packet::{DataFields, EndFields, EventModel, StartFields};
pub use parser::{events_of, min_prefix, spec_data_at, spec_end_at, spec_start_at, spec_unpack};
pub use parser::{spec_fault_message, unpack_events, unpack_post, with_events};
pub use parser::{FrameFault, Tail, Unpacked};
pub use laws::{
    lemma_corrupt_magic, lemma_data_payload_shortage, lemma_fragmentation_data,
    lemma_fragmentation_end, lemma_fragmentation_start, lemma_minimum_prefix,
    lemma_round_trip_data, lemma_round_trip_end, lemma_round_trip_start, lemma_unknown_tag,
    lemma_unpack_append,
};
