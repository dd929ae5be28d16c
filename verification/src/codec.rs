//! The durable representation: fixed-width little-endian records behind an
//! eight-byte header.
//!
//! A record is 33 bytes: a class tag, then sequence number, timestamp and
//! payload address as `u64`, then eight bytes of class metadata. Because
//! every record has the same width, a reader takes only whole records and a
//! write that was cut short leaves a tail that no reader ever decodes.

use vstd::prelude::*;
use vstd::bytes::*;
use vstd::slice::*;
use crate::unit::{ordered, CaptureUnit, MediaClass, Metadata};
use crate::error::StorageInitError;

verus! {

/// Width of one encoded unit.
pub const RECORD_LEN: usize = 33;

/// Width of the image header: four magic bytes, then the layout version.
pub const HEADER_LEN: usize = 8;

pub const TAG_FRAME: u8 = 1;

pub const TAG_AUDIO: u8 = 2;

/// The layout version this crate writes and reads.
pub const LAYOUT_VERSION: u32 = 1;

pub open spec fn magic() -> Seq<u8> {
    seq![0x53u8, 0x50u8, 0x4cu8, 0x47u8]
}

pub open spec fn header() -> Seq<u8> {
    magic() + spec_u32_to_le_bytes(LAYOUT_VERSION)
}

pub open spec fn tag_of(class: MediaClass) -> u8 {
    match class {
        MediaClass::Frame => TAG_FRAME,
        MediaClass::Audio => TAG_AUDIO,
    }
}

pub open spec fn metadata_bytes(metadata: Metadata) -> Seq<u8> {
    match metadata {
        Metadata::Frame { width, height } => spec_u32_to_le_bytes(width) + spec_u32_to_le_bytes(height),
        Metadata::Audio { duration } => spec_u64_to_le_bytes(duration),
    }
}

/// The record that stands for `unit`.
pub open spec fn unit_bytes(unit: CaptureUnit) -> Seq<u8> {
    seq![tag_of(unit.class_of())] + spec_u64_to_le_bytes(unit.sequence_id) + spec_u64_to_le_bytes(
        unit.captured_at,
    ) + spec_u64_to_le_bytes(unit.payload_ref) + metadata_bytes(unit.metadata)
}

/// The unit a record stands for, if the record is well formed.
pub open spec fn unit_of_bytes(record: Seq<u8>) -> Option<CaptureUnit> {
    if record.len() != RECORD_LEN {
        None
    } else {
        let sequence_id = spec_u64_from_le_bytes(record.subrange(1, 9));
        let captured_at = spec_u64_from_le_bytes(record.subrange(9, 17));
        let payload_ref = spec_u64_from_le_bytes(record.subrange(17, 25));
        if record[0] == TAG_FRAME {
            Some(
                CaptureUnit {
                    sequence_id,
                    captured_at,
                    payload_ref,
                    metadata: Metadata::Frame {
                        width: spec_u32_from_le_bytes(record.subrange(25, 29)),
                        height: spec_u32_from_le_bytes(record.subrange(29, 33)),
                    },
                },
            )
        } else if record[0] == TAG_AUDIO {
            Some(
                CaptureUnit {
                    sequence_id,
                    captured_at,
                    payload_ref,
                    metadata: Metadata::Audio { duration: spec_u64_from_le_bytes(record.subrange(25, 33)) },
                },
            )
        } else {
            None
        }
    }
}

/// The records of `units`, one after another.
pub open spec fn records_bytes(units: Seq<CaptureUnit>) -> Seq<u8>
    decreases units.len(),
{
    if units.len() == 0 {
        Seq::empty()
    } else {
        records_bytes(units.drop_last()) + unit_bytes(units.last())
    }
}

/// The whole image of a store that holds `units`.
pub open spec fn image_of(units: Seq<CaptureUnit>) -> Seq<u8> {
    header() + records_bytes(units)
}

/// How many whole records `body` holds. A shorter tail is not counted.
pub open spec fn record_count(body: Seq<u8>) -> nat {
    body.len() / (RECORD_LEN as nat)
}

/// The bytes of the `i`-th whole record of `body`.
pub open spec fn record_at(body: Seq<u8>, i: int) -> Seq<u8> {
    body.subrange(i * RECORD_LEN, i * RECORD_LEN + RECORD_LEN)
}

/// Whether every whole record of `body` decodes.
pub open spec fn records_decode(body: Seq<u8>) -> bool {
    forall|i: int| 0 <= i < record_count(body) ==> unit_of_bytes(#[trigger] record_at(body, i)) is Some
}

/// The units that the whole records of `body` stand for.
pub open spec fn units_of_bytes(body: Seq<u8>) -> Seq<CaptureUnit> {
    Seq::new(record_count(body), |i: int| unit_of_bytes(record_at(body, i)).unwrap())
}

/// How much of an image of `len` bytes is header and whole records: the
/// length to cut an image back to before anything is appended to it.
pub open spec fn whole_len(len: nat) -> nat {
    if len < HEADER_LEN {
        0
    } else {
        HEADER_LEN as nat + ((len - HEADER_LEN) / (RECORD_LEN as int)) as nat * RECORD_LEN as nat
    }
}

/// What opening an image yields. An empty image is a store that was never
/// written to. Otherwise the header must match, every whole record must
/// decode, and the decoded units must be in order; bytes after the last
/// whole record are ignored.
pub open spec fn parsed(image: Seq<u8>) -> Result<Seq<CaptureUnit>, StorageInitError> {
    if image.len() == 0 {
        Ok(Seq::empty())
    } else if image.len() < HEADER_LEN || image.subrange(0, 4) != magic() {
        Err(StorageInitError::BadHeader)
    } else if spec_u32_from_le_bytes(image.subrange(4, 8)) != LAYOUT_VERSION {
        Err(StorageInitError::UnsupportedVersion)
    } else {
        let body = image.skip(HEADER_LEN as int);
        if !records_decode(body) {
            Err(StorageInitError::CorruptRecord)
        } else if !ordered(units_of_bytes(body)) {
            Err(StorageInitError::OutOfOrder)
        } else {
            Ok(units_of_bytes(body))
        }
    }
}

/// Encodes one unit as its record.
pub fn encode_unit(unit: &CaptureUnit) -> (record: Vec<u8>)
    ensures
        record@ == unit_bytes(*unit),
        record@.len() == RECORD_LEN,
{
    let mut record: Vec<u8> = Vec::new();
    match unit.metadata {
        Metadata::Frame { .. } => record.push(TAG_FRAME),
        Metadata::Audio { .. } => record.push(TAG_AUDIO),
    }
    let mut word = u64_to_le_bytes(unit.sequence_id);
    record.append(&mut word);
    let mut word = u64_to_le_bytes(unit.captured_at);
    record.append(&mut word);
    let mut word = u64_to_le_bytes(unit.payload_ref);
    record.append(&mut word);
    match unit.metadata {
        Metadata::Frame { width, height } => {
            let mut half = u32_to_le_bytes(width);
            record.append(&mut half);
            let mut half = u32_to_le_bytes(height);
            record.append(&mut half);
        },
        Metadata::Audio { duration } => {
            let mut word = u64_to_le_bytes(duration);
            record.append(&mut word);
        },
    }
    proof {
        lemma_unit_round_trip(*unit);
        assert(record@ =~= unit_bytes(*unit));
    }
    record
}

/// Decodes one record. `None` unless the slice is exactly one record wide
/// and carries a known class tag.
pub fn decode_unit(record: &[u8]) -> (unit: Option<CaptureUnit>)
    ensures
        unit == unit_of_bytes(record@),
{
    if record.len() != RECORD_LEN {
        return None;
    }
    let tag: u8 = record[0];
    let sequence_id = u64_from_le_bytes(slice_subrange(record, 1, 9));
    let captured_at = u64_from_le_bytes(slice_subrange(record, 9, 17));
    let payload_ref = u64_from_le_bytes(slice_subrange(record, 17, 25));
    if tag == TAG_FRAME {
        let width = u32_from_le_bytes(slice_subrange(record, 25, 29));
        let height = u32_from_le_bytes(slice_subrange(record, 29, 33));
        Some(CaptureUnit { sequence_id, captured_at, payload_ref, metadata: Metadata::Frame { width, height } })
    } else if tag == TAG_AUDIO {
        let duration = u64_from_le_bytes(slice_subrange(record, 25, 33));
        Some(CaptureUnit { sequence_id, captured_at, payload_ref, metadata: Metadata::Audio { duration } })
    } else {
        None
    }
}

/// Encodes a run of units as consecutive records, in order.
pub fn encode_units(units: &Vec<CaptureUnit>) -> (bytes: Vec<u8>)
    ensures
        bytes@ == records_bytes(units@),
{
    let mut bytes: Vec<u8> = Vec::new();
    let mut i: usize = 0;
    assert(units@.take(0) =~= Seq::<CaptureUnit>::empty());
    while i < units.len()
        invariant
            i <= units.len(),
            bytes@ == records_bytes(units@.take(i as int)),
        decreases units.len() - i,
    {
        let mut record = encode_unit(&units[i]);
        bytes.append(&mut record);
        proof {
            let grown = units@.take(i + 1);
            assert(grown.drop_last() =~= units@.take(i as int));
            assert(grown.last() == units@[i as int]);
        }
        i += 1;
    }
    assert(units@.take(units.len() as int) =~= units@);
    bytes
}

/// Decodes every whole record of `body`, in order. `None` as soon as one
/// does not decode; a tail shorter than a record is left unread.
pub fn decode_units(body: &[u8]) -> (units: Option<Vec<CaptureUnit>>)
    ensures
        units is Some <==> records_decode(body@),
        units matches Some(v) ==> v@ == units_of_bytes(body@),
{
    let count: usize = body.len() / RECORD_LEN;
    let mut units: Vec<CaptureUnit> = Vec::new();
    let mut i: usize = 0;
    while i < count
        invariant
            count == record_count(body@),
            body@.len() <= usize::MAX,
            i <= count,
            units@.len() == i,
            forall|k: int| 0 <= k < i ==> unit_of_bytes(#[trigger] record_at(body@, k)) == Some(units@[k]),
        decreases count - i,
    {
        assert(i * RECORD_LEN + RECORD_LEN <= body@.len()) by (nonlinear_arith)
            requires
                i < count,
                count == body@.len() / 33,
                RECORD_LEN == 33,
        ;
        let record = slice_subrange(body, i * RECORD_LEN, i * RECORD_LEN + RECORD_LEN);
        assert(record@ == record_at(body@, i as int));
        match decode_unit(record) {
            None => {
                return None;
            },
            Some(unit) => {
                units.push(unit);
            },
        }
        i += 1;
    }
    assert(units@ =~= units_of_bytes(body@));
    Some(units)
}

/// The length of the part of an image that counts, given the length of the
/// whole: what lies beyond is the tail of a write that was cut short.
pub fn durable_len(image_len: usize) -> (n: usize)
    ensures
        n == whole_len(image_len as nat),
        n <= image_len,
{
    if image_len < HEADER_LEN {
        0
    } else {
        let body: usize = image_len - HEADER_LEN;
        let whole: usize = body / RECORD_LEN;
        assert(whole * RECORD_LEN <= body) by (nonlinear_arith)
            requires
                whole == body / 33,
                RECORD_LEN == 33,
        ;
        HEADER_LEN + whole * RECORD_LEN
    }
}

/// The eight bytes every non-empty image begins with.
pub fn header_bytes() -> (bytes: Vec<u8>)
    ensures
        bytes@ == header(),
{
    let mut bytes: Vec<u8> = Vec::new();
    bytes.push(0x53u8);
    bytes.push(0x50u8);
    bytes.push(0x4cu8);
    bytes.push(0x47u8);
    let mut version = u32_to_le_bytes(LAYOUT_VERSION);
    bytes.append(&mut version);
    assert(bytes@ =~= header());
    bytes
}

/// Every record is `RECORD_LEN` bytes and decodes to the unit it was made from.
pub proof fn lemma_unit_round_trip(unit: CaptureUnit)
    ensures
        unit_bytes(unit).len() == RECORD_LEN,
        unit_of_bytes(unit_bytes(unit)) == Some(unit),
{
    lemma_auto_spec_u64_to_from_le_bytes();
    lemma_auto_spec_u32_to_from_le_bytes();
    let record = unit_bytes(unit);
    let a = spec_u64_to_le_bytes(unit.sequence_id);
    let b = spec_u64_to_le_bytes(unit.captured_at);
    let c = spec_u64_to_le_bytes(unit.payload_ref);
    assert(metadata_bytes(unit.metadata).len() == 8);
    assert(record.len() == 33);
    assert(record.subrange(1, 9) =~= a);
    assert(record.subrange(9, 17) =~= b);
    assert(record.subrange(17, 25) =~= c);
    match unit.metadata {
        Metadata::Frame { width, height } => {
            assert(record.subrange(25, 29) =~= spec_u32_to_le_bytes(width));
            assert(record.subrange(29, 33) =~= spec_u32_to_le_bytes(height));
        },
        Metadata::Audio { duration } => {
            assert(record.subrange(25, 33) =~= spec_u64_to_le_bytes(duration));
        },
    }
}

/// A record that decodes is the one and only record of the unit it gives:
/// no two byte strings stand for the same unit.
pub proof fn lemma_record_is_canonical(record: Seq<u8>)
    requires
        unit_of_bytes(record) is Some,
    ensures
        unit_bytes(unit_of_bytes(record).unwrap()) == record,
{
    lemma_auto_spec_u64_to_from_le_bytes();
    lemma_auto_spec_u32_to_from_le_bytes();
    let unit = unit_of_bytes(record).unwrap();
    assert(spec_u64_to_le_bytes(unit.sequence_id) == record.subrange(1, 9));
    assert(spec_u64_to_le_bytes(unit.captured_at) == record.subrange(9, 17));
    assert(spec_u64_to_le_bytes(unit.payload_ref) == record.subrange(17, 25));
    match unit.metadata {
        Metadata::Frame { width, height } => {
            assert(spec_u32_to_le_bytes(width) == record.subrange(25, 29));
            assert(spec_u32_to_le_bytes(height) == record.subrange(29, 33));
        },
        Metadata::Audio { duration } => {
            assert(spec_u64_to_le_bytes(duration) == record.subrange(25, 33));
        },
    }
    assert(unit_bytes(unit) =~= record);
}

/// The records of `units` take `RECORD_LEN` bytes each.
pub proof fn lemma_records_len(units: Seq<CaptureUnit>)
    ensures
        records_bytes(units).len() == units.len() * RECORD_LEN,
    decreases units.len(),
{
    if units.len() > 0 {
        lemma_records_len(units.drop_last());
        lemma_unit_round_trip(units.last());
    }
}

/// The `i`-th record of an encoded sequence is the record of its `i`-th
/// unit, whatever bytes follow the sequence.
pub proof fn lemma_record_at(units: Seq<CaptureUnit>, tail: Seq<u8>, i: int)
    requires
        0 <= i < units.len(),
    ensures
        record_at(records_bytes(units) + tail, i) == unit_bytes(units[i]),
    decreases units.len(),
{
    let front = units.drop_last();
    let last = unit_bytes(units.last());
    lemma_records_len(units);
    lemma_records_len(front);
    lemma_unit_round_trip(units.last());
    if i == units.len() - 1 {
        assert(record_at(records_bytes(units) + tail, i) =~= last);
    } else {
        lemma_record_at(front, last + tail, i);
        lemma_unit_round_trip(front[i]);
        assert(records_bytes(units) + tail =~= records_bytes(front) + (last + tail));
    }
}

/// Reading back what was written, with or without a torn record at the end,
/// gives exactly the units that were written whole.
pub proof fn lemma_units_round_trip(units: Seq<CaptureUnit>, tail: Seq<u8>)
    requires
        tail.len() < RECORD_LEN,
    ensures
        record_count(records_bytes(units) + tail) == units.len(),
        records_decode(records_bytes(units) + tail),
        units_of_bytes(records_bytes(units) + tail) == units,
{
    let body = records_bytes(units) + tail;
    lemma_records_len(units);
    assert(body.len() == units.len() * 33 + tail.len());
    assert(record_count(body) == units.len()) by (nonlinear_arith)
        requires
            body.len() == units.len() * 33 + tail.len(),
            tail.len() < 33,
            record_count(body) == body.len() / 33,
    ;
    assert forall|i: int| 0 <= i < record_count(body) implies unit_of_bytes(
        #[trigger] record_at(body, i),
    ) == Some(units[i]) by {
        lemma_record_at(units, tail, i);
        lemma_unit_round_trip(units[i]);
    }
    assert(units_of_bytes(body) =~= units);
}

/// Opening an image gives back exactly the units it was made from. The same
/// holds while a further record is only partly on disk: a reader of a store
/// that is being appended to sees every unit written so far and nothing of
/// the one in flight.
pub proof fn lemma_image_round_trip(units: Seq<CaptureUnit>, tail: Seq<u8>)
    requires
        ordered(units),
        tail.len() < RECORD_LEN,
    ensures
        parsed(image_of(units) + tail) == Ok::<Seq<CaptureUnit>, StorageInitError>(units),
{
    lemma_auto_spec_u32_to_from_le_bytes();
    let image = image_of(units) + tail;
    let version = spec_u32_to_le_bytes(LAYOUT_VERSION);
    assert(header().len() == 8);
    assert(image.subrange(0, 4) =~= magic());
    assert(image.subrange(4, 8) =~= version);
    assert(image.skip(HEADER_LEN as int) =~= records_bytes(units) + tail);
    lemma_units_round_trip(units, tail);
}

/// A record cut short at any point is shorter than a record, so the law
/// above covers every torn write.
pub proof fn lemma_torn_append_is_invisible(units: Seq<CaptureUnit>, unit: CaptureUnit, written: int)
    requires
        ordered(units),
        0 <= written < RECORD_LEN,
    ensures
        parsed(image_of(units) + unit_bytes(unit).take(written)) == Ok::<
            Seq<CaptureUnit>,
            StorageInitError,
        >(units),
{
    lemma_unit_round_trip(unit);
    lemma_image_round_trip(units, unit_bytes(unit).take(written));
}

/// Once the record is on disk in full, the unit is there.
pub proof fn lemma_whole_append_is_visible(units: Seq<CaptureUnit>, unit: CaptureUnit)
    requires
        ordered(units.push(unit)),
    ensures
        image_of(units.push(unit)) == image_of(units) + unit_bytes(unit),
        parsed(image_of(units) + unit_bytes(unit)) == Ok::<Seq<CaptureUnit>, StorageInitError>(
            units.push(unit),
        ),
{
    let grown = units.push(unit);
    assert(grown.drop_last() =~= units);
    assert(grown.last() == unit);
    assert(image_of(grown) =~= image_of(units) + unit_bytes(unit));
    lemma_image_round_trip(grown, Seq::empty());
    assert(image_of(grown) + Seq::<u8>::empty() =~= image_of(grown));
}

/// The first `k` whole records of a body that decodes are the records of
/// the first `k` units it decodes to.
pub proof fn lemma_records_are_canonical(body: Seq<u8>, k: int)
    requires
        records_decode(body),
        0 <= k <= record_count(body),
    ensures
        k * RECORD_LEN <= body.len(),
        records_bytes(units_of_bytes(body).take(k)) == body.take(k * RECORD_LEN),
    decreases k,
{
    let units = units_of_bytes(body);
    assert(k * RECORD_LEN <= body.len()) by (nonlinear_arith)
        requires
            0 <= k <= body.len() / 33,
            RECORD_LEN == 33,
    ;
    if k == 0 {
        assert(units.take(0) =~= Seq::<CaptureUnit>::empty());
        assert(body.take(0) =~= Seq::<u8>::empty());
    } else {
        lemma_records_are_canonical(body, k - 1);
        let front = units.take(k);
        assert(front.drop_last() =~= units.take(k - 1));
        assert(front.last() == unit_of_bytes(record_at(body, k - 1)).unwrap());
        lemma_record_is_canonical(record_at(body, k - 1));
        assert((k - 1) * RECORD_LEN + RECORD_LEN == k * RECORD_LEN) by (nonlinear_arith);
        assert(body.take((k - 1) * RECORD_LEN) + record_at(body, k - 1) =~= body.take(k * RECORD_LEN));
    }
}

/// An image that opens is, up to its last whole record, exactly the image
/// of the units it holds: opening and writing back loses nothing but a torn
/// tail.
pub proof fn lemma_image_is_canonical(image: Seq<u8>)
    requires
        image.len() > 0,
        parsed(image) is Ok,
    ensures
        whole_len(image.len()) <= image.len(),
        image_of(parsed(image)->Ok_0) == image.take(whole_len(image.len()) as int),
{
    lemma_auto_spec_u32_to_from_le_bytes();
    let body = image.skip(HEADER_LEN as int);
    let n = record_count(body) as int;
    let units = units_of_bytes(body);
    lemma_records_are_canonical(body, n);
    assert(units.take(n) =~= units);
    assert(header() =~= image.take(HEADER_LEN as int)) by {
        assert(spec_u32_to_le_bytes(LAYOUT_VERSION) == image.subrange(4, 8));
        assert(magic() == image.subrange(0, 4));
        assert(image.subrange(0, 4) + image.subrange(4, 8) =~= image.take(8));
    }
    assert(body.len() == image.len() - HEADER_LEN);
    assert(image.take(HEADER_LEN as int) + body.take(n * RECORD_LEN) =~= image.take(
        HEADER_LEN + n * RECORD_LEN,
    ));
}

} // verus!
