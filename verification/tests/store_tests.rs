use screenpipe_server::address::content_address;
use screenpipe_server::codec::{decode_unit, decode_units, encode_unit, encode_units, header_bytes, RECORD_LEN};
use screenpipe_server::error::{AppendError, StorageInitError};
use screenpipe_server::query::Filter;
use screenpipe_server::store::Store;
use screenpipe_server::unit::{CaptureUnit, MediaClass, Metadata};

fn sample_store() -> Store {
    let mut store = Store::new();
    store.append(CaptureUnit::frame(0, 100, 0xa0, 1920, 1080)).unwrap();
    store.append(CaptureUnit::audio(0, 150, 0xb0, 30_000_000_000)).unwrap();
    store.append(CaptureUnit::frame(1, 300, 0xa1, 1920, 1080)).unwrap();
    store.append(CaptureUnit::frame(3, 300, 0xa3, 1280, 720)).unwrap();
    store.append(CaptureUnit::audio(1, 30_000_000_150, 0xb1, 30_000_000_000)).unwrap();
    store
}

#[test]
fn new_store_is_empty_and_open() {
    let store = Store::new();
    assert!(store.is_open());
    assert!(store.is_empty());
    assert_eq!(store.len(), 0);
    assert_eq!(store.get(0), None);
    assert_eq!(store.latest(MediaClass::Frame), None);
    assert!(store.query(&Filter::all()).is_empty());
}

#[test]
fn append_then_query_returns_the_same_unit() {
    let mut store = Store::new();
    let unit = CaptureUnit::frame(0, 1_000, 0xabcdef, 1920, 1080);
    assert_eq!(store.append(unit), Ok(()));
    let found = store.query(&Filter::all());
    assert_eq!(found, vec![unit]);
    assert_eq!(found[0].sequence_id, 0);
    assert_eq!(found[0].captured_at, 1_000);
    assert_eq!(found[0].payload_ref, 0xabcdef);
    assert_eq!(found[0].metadata, Metadata::Frame { width: 1920, height: 1080 });
    assert_eq!(found[0].class(), MediaClass::Frame);
}

#[test]
fn units_stay_retrievable_after_later_appends() {
    let store = sample_store();
    let all = store.query(&Filter::all());
    assert_eq!(all.len(), 5);
    assert_eq!(all[0], CaptureUnit::frame(0, 100, 0xa0, 1920, 1080));
    assert_eq!(all[1], CaptureUnit::audio(0, 150, 0xb0, 30_000_000_000));
    assert_eq!(all[3], CaptureUnit::frame(3, 300, 0xa3, 1280, 720));
    assert_eq!(store.get(4), Some(CaptureUnit::audio(1, 30_000_000_150, 0xb1, 30_000_000_000)));
    assert_eq!(store.get(5), None);
}

#[test]
fn duplicate_sequence_id_is_an_ordering_violation() {
    let mut store = Store::new();
    assert_eq!(store.append(CaptureUnit::frame(3, 10, 1, 2, 2)), Ok(()));
    assert_eq!(store.append(CaptureUnit::frame(3, 11, 2, 2, 2)), Err(AppendError::OrderingViolation));
    assert_eq!(store.len(), 1);
}

#[test]
fn lower_sequence_id_is_an_ordering_violation() {
    let mut store = Store::new();
    assert_eq!(store.append(CaptureUnit::frame(3, 10, 1, 2, 2)), Ok(()));
    assert_eq!(store.append(CaptureUnit::frame(2, 11, 2, 2, 2)), Err(AppendError::OrderingViolation));
    assert_eq!(store.query(&Filter::all()), vec![CaptureUnit::frame(3, 10, 1, 2, 2)]);
}

#[test]
fn earlier_timestamp_is_an_ordering_violation() {
    let mut store = Store::new();
    assert_eq!(store.append(CaptureUnit::audio(0, 10, 1, 5)), Ok(()));
    assert_eq!(store.append(CaptureUnit::audio(1, 9, 2, 5)), Err(AppendError::OrderingViolation));
    assert_eq!(store.append(CaptureUnit::audio(1, 10, 2, 5)), Ok(()));
}

#[test]
fn classes_are_ordered_independently() {
    let mut store = Store::new();
    assert_eq!(store.append(CaptureUnit::frame(7, 1_000, 1, 2, 2)), Ok(()));
    // Lower number and earlier time, but another class.
    assert_eq!(store.append(CaptureUnit::audio(0, 10, 2, 5)), Ok(()));
    assert_eq!(store.append(CaptureUnit::frame(8, 1_000, 3, 2, 2)), Ok(()));
    assert_eq!(store.latest(MediaClass::Frame), Some(CaptureUnit::frame(8, 1_000, 3, 2, 2)));
    assert_eq!(store.latest(MediaClass::Audio), Some(CaptureUnit::audio(0, 10, 2, 5)));
}

#[test]
fn gaps_in_sequence_ids_are_accepted() {
    let mut store = Store::new();
    assert_eq!(store.append(CaptureUnit::frame(0, 1, 1, 2, 2)), Ok(()));
    assert_eq!(store.append(CaptureUnit::frame(5, 2, 1, 2, 2)), Ok(()));
    assert_eq!(store.len(), 2);
}

#[test]
fn check_answers_like_append_without_appending() {
    let mut store = Store::new();
    let first = CaptureUnit::frame(1, 10, 1, 2, 2);
    assert_eq!(store.check(&first), Ok(()));
    assert_eq!(store.len(), 0);
    store.append(first).unwrap();
    assert_eq!(store.check(&first), Err(AppendError::OrderingViolation));
    assert_eq!(store.check(&CaptureUnit::frame(2, 10, 1, 2, 2)), Ok(()));
    store.close();
    assert_eq!(store.check(&CaptureUnit::frame(2, 10, 1, 2, 2)), Err(AppendError::Closed));
}

#[test]
fn closed_store_refuses_appends_but_answers_queries() {
    let mut store = sample_store();
    store.close();
    assert!(!store.is_open());
    assert_eq!(store.append(CaptureUnit::frame(10, 40_000_000_000, 1, 2, 2)), Err(AppendError::Closed));
    // Even a unit that is out of order is refused as closed.
    assert_eq!(store.append(CaptureUnit::frame(0, 0, 1, 2, 2)), Err(AppendError::Closed));
    assert_eq!(store.len(), 5);
    assert_eq!(store.query(&Filter::all()).len(), 5);
}

#[test]
fn record_layout() {
    let unit = CaptureUnit::frame(0x0102030405060708, 0x1112131415161718, 0x2122232425262728, 0x31323334, 0x41424344);
    let record = encode_unit(&unit);
    assert_eq!(record.len(), RECORD_LEN);
    assert_eq!(
        record,
        vec![
            1, 0x08, 0x07, 0x06, 0x05, 0x04, 0x03, 0x02, 0x01, 0x18, 0x17, 0x16, 0x15, 0x14, 0x13, 0x12, 0x11,
            0x28, 0x27, 0x26, 0x25, 0x24, 0x23, 0x22, 0x21, 0x34, 0x33, 0x32, 0x31, 0x44, 0x43, 0x42, 0x41,
        ]
    );
    let unit = CaptureUnit::audio(1, 2, 3, 0x0102030405060708);
    let record = encode_unit(&unit);
    assert_eq!(record[0], 2);
    assert_eq!(&record[25..], &[0x08, 0x07, 0x06, 0x05, 0x04, 0x03, 0x02, 0x01]);
}

#[test]
fn record_round_trip() {
    for unit in [
        CaptureUnit::frame(0, 0, 0, 0, 0),
        CaptureUnit::frame(u64::MAX, u64::MAX, u64::MAX, u32::MAX, u32::MAX),
        CaptureUnit::audio(17, 1_700_000_000_000_000_000, 0xdead_beef, 30_000_000_000),
        CaptureUnit::audio(u64::MAX, 0, 1, u64::MAX),
    ] {
        assert_eq!(decode_unit(&encode_unit(&unit)), Some(unit));
    }
}

#[test]
fn malformed_records_do_not_decode() {
    let good = encode_unit(&CaptureUnit::frame(1, 2, 3, 4, 5));
    assert_eq!(decode_unit(&good[..32]), None);
    assert_eq!(decode_unit(&[]), None);
    let mut long = good.clone();
    long.push(0);
    assert_eq!(decode_unit(&long), None);
    for tag in [0u8, 3, 255] {
        let mut bad = good.clone();
        bad[0] = tag;
        assert_eq!(decode_unit(&bad), None);
    }
}

#[test]
fn units_round_trip_and_torn_tail_is_dropped() {
    let units = vec![
        CaptureUnit::frame(0, 1, 2, 3, 4),
        CaptureUnit::audio(0, 1, 2, 3),
        CaptureUnit::frame(1, 1, 2, 3, 4),
    ];
    let mut bytes = encode_units(&units);
    assert_eq!(bytes.len(), 3 * RECORD_LEN);
    assert_eq!(decode_units(&bytes), Some(units.clone()));
    let next = encode_unit(&CaptureUnit::frame(2, 1, 2, 3, 4));
    bytes.extend_from_slice(&next[..20]);
    assert_eq!(decode_units(&bytes), Some(units));
    assert_eq!(decode_units(&[]), Some(vec![]));
}

#[test]
fn image_begins_with_the_header() {
    assert_eq!(header_bytes(), vec![0x53, 0x50, 0x4c, 0x47, 1, 0, 0, 0]);
    assert_eq!(Store::new().image(), header_bytes());
    let image = sample_store().image();
    assert_eq!(image.len(), 8 + 5 * RECORD_LEN);
    assert_eq!(&image[..8], &header_bytes()[..]);
}

#[test]
fn image_round_trip() {
    let store = sample_store();
    let back = Store::open(&store.image()).unwrap();
    assert!(back.is_open());
    assert_eq!(back.query(&Filter::all()), store.query(&Filter::all()));
    assert_eq!(back.latest(MediaClass::Frame), store.latest(MediaClass::Frame));
    assert_eq!(back.latest(MediaClass::Audio), store.latest(MediaClass::Audio));
    assert_eq!(back.image(), store.image());
}

#[test]
fn reopened_store_keeps_enforcing_order() {
    let mut back = Store::open(&sample_store().image()).unwrap();
    assert_eq!(back.append(CaptureUnit::frame(3, 400, 1, 2, 2)), Err(AppendError::OrderingViolation));
    assert_eq!(back.append(CaptureUnit::frame(4, 400, 1, 2, 2)), Ok(()));
}

#[test]
fn empty_image_is_a_fresh_store() {
    let store = Store::open(&[]).unwrap();
    assert!(store.is_empty());
    assert!(store.is_open());
}

#[test]
fn half_written_record_is_never_returned() {
    let store = sample_store();
    let whole = store.image();
    let next = encode_unit(&CaptureUnit::frame(4, 40_000_000_000, 9, 2, 2));
    for written in 0..RECORD_LEN {
        let mut image = whole.clone();
        image.extend_from_slice(&next[..written]);
        let seen = Store::open(&image).unwrap();
        assert_eq!(seen.query(&Filter::all()), store.query(&Filter::all()), "after {written} bytes");
    }
    let mut image = whole.clone();
    image.extend_from_slice(&next);
    assert_eq!(Store::open(&image).unwrap().len(), 6);
}

#[test]
fn bad_header_is_rejected() {
    assert_eq!(Store::open(&[1, 2, 3]).err(), Some(StorageInitError::BadHeader));
    assert_eq!(Store::open(&[0x53, 0x50, 0x4c]).err(), Some(StorageInitError::BadHeader));
    assert_eq!(Store::open(&[0x53, 0x50, 0x4c, 0x47, 1, 0, 0]).err(), Some(StorageInitError::BadHeader));
    assert_eq!(Store::open(&[0x53, 0x50, 0x4c, 0x48, 1, 0, 0, 0]).err(), Some(StorageInitError::BadHeader));
    assert_eq!(Store::open(&[0; 64]).err(), Some(StorageInitError::BadHeader));
}

#[test]
fn unknown_version_is_rejected() {
    assert_eq!(
        Store::open(&[0x53, 0x50, 0x4c, 0x47, 2, 0, 0, 0]).err(),
        Some(StorageInitError::UnsupportedVersion)
    );
    assert_eq!(
        Store::open(&[0x53, 0x50, 0x4c, 0x47, 1, 0, 0, 1]).err(),
        Some(StorageInitError::UnsupportedVersion)
    );
}

#[test]
fn corrupt_record_is_rejected() {
    let mut image = sample_store().image();
    image[8 + RECORD_LEN] = 9;
    assert_eq!(Store::open(&image).err(), Some(StorageInitError::CorruptRecord));
}

#[test]
fn out_of_order_image_is_rejected() {
    let mut image = header_bytes();
    image.extend(encode_unit(&CaptureUnit::frame(1, 10, 0, 1, 1)));
    image.extend(encode_unit(&CaptureUnit::audio(0, 0, 0, 1)));
    image.extend(encode_unit(&CaptureUnit::frame(1, 11, 0, 1, 1)));
    assert_eq!(Store::open(&image).err(), Some(StorageInitError::OutOfOrder));
}

#[test]
fn corrupt_record_wins_over_disorder() {
    let mut image = header_bytes();
    image.extend(encode_unit(&CaptureUnit::frame(1, 10, 0, 1, 1)));
    image.extend(encode_unit(&CaptureUnit::frame(0, 10, 0, 1, 1)));
    let mut bad = encode_unit(&CaptureUnit::frame(2, 10, 0, 1, 1));
    bad[0] = 0;
    image.extend(bad);
    assert_eq!(Store::open(&image).err(), Some(StorageInitError::CorruptRecord));
}

#[test]
fn content_address_is_fnv1a() {
    assert_eq!(content_address(&[]), 0xcbf2_9ce4_8422_2325);
    assert_eq!(content_address(b"a"), 0xaf63_dc4c_8601_ec8c);
    assert_eq!(content_address(b"foobar"), 0x8594_4171_f739_67e8);
    assert_ne!(content_address(b"ab"), content_address(b"ba"));
}
