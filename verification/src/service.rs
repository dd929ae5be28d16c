//! The query service: one read request in, one answer out, both as bytes.
//!
//! A request is an encoded filter. An answer is the number of units found as
//! a `u64`, then their records. The service reads the store and never
//! writes to it; a bad request fails alone and leaves everything as it was.

use vstd::prelude::*;
use vstd::bytes::*;
use vstd::slice::*;
use crate::codec::{
    decode_units, encode_units, lemma_records_len, lemma_units_round_trip, records_bytes,
    records_decode, units_of_bytes, RECORD_LEN,
};
use crate::error::QueryError;
use crate::query::Filter;
use crate::store::Store;
use crate::unit::CaptureUnit;

verus! {

/// Width of the count that an answer begins with.
pub const COUNT_LEN: usize = 8;

/// The bytes that answer a query which found `units`.
pub open spec fn answer_bytes(units: Seq<CaptureUnit>) -> Seq<u8> {
    spec_u64_to_le_bytes(units.len() as u64) + records_bytes(units)
}

/// The units an answer carries, if it is well formed: the count it names
/// must be the count of records that follow, and each record must decode.
pub open spec fn answer_units(bytes: Seq<u8>) -> Option<Seq<CaptureUnit>> {
    if bytes.len() < COUNT_LEN {
        None
    } else {
        let count = spec_u64_from_le_bytes(bytes.subrange(0, 8));
        let body = bytes.skip(COUNT_LEN as int);
        if body.len() == count * RECORD_LEN && records_decode(body) {
            Some(units_of_bytes(body))
        } else {
            None
        }
    }
}

/// What the service answers to `request` over a store holding `units`.
pub open spec fn answered(units: Seq<CaptureUnit>, request: Seq<u8>) -> Result<Seq<u8>, QueryError> {
    match Filter::of_bytes(request) {
        Some(filter) => if filter.valid() {
            Ok(answer_bytes(filter.select(units)))
        } else {
            Err(QueryError::BadFilter)
        },
        None => Err(QueryError::BadFilter),
    }
}

/// Answers one request against the store.
pub fn answer(store: &Store, request: &[u8]) -> (r: Result<Vec<u8>, QueryError>)
    ensures
        match r {
            Ok(bytes) => answered(store@.units, request@) == Ok::<Seq<u8>, QueryError>(bytes@),
            Err(e) => answered(store@.units, request@) == Err::<Seq<u8>, QueryError>(e),
        },
{
    let filter = match Filter::decode(request) {
        Ok(filter) => filter,
        Err(e) => {
            return Err(e);
        },
    };
    let found = store.query(&filter);
    let mut bytes = u64_to_le_bytes(found.len() as u64);
    let mut records = encode_units(&found);
    bytes.append(&mut records);
    Ok(bytes)
}

/// Reads an answer back into units. `None` if the answer is cut short,
/// names a count it does not carry, or holds a record that does not decode.
pub fn read_answer(bytes: &[u8]) -> (r: Option<Vec<CaptureUnit>>)
    ensures
        match r {
            Some(units) => answer_units(bytes@) == Some(units@),
            None => answer_units(bytes@) is None,
        },
{
    if bytes.len() < COUNT_LEN {
        return None;
    }
    let count = u64_from_le_bytes(slice_subrange(bytes, 0, 8));
    let body = slice_subrange(bytes, COUNT_LEN, bytes.len());
    assert(body@ =~= bytes@.skip(COUNT_LEN as int));
    let whole: usize = body.len() / RECORD_LEN;
    if body.len() % RECORD_LEN != 0 || whole as u64 != count {
        assert(body@.len() != count * RECORD_LEN) by (nonlinear_arith)
            requires
                body@.len() % 33 != 0 || (body@.len() / 33) != count,
                RECORD_LEN == 33,
        ;
        return None;
    }
    assert(body@.len() == count * RECORD_LEN) by (nonlinear_arith)
        requires
            body@.len() % 33 == 0,
            (body@.len() / 33) == count,
            RECORD_LEN == 33,
    ;
    decode_units(body)
}

/// An answer read back gives exactly the units that were found.
pub proof fn lemma_answer_round_trip(units: Seq<CaptureUnit>)
    requires
        units.len() <= u64::MAX,
    ensures
        answer_units(answer_bytes(units)) == Some(units),
{
    lemma_auto_spec_u64_to_from_le_bytes();
    let bytes = answer_bytes(units);
    let count = spec_u64_to_le_bytes(units.len() as u64);
    assert(bytes.subrange(0, 8) =~= count);
    assert(bytes.skip(COUNT_LEN as int) =~= records_bytes(units));
    lemma_records_len(units);
    lemma_units_round_trip(units, Seq::empty());
    assert(records_bytes(units) + Seq::<u8>::empty() =~= records_bytes(units));
}

} // verus!
