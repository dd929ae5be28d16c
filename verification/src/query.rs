//! Read requests: what a filter selects, and how a filter travels as bytes.

use vstd::prelude::*;
use vstd::bytes::*;
use vstd::slice::*;
use crate::error::QueryError;
use crate::unit::{CaptureUnit, MediaClass};

verus! {

/// Width of an encoded filter: a class byte, then the two ends of the time
/// range and the limit as `u64`.
pub const FILTER_LEN: usize = 25;

/// Class byte of a filter that takes both classes.
pub const ANY_CLASS: u8 = 0;

/// Which units a query returns: those of `class` (either class if `None`)
/// taken between `from` and `to` inclusive, oldest first, at most `limit`
/// of them.
#[derive(Clone, Copy, Debug, PartialEq, Eq)]
pub struct Filter {
    pub class: Option<MediaClass>,
    pub from: u64,
    pub to: u64,
    pub limit: u64,
}

impl Filter {
    /// A filter names a time range that can hold something.
    pub open spec fn valid(self) -> bool {
        self.from <= self.to
    }

    pub open spec fn matches(self, unit: CaptureUnit) -> bool {
        &&& self.class matches Some(c) ==> unit.class_of() == c
        &&& self.from <= unit.captured_at <= self.to
    }

    /// All the units of `units` that match, in their stored order.
    pub open spec fn hits(self, units: Seq<CaptureUnit>) -> Seq<CaptureUnit> {
        units.filter(|u: CaptureUnit| self.matches(u))
    }

    /// The answer to the query over `units`: the first `limit` hits.
    pub open spec fn select(self, units: Seq<CaptureUnit>) -> Seq<CaptureUnit> {
        let hits = self.hits(units);
        if hits.len() <= self.limit {
            hits
        } else {
            hits.take(self.limit as int)
        }
    }

    pub open spec fn class_byte(class: Option<MediaClass>) -> u8 {
        match class {
            None => ANY_CLASS,
            Some(MediaClass::Frame) => 1,
            Some(MediaClass::Audio) => 2,
        }
    }

    /// The bytes that stand for this filter on the wire.
    pub open spec fn bytes(self) -> Seq<u8> {
        seq![Self::class_byte(self.class)] + spec_u64_to_le_bytes(self.from) + spec_u64_to_le_bytes(
            self.to,
        ) + spec_u64_to_le_bytes(self.limit)
    }

    /// The filter that `bytes` stand for, whether or not it is valid.
    pub open spec fn of_bytes(bytes: Seq<u8>) -> Option<Filter> {
        if bytes.len() != FILTER_LEN || bytes[0] > 2 {
            None
        } else {
            Some(
                Filter {
                    class: if bytes[0] == 1 {
                        Some(MediaClass::Frame)
                    } else if bytes[0] == 2 {
                        Some(MediaClass::Audio)
                    } else {
                        None
                    },
                    from: spec_u64_from_le_bytes(bytes.subrange(1, 9)),
                    to: spec_u64_from_le_bytes(bytes.subrange(9, 17)),
                    limit: spec_u64_from_le_bytes(bytes.subrange(17, 25)),
                },
            )
        }
    }

    /// Builds a filter, refusing a time range whose start lies after its end.
    pub fn new(class: Option<MediaClass>, from: u64, to: u64, limit: u64) -> (r: Result<Filter, QueryError>)
        ensures
            r is Ok <==> from <= to,
            r matches Ok(f) ==> f == (Filter { class, from, to, limit }),
            r matches Err(e) ==> e == QueryError::BadFilter,
    {
        if from <= to {
            Ok(Filter { class, from, to, limit })
        } else {
            Err(QueryError::BadFilter)
        }
    }

    /// The filter that selects everything.
    pub fn all() -> (f: Filter)
        ensures
            f == (Filter { class: None, from: 0, to: u64::MAX, limit: u64::MAX }),
            f.valid(),
            forall|u: CaptureUnit| f.matches(u),
    {
        Filter { class: None, from: 0, to: u64::MAX, limit: u64::MAX }
    }

    pub fn accepts(&self, unit: &CaptureUnit) -> (b: bool)
        ensures
            b == self.matches(*unit),
    {
        let class_ok = match self.class {
            None => true,
            Some(MediaClass::Frame) => matches!(unit.class(), MediaClass::Frame),
            Some(MediaClass::Audio) => matches!(unit.class(), MediaClass::Audio),
        };
        class_ok && self.from <= unit.captured_at && unit.captured_at <= self.to
    }

    pub fn encode(&self) -> (bytes: Vec<u8>)
        ensures
            bytes@ == self.bytes(),
            bytes@.len() == FILTER_LEN,
    {
        let mut bytes: Vec<u8> = Vec::new();
        match self.class {
            None => bytes.push(ANY_CLASS),
            Some(MediaClass::Frame) => bytes.push(1),
            Some(MediaClass::Audio) => bytes.push(2),
        }
        let mut word = u64_to_le_bytes(self.from);
        bytes.append(&mut word);
        let mut word = u64_to_le_bytes(self.to);
        bytes.append(&mut word);
        let mut word = u64_to_le_bytes(self.limit);
        bytes.append(&mut word);
        proof {
            lemma_auto_spec_u64_to_from_le_bytes();
            assert(bytes@ =~= self.bytes());
        }
        bytes
    }

    /// Reads a filter off the wire. `BadFilter` unless the bytes are exactly
    /// one filter wide, carry a known class byte and name a valid range.
    pub fn decode(bytes: &[u8]) -> (r: Result<Filter, QueryError>)
        ensures
            r is Ok <==> (Self::of_bytes(bytes@) matches Some(f) && f.valid()),
            r matches Ok(f) ==> Self::of_bytes(bytes@) == Some(f),
            r matches Err(e) ==> e == QueryError::BadFilter,
    {
        if bytes.len() != FILTER_LEN {
            return Err(QueryError::BadFilter);
        }
        let tag: u8 = bytes[0];
        if tag > 2 {
            return Err(QueryError::BadFilter);
        }
        let class = if tag == 1 {
            Some(MediaClass::Frame)
        } else if tag == 2 {
            Some(MediaClass::Audio)
        } else {
            None
        };
        let from = u64_from_le_bytes(slice_subrange(bytes, 1, 9));
        let to = u64_from_le_bytes(slice_subrange(bytes, 9, 17));
        let limit = u64_from_le_bytes(slice_subrange(bytes, 17, 25));
        Filter::new(class, from, to, limit)
    }
}

/// A filter survives the wire unchanged.
pub proof fn lemma_filter_round_trip(filter: Filter)
    ensures
        filter.bytes().len() == FILTER_LEN,
        Filter::of_bytes(filter.bytes()) == Some(filter),
{
    lemma_auto_spec_u64_to_from_le_bytes();
    let bytes = filter.bytes();
    assert(bytes.len() == 25);
    assert(bytes.subrange(1, 9) =~= spec_u64_to_le_bytes(filter.from));
    assert(bytes.subrange(9, 17) =~= spec_u64_to_le_bytes(filter.to));
    assert(bytes.subrange(17, 25) =~= spec_u64_to_le_bytes(filter.limit));
}

/// Every hit comes from the sequence and matches the filter.
pub proof fn lemma_hits_sound(filter: Filter, units: Seq<CaptureUnit>, i: int)
    requires
        0 <= i < filter.hits(units).len(),
    ensures
        filter.matches(filter.hits(units)[i]),
        units.contains(filter.hits(units)[i]),
{
    let pred = |u: CaptureUnit| filter.matches(u);
    let hit = filter.hits(units)[i];
    units.lemma_filter_pred(pred, i);
    assert(units.filter(pred).contains(hit));
    units.lemma_filter_contains_rev(pred, hit);
}

/// Every unit of the sequence that matches is among the hits.
pub proof fn lemma_hits_complete(filter: Filter, units: Seq<CaptureUnit>, i: int)
    requires
        0 <= i < units.len(),
        filter.matches(units[i]),
    ensures
        filter.hits(units).contains(units[i]),
{
    let pred = |u: CaptureUnit| filter.matches(u);
    units.lemma_filter_contains(pred, i);
}

} // verus!
