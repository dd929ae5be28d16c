//! The storage manager: an append-only, ordered record of captured units
//! that can be queried at any time and rebuilt from its durable image.

use vstd::prelude::*;
use vstd::bytes::*;
use vstd::slice::*;
use crate::codec::{
    decode_units, encode_unit, encode_units, header_bytes, image_of, magic, parsed, unit_bytes,
    HEADER_LEN, LAYOUT_VERSION,
};
use crate::error::{AppendError, StorageInitError};
use crate::query::{lemma_hits_complete, lemma_hits_sound, Filter};
use crate::unit::{
    last_instant, latest, lemma_latest_push, lemma_ordered_push, next_number, ordered, CaptureUnit,
    MediaClass,
};

verus! {

/// What a store is, seen from outside: the units it holds, oldest first, and
/// whether it still takes more.
pub struct StoreView {
    pub units: Seq<CaptureUnit>,
    pub open: bool,
}

impl StoreView {
    /// What `append` answers for `unit` in this state.
    pub open spec fn verdict(self, unit: CaptureUnit) -> Result<(), AppendError> {
        if !self.open {
            Err(AppendError::Closed)
        } else if !ordered(self.units.push(unit)) {
            Err(AppendError::OrderingViolation)
        } else {
            Ok(())
        }
    }

    /// The state `append` leaves behind: the unit is added whole or not at all.
    pub open spec fn appended(self, unit: CaptureUnit) -> StoreView {
        if self.verdict(unit) is Ok {
            StoreView { units: self.units.push(unit), open: self.open }
        } else {
            self
        }
    }
}

/// The units together with the latest of each class, kept so that an append
/// checks its place without rereading what came before.
struct Ledger {
    units: Vec<CaptureUnit>,
    last_frame: Option<CaptureUnit>,
    last_audio: Option<CaptureUnit>,
}

impl Ledger {
    spec fn consistent(&self) -> bool {
        &&& ordered(self.units@)
        &&& self.last_frame == latest(self.units@, MediaClass::Frame)
        &&& self.last_audio == latest(self.units@, MediaClass::Audio)
    }

    fn empty() -> (ledger: Ledger)
        ensures
            ledger.consistent(),
            ledger.units@ == Seq::<CaptureUnit>::empty(),
    {
        Ledger { units: Vec::new(), last_frame: None, last_audio: None }
    }

    fn last(&self, class: MediaClass) -> (unit: Option<CaptureUnit>)
        requires
            self.consistent(),
        ensures
            unit == latest(self.units@, class),
    {
        match class {
            MediaClass::Frame => self.last_frame,
            MediaClass::Audio => self.last_audio,
        }
    }

    fn takes(&self, unit: &CaptureUnit) -> (b: bool)
        requires
            self.consistent(),
        ensures
            b == ordered(self.units@.push(*unit)),
    {
        proof {
            lemma_ordered_push(self.units@, *unit);
        }
        match self.last(unit.class()) {
            None => true,
            Some(l) => l.sequence_id < unit.sequence_id && l.captured_at <= unit.captured_at,
        }
    }

    fn push(&mut self, unit: CaptureUnit)
        requires
            old(self).consistent(),
            ordered(old(self).units@.push(unit)),
        ensures
            final(self).consistent(),
            final(self).units@ == old(self).units@.push(unit),
    {
        proof {
            lemma_latest_push(self.units@, unit, MediaClass::Frame);
            lemma_latest_push(self.units@, unit, MediaClass::Audio);
        }
        match unit.class() {
            MediaClass::Frame => {
                self.last_frame = Some(unit);
            },
            MediaClass::Audio => {
                self.last_audio = Some(unit);
            },
        }
        self.units.push(unit);
    }
}

/// The storage manager. It holds every unit appended so far in arrival
/// order and refuses any unit that would break the ordering of its class.
pub struct Store {
    ledger: Ledger,
    open: bool,
}

impl View for Store {
    type V = StoreView;

    closed spec fn view(&self) -> StoreView {
        StoreView { units: self.ledger.units@, open: self.open }
    }
}

/// A sequence stays ordered when cut short.
pub proof fn lemma_ordered_prefix(units: Seq<CaptureUnit>, n: int)
    requires
        ordered(units),
        0 <= n <= units.len(),
    ensures
        ordered(units.take(n)),
{
    let front = units.take(n);
    assert forall|i: int, j: int| 0 <= i < j < front.len() implies (#[trigger] front[i]).precedes(
        #[trigger] front[j],
    ) by {
        assert(units[i].precedes(units[j]));
    }
}

impl Store {
    /// What holds of every store: its units are in order, and it knows the
    /// latest of each class.
    #[verifier::type_invariant]
    pub closed spec fn valid(&self) -> bool {
        self.ledger.consistent()
    }

    /// Every store is in order.
    pub proof fn lemma_valid_is_ordered(&self)
        requires
            self.valid(),
        ensures
            ordered(self@.units),
    {
    }

    /// An empty store that takes units.
    pub fn new() -> (store: Store)
        ensures
            store@.units == Seq::<CaptureUnit>::empty(),
            store@.open,
    {
        Store { ledger: Ledger::empty(), open: true }
    }

    /// Rebuilds a store from its durable image. An empty image is a store
    /// never written to; anything else must carry the header and nothing but
    /// well-formed, ordered records. A torn record at the very end is
    /// dropped.
    #[verifier::loop_isolation(false)]
    pub fn open(image: &[u8]) -> (r: Result<Store, StorageInitError>)
        ensures
            match r {
                Ok(store) => parsed(image@) == Ok::<Seq<CaptureUnit>, StorageInitError>(store@.units)
                    && store@.open && ordered(store@.units),
                Err(e) => parsed(image@) == Err::<Seq<CaptureUnit>, StorageInitError>(e),
            },
    {
        if image.len() == 0 {
            let store = Store::new();
            assert(ordered(store@.units));
            return Ok(store);
        }
        if image.len() < HEADER_LEN {
            return Err(StorageInitError::BadHeader);
        }
        if image[0] != 0x53u8 || image[1] != 0x50u8 || image[2] != 0x4cu8 || image[3] != 0x47u8 {
            proof {
                let head = image@.subrange(0, 4);
                assert(head[0] == image@[0] && head[1] == image@[1] && head[2] == image@[2] && head[3]
                    == image@[3]);
            }
            return Err(StorageInitError::BadHeader);
        }
        assert(image@.subrange(0, 4) =~= magic());
        let version = u32_from_le_bytes(slice_subrange(image, 4, 8));
        if version != LAYOUT_VERSION {
            return Err(StorageInitError::UnsupportedVersion);
        }
        let body = slice_subrange(image, HEADER_LEN, image.len());
        assert(body@ =~= image@.skip(HEADER_LEN as int));
        let units = match decode_units(body) {
            None => {
                return Err(StorageInitError::CorruptRecord);
            },
            Some(units) => units,
        };
        let mut ledger = Ledger::empty();
        let mut i: usize = 0;
        while i < units.len()
            invariant
                i <= units.len(),
                ledger.consistent(),
                ledger.units@ == units@.take(i as int),
            decreases units.len() - i,
        {
            let unit = units[i];
            assert(units@.take(i as int).push(unit) =~= units@.take(i + 1));
            if !ledger.takes(&unit) {
                proof {
                    if ordered(units@) {
                        lemma_ordered_prefix(units@, i + 1);
                    }
                }
                return Err(StorageInitError::OutOfOrder);
            }
            ledger.push(unit);
            i += 1;
        }
        assert(units@.take(units.len() as int) =~= units@);
        Ok(Store { ledger, open: true })
    }

    /// What `append` would answer for `unit`, without appending it.
    pub fn check(&self, unit: &CaptureUnit) -> (r: Result<(), AppendError>)
        ensures
            r == self@.verdict(*unit),
    {
        proof {
            use_type_invariant(self);
        }
        if !self.open {
            Err(AppendError::Closed)
        } else if !self.ledger.takes(unit) {
            Err(AppendError::OrderingViolation)
        } else {
            Ok(())
        }
    }

    /// Prepares an append: checks the unit as `append` would and, if it
    /// would be taken, returns its record for the caller to make durable
    /// before the append itself.
    pub fn stage(&self, unit: &CaptureUnit) -> (r: Result<Vec<u8>, AppendError>)
        ensures
            match r {
                Ok(record) => self@.verdict(*unit) is Ok && record@ == unit_bytes(*unit),
                Err(e) => self@.verdict(*unit) == Err::<(), AppendError>(e),
            },
    {
        match self.check(unit) {
            Ok(()) => Ok(encode_unit(unit)),
            Err(e) => Err(e),
        }
    }

    /// Appends one unit. The unit is taken whole or the store is left
    /// exactly as it was: `Closed` once the store has been closed,
    /// `OrderingViolation` when the unit does not follow the latest unit of
    /// its class.
    pub fn append(&mut self, unit: CaptureUnit) -> (r: Result<(), AppendError>)
        ensures
            r == old(self)@.verdict(unit),
            final(self)@ == old(self)@.appended(unit),
            ordered(final(self)@.units),
    {
        proof {
            use_type_invariant(&*self);
        }
        let verdict = self.check(&unit);
        if verdict.is_ok() {
            let mut ledger = Ledger::empty();
            core::mem::swap(&mut ledger, &mut self.ledger);
            ledger.push(unit);
            self.ledger = ledger;
        }
        verdict
    }

    /// Closes the store: every later `append` is refused. What it holds
    /// stays readable.
    pub fn close(&mut self)
        ensures
            final(self)@ == (StoreView { units: old(self)@.units, open: false }),
    {
        proof {
            use_type_invariant(&*self);
        }
        self.open = false;
    }

    pub fn is_open(&self) -> (b: bool)
        ensures
            b == self@.open,
    {
        self.open
    }

    pub fn len(&self) -> (n: usize)
        ensures
            n == self@.units.len(),
    {
        self.ledger.units.len()
    }

    pub fn is_empty(&self) -> (b: bool)
        ensures
            b == (self@.units.len() == 0),
    {
        self.ledger.units.len() == 0
    }

    /// The `index`-th unit in arrival order.
    pub fn get(&self, index: usize) -> (unit: Option<CaptureUnit>)
        ensures
            unit == if index < self@.units.len() {
                Some(self@.units[index as int])
            } else {
                None
            },
    {
        if index < self.ledger.units.len() {
            Some(self.ledger.units[index])
        } else {
            None
        }
    }

    /// The most recent unit of `class`.
    pub fn latest(&self, class: MediaClass) -> (unit: Option<CaptureUnit>)
        ensures
            unit == latest(self@.units, class),
    {
        proof {
            use_type_invariant(self);
        }
        self.ledger.last(class)
    }

    /// The number the next unit of `class` is to carry.
    pub fn next_sequence_id(&self, class: MediaClass) -> (n: u64)
        ensures
            n == next_number(latest(self@.units, class)),
    {
        match self.latest(class) {
            None => 0,
            Some(l) => l.sequence_id.saturating_add(1),
        }
    }

    /// The latest instant at which anything in the store was taken, or 0 for
    /// an empty store. A run that goes on from this store starts its clock
    /// no earlier.
    pub fn last_instant(&self) -> (t: u64)
        ensures
            t == last_instant(self@.units),
    {
        let frame: u64 = match self.latest(MediaClass::Frame) {
            Some(l) => l.captured_at,
            None => 0,
        };
        let audio: u64 = match self.latest(MediaClass::Audio) {
            Some(l) => l.captured_at,
            None => 0,
        };
        if frame >= audio {
            frame
        } else {
            audio
        }
    }

    /// Answers a read request: the units that match the filter, oldest
    /// first, cut off at the filter's limit.
    pub fn query(&self, filter: &Filter) -> (found: Vec<CaptureUnit>)
        ensures
            found@ == filter.select(self@.units),
    {
        let units = &self.ledger.units;
        let ghost pred = |u: CaptureUnit| filter.matches(u);
        let mut found: Vec<CaptureUnit> = Vec::new();
        let mut i: usize = 0;
        proof {
            reveal(Seq::filter);
            assert(units@.take(0) =~= Seq::<CaptureUnit>::empty());
        }
        while i < units.len() && (found.len() as u64) < filter.limit
            invariant
                i <= units.len(),
                pred == (|u: CaptureUnit| filter.matches(u)),
                found@ == units@.take(i as int).filter(pred),
                found@.len() <= filter.limit,
                found@.len() <= i,
            decreases units.len() - i,
        {
            let unit = units[i];
            proof {
                reveal(Seq::filter);
                let grown = units@.take(i + 1);
                assert(grown.drop_last() =~= units@.take(i as int));
                assert(grown.last() == unit);
            }
            if filter.accepts(&unit) {
                found.push(unit);
            }
            i += 1;
        }
        proof {
            let seen = units@.take(i as int);
            let rest = units@.skip(i as int);
            assert(units@ =~= seen + rest);
            Seq::filter_distributes_over_add(seen, rest, pred);
            let hits = filter.hits(units@);
            assert(hits == found@ + rest.filter(pred));
            if i == units.len() {
                assert(rest =~= Seq::<CaptureUnit>::empty());
                assert(rest.filter(pred) =~= Seq::<CaptureUnit>::empty());
                assert(hits =~= found@);
            } else {
                assert(found@.len() == filter.limit);
                assert(hits.take(filter.limit as int) =~= found@);
            }
        }
        found
    }

    /// The durable image of the store: the header, then one record per unit.
    pub fn image(&self) -> (bytes: Vec<u8>)
        ensures
            bytes@ == image_of(self@.units),
    {
        let mut bytes = header_bytes();
        let mut records = encode_units(&self.ledger.units);
        bytes.append(&mut records);
        bytes
    }
}

/// A unit that the store accepted is found by every query whose filter
/// matches it, with every field as it was appended, however many units are
/// appended after it.
pub proof fn lemma_appended_unit_is_found(
    store: StoreView,
    unit: CaptureUnit,
    later: Seq<CaptureUnit>,
    filter: Filter,
)
    requires
        store.verdict(unit) is Ok,
        filter.matches(unit),
    ensures
        filter.hits(store.appended(unit).units + later).contains(unit),
{
    let all = store.appended(unit).units + later;
    let at = store.units.len() as int;
    assert(all[at] == unit);
    lemma_hits_complete(filter, all, at);
}

/// With room under the limit, the answer to the query holds the unit too.
pub proof fn lemma_appended_unit_is_selected(store: StoreView, unit: CaptureUnit, filter: Filter)
    requires
        store.verdict(unit) is Ok,
        filter.matches(unit),
        filter.hits(store.units).len() < filter.limit,
    ensures
        filter.select(store.appended(unit).units) == filter.hits(store.units).push(unit),
{
    reveal(Seq::filter);
    let grown = store.units.push(unit);
    assert(grown.drop_last() =~= store.units);
    assert(grown.last() == unit);
}

/// A query sees whole units only. Whether it runs just before an append or
/// just after, each unit it returns is one that was appended in full: a
/// unit that was already there, or the very unit the append brought, with
/// every field as given. There is no state in between for it to see.
pub proof fn lemma_query_sees_whole_units(store: StoreView, unit: CaptureUnit, filter: Filter, i: int)
    requires
        0 <= i < filter.select(store.appended(unit).units).len(),
    ensures
        ({
            let found = filter.select(store.appended(unit).units)[i];
            store.units.contains(found) || found == unit
        }),
{
    let after = store.appended(unit).units;
    let hits = filter.hits(after);
    assert(filter.select(after)[i] == hits[i]);
    lemma_hits_sound(filter, after, i);
    let k = choose|k: int| 0 <= k < after.len() && after[k] == hits[i];
    if k < store.units.len() {
        assert(store.units[k] == hits[i]);
    }
}

/// A refused append changes nothing, and an accepted one changes nothing
/// that was there before.
pub proof fn lemma_append_keeps_history(store: StoreView, unit: CaptureUnit)
    ensures
        store.appended(unit).open == store.open,
        store.appended(unit).units.take(store.units.len() as int) == store.units,
        store.verdict(unit) is Err ==> store.appended(unit) == store,
        !store.open ==> store.appended(unit) == store,
{
    assert(store.appended(unit).units.take(store.units.len() as int) =~= store.units);
}

/// A store that only ever grew by `append` is in order.
pub proof fn lemma_append_keeps_order(store: StoreView, unit: CaptureUnit)
    requires
        ordered(store.units),
    ensures
        ordered(store.appended(unit).units),
{
}

} // verus!
