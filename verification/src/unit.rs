//! The data model: one captured unit of either media class, and the
//! ordering discipline that every sequence of units obeys.

use vstd::prelude::*;

verus! {

/// The two media classes. Each runs on its own cadence and numbers its
/// units independently of the other.
#[derive(Clone, Copy, Debug, PartialEq, Eq, Hash, Structural)]
pub enum MediaClass {
    Frame,
    Audio,
}

/// What is recorded about a unit besides its identity, by class.
#[derive(Clone, Copy, Debug, PartialEq, Eq, Hash, Structural)]
pub enum Metadata {
    /// Pixel dimensions of a video frame.
    Frame { width: u32, height: u32 },
    /// Length of an audio chunk, in nanoseconds.
    Audio { duration: u64 },
}

/// One captured item. The payload itself lives elsewhere; the unit carries
/// its content address.
#[derive(Clone, Copy, Debug, PartialEq, Eq, Hash, Structural)]
pub struct CaptureUnit {
    /// Position within the unit's media class.
    pub sequence_id: u64,
    /// Nanoseconds on the pipeline clock at which the unit was taken.
    pub captured_at: u64,
    /// Content address of the payload.
    pub payload_ref: u64,
    pub metadata: Metadata,
}

impl Metadata {
    pub open spec fn class_of(self) -> MediaClass {
        match self {
            Metadata::Frame { .. } => MediaClass::Frame,
            Metadata::Audio { .. } => MediaClass::Audio,
        }
    }

    pub fn class(&self) -> (class: MediaClass)
        ensures
            class == self.class_of(),
    {
        match self {
            Metadata::Frame { .. } => MediaClass::Frame,
            Metadata::Audio { .. } => MediaClass::Audio,
        }
    }
}

impl CaptureUnit {
    pub open spec fn class_of(self) -> MediaClass {
        self.metadata.class_of()
    }

    pub fn class(&self) -> (class: MediaClass)
        ensures
            class == self.class_of(),
    {
        self.metadata.class()
    }

    pub fn frame(sequence_id: u64, captured_at: u64, payload_ref: u64, width: u32, height: u32) -> (unit:
        CaptureUnit)
        ensures
            unit == (CaptureUnit {
                sequence_id,
                captured_at,
                payload_ref,
                metadata: Metadata::Frame { width, height },
            }),
    {
        CaptureUnit { sequence_id, captured_at, payload_ref, metadata: Metadata::Frame { width, height } }
    }

    pub fn audio(sequence_id: u64, captured_at: u64, payload_ref: u64, duration: u64) -> (unit:
        CaptureUnit)
        ensures
            unit == (CaptureUnit {
                sequence_id,
                captured_at,
                payload_ref,
                metadata: Metadata::Audio { duration },
            }),
    {
        CaptureUnit { sequence_id, captured_at, payload_ref, metadata: Metadata::Audio { duration } }
    }

    /// Whether `later` may stand anywhere after `self` in one sequence: units
    /// of different classes never constrain each other; within a class the
    /// sequence number strictly rises and the timestamp never falls.
    pub open spec fn precedes(self, later: CaptureUnit) -> bool {
        self.class_of() == later.class_of() ==> self.sequence_id < later.sequence_id
            && self.captured_at <= later.captured_at
    }

    pub fn may_precede(&self, later: &CaptureUnit) -> (b: bool)
        ensures
            b == self.precedes(*later),
    {
        self.class() != later.class() || (self.sequence_id < later.sequence_id && self.captured_at
            <= later.captured_at)
    }
}

/// The ordering invariant of the data model over a whole sequence of units.
pub open spec fn ordered(units: Seq<CaptureUnit>) -> bool {
    forall|i: int, j: int| 0 <= i < j < units.len() ==> (#[trigger] units[i]).precedes(#[trigger] units[j])
}

/// The most recent unit of `class` in `units`, if there is one.
pub open spec fn latest(units: Seq<CaptureUnit>, class: MediaClass) -> Option<CaptureUnit>
    decreases units.len(),
{
    if units.len() == 0 {
        None
    } else if units.last().class_of() == class {
        Some(units.last())
    } else {
        latest(units.drop_last(), class)
    }
}

/// Whether `unit` may be appended to an ordered sequence whose most recent
/// unit of the same class is `last`.
pub open spec fn may_follow(last: Option<CaptureUnit>, unit: CaptureUnit) -> bool {
    match last {
        None => true,
        Some(l) => l.sequence_id < unit.sequence_id && l.captured_at <= unit.captured_at,
    }
}

/// The number the next unit of a class carries when the latest one is
/// `last`: one more, or 0 to begin with. Once the numbers of a class are
/// used up the answer stays at the top and no unit can take it.
pub open spec fn next_number(last: Option<CaptureUnit>) -> u64 {
    match last {
        None => 0,
        Some(l) => if l.sequence_id < u64::MAX {
            (l.sequence_id + 1) as u64
        } else {
            u64::MAX
        },
    }
}

/// The latest instant at which any unit of the sequence was taken, or 0 if
/// there is none.
pub open spec fn last_instant(units: Seq<CaptureUnit>) -> u64 {
    let frame: u64 = match latest(units, MediaClass::Frame) {
        Some(l) => l.captured_at,
        None => 0,
    };
    let audio: u64 = match latest(units, MediaClass::Audio) {
        Some(l) => l.captured_at,
        None => 0,
    };
    if frame >= audio {
        frame
    } else {
        audio
    }
}

/// `latest` names an element of the sequence, of the class asked for, with
/// nothing of that class after it.
pub proof fn lemma_latest(units: Seq<CaptureUnit>, class: MediaClass)
    ensures
        match latest(units, class) {
            None => forall|i: int| 0 <= i < units.len() ==> (#[trigger] units[i]).class_of() != class,
            Some(l) => l.class_of() == class && exists|k: int|
                0 <= k < units.len() && #[trigger] units[k] == l && forall|i: int|
                    k < i < units.len() ==> (#[trigger] units[i]).class_of() != class,
        },
    decreases units.len(),
{
    if units.len() == 0 {
    } else if units.last().class_of() == class {
        let k = units.len() - 1;
        assert(units[k] == units.last());
    } else {
        let front = units.drop_last();
        lemma_latest(front, class);
        match latest(front, class) {
            None => {
                assert forall|i: int| 0 <= i < units.len() implies (#[trigger] units[i]).class_of()
                    != class by {
                    if i < front.len() {
                        assert(front[i] == units[i]);
                    }
                }
            },
            Some(l) => {
                let k = choose|k: int|
                    0 <= k < front.len() && #[trigger] front[k] == l && forall|i: int|
                        k < i < front.len() ==> (#[trigger] front[i]).class_of() != class;
                assert(units[k] == l);
                assert forall|i: int| k < i < units.len() implies (#[trigger] units[i]).class_of()
                    != class by {
                    if i < front.len() {
                        assert(front[i] == units[i]);
                    }
                }
            },
        }
    }
}

/// Appending keeps a sequence ordered exactly when the newcomer follows the
/// latest unit of its own class.
pub proof fn lemma_ordered_push(units: Seq<CaptureUnit>, unit: CaptureUnit)
    requires
        ordered(units),
    ensures
        ordered(units.push(unit)) <==> may_follow(latest(units, unit.class_of()), unit),
{
    let class = unit.class_of();
    let grown = units.push(unit);
    lemma_latest(units, class);
    match latest(units, class) {
        None => {
            assert forall|i: int, j: int| 0 <= i < j < grown.len() implies (#[trigger] grown[i]).precedes(
                #[trigger] grown[j],
            ) by {
                if j < units.len() {
                    assert(units[i].precedes(units[j]));
                } else {
                    assert(units[i].class_of() != class);
                }
            }
        },
        Some(l) => {
            let k = choose|k: int|
                0 <= k < units.len() && #[trigger] units[k] == l && forall|i: int|
                    k < i < units.len() ==> (#[trigger] units[i]).class_of() != class;
            if may_follow(Some(l), unit) {
                assert forall|i: int, j: int| 0 <= i < j < grown.len() implies (
                #[trigger] grown[i]).precedes(#[trigger] grown[j]) by {
                    if j < units.len() {
                        assert(units[i].precedes(units[j]));
                    } else if i < k {
                        assert(units[i].precedes(units[k]));
                    } else if i > k {
                        assert(units[i].class_of() != class);
                    }
                }
            } else {
                assert(grown[k] == l);
                assert(grown[units.len() as int] == unit);
                assert(!grown[k].precedes(grown[units.len() as int]));
            }
        },
    }
}

/// The latest unit of a class after one more unit has been appended.
pub proof fn lemma_latest_push(units: Seq<CaptureUnit>, unit: CaptureUnit, class: MediaClass)
    ensures
        latest(units.push(unit), class) == if unit.class_of() == class {
            Some(unit)
        } else {
            latest(units, class)
        },
{
    assert(units.push(unit).last() == unit);
    assert(units.push(unit).drop_last() =~= units);
}

} // verus!
