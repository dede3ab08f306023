//! Points in time, counted as `chrono` counts them.
use vstd::prelude::*;

verus! {

/// The first second of the earliest day that `chrono` represents, January 1 of the year -262143.
pub const MIN_SECS: i64 = -8_334_601_228_800;

/// The last second of the latest day that `chrono` represents, December 31 of the year 262142.
pub const MAX_SECS: i64 = 8_210_266_876_799;

/// Whether `chrono` has a UTC date and time for `secs` seconds and `nanos` nanoseconds since the
/// Unix epoch. A second may run over by another billion nanoseconds only where it is the last of
/// its minute, which is how a leap second is written.
pub open spec fn representable(secs: int, nanos: int) -> bool {
    &&& MIN_SECS <= secs <= MAX_SECS
    &&& 0 <= nanos < 2_000_000_000
    &&& nanos >= 1_000_000_000 ==> secs % 60 == 59
}

/// `chrono::DateTime::<Utc>::from_timestamp`, with the date and time given back as its `timestamp`
/// and `timestamp_subsec_nanos`. Claimed: the call gives `None` exactly where the arguments are not
/// representable, and otherwise a date and time that counts as the arguments do.
#[verifier::external_body]
fn chrono_from_timestamp(secs: i64, nanos: u32) -> (parts: Option<(i64, u32)>)
    ensures
        parts == if representable(secs as int, nanos as int) {
            Some((secs, nanos))
        } else {
            None
        },
{
    match chrono::DateTime::<chrono::Utc>::from_timestamp(secs, nanos) {
        Some(time) => Some((time.timestamp(), time.timestamp_subsec_nanos())),
        None => None,
    }
}

/// `chrono::DateTime::<Utc>::default`, given as in [`chrono_from_timestamp`]. Claimed: the default
/// is the Unix epoch.
#[verifier::external_body]
fn chrono_default() -> (parts: (i64, u32))
    ensures
        parts == (0i64, 0u32),
{
    let time = chrono::DateTime::<chrono::Utc>::default();
    (time.timestamp(), time.timestamp_subsec_nanos())
}

/// What a [`Timestamp`] stands for.
pub struct Instant {
    pub secs: int,
    pub nanos: int,
}

impl Instant {
    pub open spec fn wf(self) -> bool {
        representable(self.secs, self.nanos)
    }

    /// The same instant without its fraction of a second.
    pub open spec fn whole_second(self) -> Instant {
        Instant { secs: self.secs, nanos: 0 }
    }
}

/// The instant that two counters stand for, or the epoch where they stand for none.
pub open spec fn instant_or_epoch(secs: int, nanos: int) -> Instant {
    if representable(secs, nanos) {
        Instant { secs, nanos }
    } else {
        Instant { secs: 0, nanos: 0 }
    }
}

/// A date and time in UTC that `chrono` can represent.
#[derive(Clone, Copy, Debug, PartialEq, Eq, Structural)]
pub struct Timestamp {
    secs: i64,
    nanos: u32,
}

impl View for Timestamp {
    type V = Instant;

    closed spec fn view(&self) -> Instant {
        Instant { secs: self.secs as int, nanos: self.nanos as int }
    }
}

impl Timestamp {
    #[verifier::type_invariant]
    spec fn type_inv(self) -> bool {
        representable(self.secs as int, self.nanos as int)
    }

    /// The instant `secs` seconds and `nanos` nanoseconds after the epoch, if it is representable.
    pub fn from_timestamp(secs: i64, nanos: u32) -> (time: Option<Timestamp>)
        ensures
            time is Some <==> representable(secs as int, nanos as int),
            time matches Some(t) ==> t@ == (Instant { secs: secs as int, nanos: nanos as int }),
    {
        match chrono_from_timestamp(secs, nanos) {
            Some((secs, nanos)) => Some(Timestamp { secs, nanos }),
            None => None,
        }
    }

    /// [`Timestamp::from_timestamp`], or the epoch where that gives nothing.
    pub fn from_timestamp_or_default(secs: i64, nanos: u32) -> (time: Timestamp)
        ensures
            time@ == instant_or_epoch(secs as int, nanos as int),
    {
        match Timestamp::from_timestamp(secs, nanos) {
            Some(time) => time,
            None => Timestamp::default(),
        }
    }

    /// Whole seconds since the epoch.
    pub fn timestamp(&self) -> (secs: i64)
        ensures
            secs == self@.secs,
            self@.wf(),
    {
        proof {
            use_type_invariant(self);
        }
        self.secs
    }

    /// Nanoseconds since the last whole second.
    pub fn timestamp_subsec_nanos(&self) -> (nanos: u32)
        ensures
            nanos == self@.nanos,
    {
        self.nanos
    }
}

impl Default for Timestamp {
    fn default() -> (time: Timestamp)
        ensures
            time@ == (Instant { secs: 0, nanos: 0 }),
    {
        let (secs, nanos) = chrono_default();
        Timestamp { secs, nanos }
    }
}

} // verus!
