//! Points in time.
//!
//! A timestamp is an instant, counted in milliseconds from the Unix epoch,
//! together with the offset from UTC of the clock that recorded it. The
//! instant itself does not depend on the offset.

use crate::content_hash::{le_bytes, unsigned_32, unsigned_64, ContentHash, SelfDelimiting};
use vstd::prelude::*;

verus! {

/// Milliseconds since the start of 1970 in UTC; negative before it.
#[derive(Debug, PartialEq, Eq, PartialOrd, Ord, Structural)]
pub struct MillisSinceEpoch(pub i64);

impl Clone for MillisSinceEpoch {
    fn clone(&self) -> (copy: Self)
        ensures
            copy == *self,
    {
        MillisSinceEpoch(self.0)
    }
}

impl ContentHash for MillisSinceEpoch {
    open spec fn content_bytes(&self) -> Seq<u8> {
        le_bytes(unsigned_64(self.0), 8)
    }

    open spec fn fits(&self) -> bool {
        true
    }

    fn hash(&self, state: &mut Vec<u8>) {
        self.0.hash(state);
    }
}

impl SelfDelimiting for MillisSinceEpoch {
    open spec fn same_content(&self, other: &Self) -> bool {
        *self == *other
    }

    proof fn lemma_cut(a: &Self, x: Seq<u8>, b: &Self, y: Seq<u8>) {
        i64::lemma_cut(&a.0, x, &b.0, y);
        assert(a.same_content(b));
    }
}

/// An instant and the offset of the clock that recorded it.
#[derive(Debug, PartialEq, Eq, PartialOrd, Ord, Structural)]
pub struct Timestamp {
    pub timestamp: MillisSinceEpoch,
    /// Minutes that the clock was ahead of UTC.
    pub tz_offset: i32,
}

impl Clone for Timestamp {
    fn clone(&self) -> (copy: Self)
        ensures
            copy == *self,
    {
        Timestamp { timestamp: self.timestamp.clone(), tz_offset: self.tz_offset }
    }
}

impl ContentHash for Timestamp {
    open spec fn content_bytes(&self) -> Seq<u8> {
        self.timestamp.content_bytes() + le_bytes(unsigned_32(self.tz_offset), 4)
    }

    open spec fn fits(&self) -> bool {
        true
    }

    fn hash(&self, state: &mut Vec<u8>) {
        self.timestamp.hash(state);
        self.tz_offset.hash(state);
        assert(state@ =~= old(state)@ + self.content_bytes());
    }
}

impl SelfDelimiting for Timestamp {
    open spec fn same_content(&self, other: &Self) -> bool {
        *self == *other
    }

    proof fn lemma_cut(a: &Self, x: Seq<u8>, b: &Self, y: Seq<u8>) {
        let rest_a = a.tz_offset.content_bytes() + x;
        let rest_b = b.tz_offset.content_bytes() + y;
        assert(a.content_bytes() + x =~= a.timestamp.content_bytes() + rest_a);
        assert(b.content_bytes() + y =~= b.timestamp.content_bytes() + rest_b);
        MillisSinceEpoch::lemma_cut(&a.timestamp, rest_a, &b.timestamp, rest_b);
        i32::lemma_cut(&a.tz_offset, x, &b.tz_offset, y);
        assert(a.same_content(b));
    }
}

/// What a clock with a time zone shows at one moment.
#[derive(Clone, Copy, Debug, PartialEq, Eq, Structural)]
pub struct ZonedInstant {
    /// Milliseconds since the start of 1970 in UTC.
    pub timestamp_millis: i64,
    /// Seconds that the clock is ahead of UTC.
    pub local_minus_utc: i32,
}

/// The whole minutes in a number of seconds, rounded towards zero.
pub open spec fn whole_minutes(seconds: int) -> int {
    if seconds >= 0 {
        seconds / 60
    } else {
        -((-seconds) / 60)
    }
}

/// The current time on the clock of this machine, from `chrono`'s
/// `Local::now`. Nothing is known of the instant; the offset is less than a
/// day either way, which is the range of `chrono`'s `FixedOffset`.
#[verifier::external_body]
fn local_now() -> (now: ZonedInstant)
    ensures
        -86_400 < now.local_minus_utc < 86_400,
{
    let now = chrono::offset::Local::now();
    ZonedInstant {
        timestamp_millis: now.timestamp_millis(),
        local_minus_utc: now.offset().local_minus_utc(),
    }
}

impl Timestamp {
    /// The current time, with the offset of the local time zone.
    pub fn now() -> (timestamp: Self)
        ensures
            -1440 < timestamp.tz_offset < 1440,
    {
        Timestamp::from_datetime(local_now())
    }

    /// The timestamp of what a clock shows: the same instant, and the
    /// clock's offset in whole minutes.
    pub fn from_datetime(datetime: ZonedInstant) -> (timestamp: Self)
        ensures
            timestamp.timestamp.0 == datetime.timestamp_millis,
            timestamp.tz_offset == whole_minutes(datetime.local_minus_utc as int),
    {
        Timestamp {
            timestamp: MillisSinceEpoch(datetime.timestamp_millis),
            tz_offset: datetime.local_minus_utc / 60,
        }
    }
}

} // verus!
