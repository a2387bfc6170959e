//! Instants with a fixed UTC offset, and the hour buckets that forecasts are
//! keyed by.
use vstd::prelude::*;

verus! {

pub const SECONDS_PER_HOUR: i64 = 3600;

pub const SECONDS_PER_DAY: i64 = 86400;

/// An instant, as whole seconds since the Unix epoch in UTC and the
/// nanoseconds past them, seen at a fixed offset east of UTC. Two timestamps
/// denote the same instant when their keys agree, whatever their offsets.
#[derive(Debug, Clone, Copy, PartialEq, Eq, Structural)]
pub struct Timestamp {
    pub seconds: i64,
    pub nanos: u32,
    pub offset: i32,
}

impl Timestamp {
    /// The offset is less than a day either way, as for any real zone.
    pub open spec fn wf(self) -> bool {
        -SECONDS_PER_DAY < self.offset < SECONDS_PER_DAY
    }

    /// The instant in nanoseconds since the epoch. A leap second, which
    /// chrono reads as `10^9` nanoseconds or more past the second before it,
    /// shares its key with the second that follows.
    pub open spec fn key(self) -> i128 {
        (self.seconds * 1_000_000_000 + self.nanos) as i128
    }

    /// The instant in nanoseconds since the epoch.
    pub fn instant_key(&self) -> (r: i128)
        ensures
            r == self.key(),
    {
        self.seconds as i128 * 1_000_000_000 + self.nanos as i128
    }

    /// Seconds since the epoch on the local clock of the offset.
    pub open spec fn local(self) -> int {
        self.seconds + self.offset
    }

    /// The local hour of the day, `0..24`.
    pub open spec fn hour(self) -> int {
        (self.local() / SECONDS_PER_HOUR as int) % 24
    }

    /// The local calendar day, as days since the epoch.
    pub open spec fn day(self) -> int {
        self.local() / SECONDS_PER_DAY as int
    }

    /// Seconds past the local hour.
    pub open spec fn within_hour(self) -> int {
        self.local() % SECONDS_PER_HOUR as int
    }

    /// Builds a timestamp from seconds since the epoch, nanoseconds past
    /// them and an offset east of UTC in seconds; `None` where the offset is
    /// a day or more.
    pub fn from_parts(seconds: i64, nanos: u32, offset: i32) -> (r: Option<Timestamp>)
        ensures
            r == (if -SECONDS_PER_DAY < offset < SECONDS_PER_DAY {
                Some(Timestamp { seconds, nanos, offset })
            } else {
                None
            }),
    {
        if -86400 < offset && offset < 86400 {
            Some(Timestamp { seconds, nanos, offset })
        } else {
            None
        }
    }

    /// Reads an RFC 3339 timestamp such as `2023-07-15T08:00:00Z`, keeping
    /// the offset that it is written with.
    pub fn parse_rfc3339(s: &str) -> (r: Option<Timestamp>)
        ensures
            r == timestamp_of(s@),
            r matches Some(t) ==> t.wf(),
    {
        match read_rfc3339(s) {
            Some((seconds, nanos, offset)) => Timestamp::from_parts(seconds, nanos, offset),
            None => None,
        }
    }

    /// Whether two timestamps denote the same instant.
    pub fn same_instant(&self, other: &Timestamp) -> (r: bool)
        ensures
            r == (self.key() == other.key()),
    {
        self.instant_key() == other.instant_key()
    }
}

/// The whole seconds, nanoseconds and offset that chrono reads from an
/// RFC 3339 text.
pub uninterp spec fn rfc3339_instant(s: Seq<char>) -> Option<(int, int, int)>;

/// The timestamp that an RFC 3339 text denotes.
pub open spec fn timestamp_of(s: Seq<char>) -> Option<Timestamp> {
    match rfc3339_instant(s) {
        Some((seconds, nanos, offset)) => if -SECONDS_PER_DAY < offset < SECONDS_PER_DAY {
            Some(Timestamp { seconds: seconds as i64, nanos: nanos as u32, offset: offset as i32 })
        } else {
            None
        },
        None => None,
    }
}

/// Relies on chrono's `DateTime::parse_from_rfc3339`, `DateTime::timestamp`,
/// `DateTime::timestamp_subsec_nanos` and `FixedOffset::local_minus_utc`:
/// the instant and offset of the text.
#[verifier::external_body]
fn read_rfc3339(s: &str) -> (r: Option<(i64, u32, i32)>)
    ensures
        match r {
            Some((seconds, nanos, offset)) => rfc3339_instant(s@) == Some(
                (seconds as int, nanos as int, offset as int),
            ),
            None => rfc3339_instant(s@) is None,
        },
{
    match chrono::DateTime::parse_from_rfc3339(s) {
        Ok(d) => Some((d.timestamp(), d.timestamp_subsec_nanos(), d.offset().local_minus_utc())),
        Err(_) => None,
    }
}

/// The next whole hour after local time `l` is hour `h + 1` of the same
/// day, or hour 0 of the next day when `h` is 23.
proof fn lemma_next_hour(l: int, n: int)
    requires
        n % 3600 == 0,
        l < n <= l + 3600,
    ensures
        n == (l / 3600 + 1) * 3600,
        (n / 3600) % 24 == (if (l / 3600) % 24 == 23 { 0 } else { (l / 3600) % 24 + 1 }),
        n / 86400 == (if (l / 3600) % 24 == 23 { l / 86400 + 1 } else { l / 86400 }),
{
    let q = l / 3600;
    let s = l % 3600;
    vstd::arithmetic::div_mod::lemma_fundamental_div_mod(l, 3600);
    vstd::arithmetic::div_mod::lemma_fundamental_div_mod(n, 3600);
    assert(0 <= s < 3600);
    let p = n / 3600;
    assert(p == q + 1);
    let a = q / 24;
    let b = q % 24;
    vstd::arithmetic::div_mod::lemma_fundamental_div_mod(q, 24);
    assert(0 <= b < 24);
    vstd::arithmetic::div_mod::lemma_fundamental_div_mod_converse(l, 86400, a, 3600 * b + s);
    if b == 23 {
        vstd::arithmetic::div_mod::lemma_fundamental_div_mod_converse(p, 24, a + 1, 0);
        vstd::arithmetic::div_mod::lemma_fundamental_div_mod_converse(n, 86400, a + 1, 0);
    } else {
        vstd::arithmetic::div_mod::lemma_fundamental_div_mod_converse(p, 24, a, b + 1);
        vstd::arithmetic::div_mod::lemma_fundamental_div_mod_converse(n, 86400, a, 3600 * (b + 1));
    }
}

/// The bucket of a timestamp: the first whole local hour after it, at the
/// same offset, with no fraction of a second.
pub open spec fn bucket_of(t: Timestamp) -> Timestamp {
    Timestamp {
        seconds: ((t.local() / SECONDS_PER_HOUR as int + 1) * SECONDS_PER_HOUR - t.offset) as i64,
        nanos: 0,
        offset: t.offset,
    }
}

/// Buckets keep the order of their instants: of two timestamps at one
/// offset, the later one never gets the earlier bucket.
pub proof fn lemma_bucket_monotone(t1: Timestamp, t2: Timestamp)
    requires
        t1.wf(),
        t1.offset == t2.offset,
        t1.seconds < t2.seconds || (t1.seconds == t2.seconds && t1.nanos <= t2.nanos),
        t2.seconds <= i64::MAX - SECONDS_PER_DAY,
    ensures
        bucket_of(t1).local() <= bucket_of(t2).local(),
        bucket_of(t1).key() <= bucket_of(t2).key(),
{
    lemma_bucket_fits(t1);
    lemma_bucket_fits(t2);
    vstd::arithmetic::div_mod::lemma_div_is_ordered(t1.local(), t2.local(), 3600);
}

proof fn lemma_bucket_fits(t: Timestamp)
    requires
        t.wf(),
        t.seconds <= i64::MAX - SECONDS_PER_DAY,
    ensures
        bucket_of(t).seconds as int == (t.local() / SECONDS_PER_HOUR as int + 1) * SECONDS_PER_HOUR - t.offset,
{
    vstd::arithmetic::div_mod::lemma_fundamental_div_mod(t.local(), 3600);
    assert(0 <= t.local() % 3600 < 3600);
}

/// The first whole local hour after `time`, at the same offset: hour plus
/// one, minute, second and fraction zero, rolling over into the next day
/// after 23.
pub fn round_to_near_hour(time: &Timestamp) -> (r: Timestamp)
    requires
        time.wf(),
        time.seconds <= i64::MAX - SECONDS_PER_DAY,
    ensures
        r.wf(),
        r.offset == time.offset,
        r.within_hour() == 0,
        time.local() < r.local() <= time.local() + SECONDS_PER_HOUR,
        r.hour() == (if time.hour() == 23 { 0 } else { time.hour() + 1 }),
        r.day() == (if time.hour() == 23 { time.day() + 1 } else { time.day() }),
        r.nanos == 0,
        r == bucket_of(*time),
{
    let local: i128 = time.seconds as i128 + time.offset as i128;
    let mut rem: i128 = local % 3600;
    if rem < 0 {
        rem = rem + 3600;
    }
    let next: i128 = local - rem + 3600;
    let seconds = (next - time.offset as i128) as i64;
    let r = Timestamp { seconds, nanos: 0, offset: time.offset };
    proof {
        lemma_next_hour(time.local(), r.local());
    }
    r
}

} // verus!
