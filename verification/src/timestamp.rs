//! Points in time with a fixed offset from UTC.
//!
//! A [`Timestamp`] holds what the tracker needs of a moment as plain integers.
//! Text forms and the distance between two moments come from `chrono`.

use vstd::prelude::*;

verus! {

/// Local seconds since the epoch at `0000-01-01T00:00:00`.
pub const MIN_LOCAL_SECS: i64 = -62_167_219_200;

/// Local seconds since the epoch at `9999-12-31T23:59:59`.
pub const MAX_LOCAL_SECS: i64 = 253_402_300_799;

/// One second in nanoseconds.
pub const NANOS_PER_SEC: u32 = 1_000_000_000;

/// A moment, as seconds and nanoseconds since `1970-01-01T00:00:00Z`, together
/// with the offset of the local clock that named it (seconds east of UTC).
///
/// A nanosecond count of one second or more stands for a leap second, and is
/// only allowed in the last second of a minute.
#[derive(Clone, Copy, Debug, PartialEq, Eq, Structural)]
pub struct Timestamp {
    pub secs: i64,
    pub nanos: u32,
    pub offset: i32,
}

/// The text that `chrono` writes for a moment in RFC 3339 form.
pub uninterp spec fn rfc3339_text(secs: i64, nanos: u32, offset: i32) -> Seq<char>;

/// The moment that `chrono` reads from a text in RFC 3339 form, as seconds,
/// nanoseconds and offset; `None` where it rejects the text.
pub uninterp spec fn rfc3339_value(text: Seq<char>) -> Option<(i64, u32, i32)>;

/// The text that `chrono` writes for a moment in RFC 2822 form.
pub uninterp spec fn rfc2822_text(secs: i64, nanos: u32, offset: i32) -> Seq<char>;

/// Whether the three numbers name a moment whose local year has four digits.
pub open spec fn valid_parts(secs: i64, nanos: u32, offset: i32) -> bool {
    &&& nanos < 2 * NANOS_PER_SEC
    &&& nanos >= NANOS_PER_SEC ==> secs as int % 60 == 59
    &&& -86_400 < offset < 86_400
    &&& MIN_LOCAL_SECS <= secs + offset <= MAX_LOCAL_SECS
}

/// The timestamp of three numbers, where there are three and they name an
/// accepted moment.
pub open spec fn timestamp_of_parts(parts: Option<(i64, u32, i32)>) -> Option<Timestamp> {
    match parts {
        Some((secs, nanos, offset)) => if valid_parts(secs, nanos, offset) {
            Some(Timestamp { secs, nanos, offset })
        } else {
            None
        },
        None => None,
    }
}

/// Whole seconds from `earlier` to `later`, rounded toward zero.
///
/// The seconds since the epoch do not count leap seconds. A moment inside a
/// leap second has a nanosecond count of a second or more; where the other
/// moment lies on the far side of that second within the day, the leap second
/// is counted as one more second between the two.
pub open spec fn seconds_between(later: Timestamp, earlier: Timestamp) -> int {
    let later_of_day = later.secs as int % 86_400;
    let earlier_of_day = earlier.secs as int % 86_400;
    let leap: int = if later_of_day > earlier_of_day && earlier.nanos >= NANOS_PER_SEC {
        1
    } else if later_of_day < earlier_of_day && later.nanos >= NANOS_PER_SEC {
        -1
    } else {
        0
    };
    let fraction = later.nanos - earlier.nanos;
    let whole = later.secs - earlier.secs + leap + fraction / (NANOS_PER_SEC as int);
    if whole < 0 && fraction % (NANOS_PER_SEC as int) > 0 {
        whole + 1
    } else {
        whole
    }
}

/// Whole minutes from `earlier` to `later`, rounded toward zero.
pub open spec fn minutes_between(later: Timestamp, earlier: Timestamp) -> int {
    let seconds = seconds_between(later, earlier);
    if seconds >= 0 {
        seconds / 60
    } else {
        -((-seconds) / 60)
    }
}

impl Timestamp {
    /// Whether this is a moment that the tracker accepts.
    pub open spec fn wf(self) -> bool {
        valid_parts(self.secs, self.nanos, self.offset)
    }

    /// Whether this moment is not after `other`.
    pub open spec fn not_after(self, other: Timestamp) -> bool {
        self.secs < other.secs || (self.secs == other.secs && self.nanos <= other.nanos)
    }

    /// Whether the RFC 3339 text of this moment is not empty and reads back as
    /// the same moment.
    pub open spec fn reads_back(self) -> bool {
        let text = rfc3339_text(self.secs, self.nanos, self.offset);
        text.len() > 0 && rfc3339_value(text) == Some((self.secs, self.nanos, self.offset))
    }

    /// Whether this moment is not after `other`.
    pub fn is_not_after(&self, other: &Timestamp) -> (r: bool)
        ensures
            r == self.not_after(*other),
    {
        self.secs < other.secs || (self.secs == other.secs && self.nanos <= other.nanos)
    }

    /// Makes a timestamp from its three numbers, or `None` where they name no
    /// accepted moment.
    pub fn new(secs: i64, nanos: u32, offset: i32) -> (r: Option<Timestamp>)
        ensures
            r == timestamp_of_parts(Some((secs, nanos, offset))),
    {
        if nanos >= 2 * NANOS_PER_SEC {
            return None;
        }
        if offset <= -86_400 || offset >= 86_400 {
            return None;
        }
        if secs < MIN_LOCAL_SECS - 86_400 || secs > MAX_LOCAL_SECS + 86_400 {
            return None;
        }
        let local: i64 = secs + (offset as i64);
        if local < MIN_LOCAL_SECS || local > MAX_LOCAL_SECS {
            return None;
        }
        // The shift is a whole number of minutes, so it keeps the second of the minute.
        let shifted: i64 = secs - (MIN_LOCAL_SECS - 86_400);
        if nanos >= NANOS_PER_SEC && shifted % 60 != 59 {
            return None;
        }
        Some(Timestamp { secs, nanos, offset })
    }

    /// Whether this timestamp is one that the tracker accepts.
    pub fn is_valid(&self) -> (r: bool)
        ensures
            r == self.wf(),
    {
        Timestamp::new(self.secs, self.nanos, self.offset).is_some()
    }

    /// The current moment on the local clock, or `None` where the clock shows
    /// a moment that the tracker does not accept.
    pub fn now() -> (r: Option<Timestamp>)
        ensures
            r is Some ==> r.unwrap().wf(),
    {
        let (secs, nanos, offset) = clock_reading();
        Timestamp::new(secs, nanos, offset)
    }

    /// Reads a text in RFC 3339 form.
    pub fn parse(text: &str) -> (r: Option<Timestamp>)
        ensures
            r == timestamp_of_parts(rfc3339_value(text@)),
            r is Some ==> r.unwrap().wf(),
    {
        match read_rfc3339(text) {
            Some((secs, nanos, offset)) => Timestamp::new(secs, nanos, offset),
            None => None,
        }
    }

    /// The RFC 3339 text of this moment.
    pub fn to_rfc3339(&self) -> (r: String)
        requires
            self.wf(),
        ensures
            r@ == rfc3339_text(self.secs, self.nanos, self.offset),
    {
        write_rfc3339(self)
    }

    /// The RFC 2822 text of this moment.
    pub fn to_rfc2822(&self) -> (r: String)
        requires
            self.wf(),
        ensures
            r@ == rfc2822_text(self.secs, self.nanos, self.offset),
    {
        write_rfc2822(self)
    }

    /// The RFC 3339 text of this moment where that text is not empty and reads
    /// back as the same moment, else `None`.
    pub fn to_portable_text(&self) -> (r: Option<String>)
        requires
            self.wf(),
        ensures
            r is Some <==> self.reads_back(),
            r is Some ==> r.unwrap()@ == rfc3339_text(self.secs, self.nanos, self.offset),
            r is Some ==> timestamp_of_parts(rfc3339_value(r.unwrap()@)) == Some(*self),
    {
        let text = write_rfc3339(self);
        if text.as_str().is_empty() {
            return None;
        }
        match read_rfc3339(text.as_str()) {
            Some((secs, nanos, offset)) => {
                if secs == self.secs && nanos == self.nanos && offset == self.offset {
                    Some(text)
                } else {
                    None
                }
            },
            None => None,
        }
    }

    /// Whole minutes from `now` until this moment, rounded toward zero;
    /// negative once the moment has passed.
    pub fn minutes_since(&self, now: &Timestamp) -> (r: i64)
        requires
            self.wf(),
            now.wf(),
        ensures
            r == minutes_between(*self, *now),
    {
        minutes_apart(self, now)
    }
}

/// A moment that is not after another lies no whole minute ahead of it.
pub proof fn lemma_passed_moment_has_no_minutes_left(moment: Timestamp, now: Timestamp)
    requires
        moment.wf(),
        now.wf(),
        moment.not_after(now),
    ensures
        minutes_between(moment, now) <= 0,
{
    let fraction = moment.nanos - now.nanos;
    let billion = NANOS_PER_SEC as int;
    assert(-2 * billion < fraction < 2 * billion);
    assert(-2 <= fraction / billion <= 1);
    if moment.secs == now.secs {
        assert(fraction <= 0);
        assert(fraction / billion <= 0);
    } else {
        if now.nanos >= NANOS_PER_SEC {
            assert(fraction < billion);
            assert(fraction / billion <= 0);
        }
    }
    assert(seconds_between(moment, now) <= 0);
}

/// Reads the local clock through `chrono::Local::now`. Nothing is claimed of
/// the three numbers: the clock decides them. `chrono` ends the program where
/// the system clock shows a moment before 1970.
#[verifier::external_body]
fn clock_reading() -> (r: (i64, u32, i32)) {
    let now = chrono::Local::now();
    (now.timestamp(), now.timestamp_subsec_nanos(), now.offset().local_minus_utc())
}

/// Calls `chrono::DateTime::to_rfc3339` on the moment. The claim is only that
/// the text is the one named [`rfc3339_text`] for these numbers.
#[verifier::external_body]
fn write_rfc3339(moment: &Timestamp) -> (r: String)
    requires
        moment.wf(),
    ensures
        r@ == rfc3339_text(moment.secs, moment.nanos, moment.offset),
{
    let utc = chrono::DateTime::from_timestamp(moment.secs, moment.nanos).unwrap();
    let zone = chrono::FixedOffset::east_opt(moment.offset).unwrap();
    utc.with_timezone(&zone).to_rfc3339()
}

/// Calls `chrono::DateTime::to_rfc2822` on the moment, which needs a local
/// year of four digits. The claim is only that the text is the one named
/// [`rfc2822_text`] for these numbers.
#[verifier::external_body]
fn write_rfc2822(moment: &Timestamp) -> (r: String)
    requires
        moment.wf(),
    ensures
        r@ == rfc2822_text(moment.secs, moment.nanos, moment.offset),
{
    let utc = chrono::DateTime::from_timestamp(moment.secs, moment.nanos).unwrap();
    let zone = chrono::FixedOffset::east_opt(moment.offset).unwrap();
    utc.with_timezone(&zone).to_rfc2822()
}

/// Calls `chrono::DateTime::parse_from_rfc3339`. The claim is only that the
/// result is the one named [`rfc3339_value`] for this text.
#[verifier::external_body]
fn read_rfc3339(text: &str) -> (r: Option<(i64, u32, i32)>)
    ensures
        r == rfc3339_value(text@),
{
    match chrono::DateTime::parse_from_rfc3339(text) {
        Ok(moment) => Some(
            (
                moment.timestamp(),
                moment.timestamp_subsec_nanos(),
                moment.offset().local_minus_utc(),
            ),
        ),
        Err(_) => None,
    }
}

/// Calls `chrono::DateTime::signed_duration_since` and
/// `chrono::TimeDelta::num_minutes`. The first subtracts the dates and the
/// times of day apart (`NaiveDate::signed_duration_since`,
/// `NaiveTime::signed_duration_since`, which counts a leap second between the
/// two times of day); the second drops the fraction toward zero and divides
/// by sixty. [`minutes_between`] states the same in whole numbers.
#[verifier::external_body]
fn minutes_apart(later: &Timestamp, earlier: &Timestamp) -> (r: i64)
    requires
        later.wf(),
        earlier.wf(),
    ensures
        r == minutes_between(*later, *earlier),
{
    let end = chrono::DateTime::from_timestamp(later.secs, later.nanos).unwrap();
    let start = chrono::DateTime::from_timestamp(earlier.secs, earlier.nanos).unwrap();
    end.signed_duration_since(start).num_minutes()
}

} // verus!
