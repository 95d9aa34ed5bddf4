//! Instants on the UTC time line, as far as RFC 3339 can write them.

use crate::error::TaskError;
use vstd::prelude::*;

verus! {

/// Seconds since the epoch at `0000-01-01T00:00:00Z`.
pub const MIN_SECONDS: i64 = -62_167_219_200;

/// Seconds since the epoch at `9999-12-31T23:59:59Z`.
pub const MAX_SECONDS: i64 = 253_402_300_799;

/// The nanoseconds of a second.
pub const NANOS_PER_SECOND: u32 = 1_000_000_000;

/// Whether `nanos` nanoseconds since the epoch lie in a year from 0 to 9999.
pub open spec fn representable(nanos: int) -> bool {
    MIN_SECONDS * NANOS_PER_SECOND <= nanos < (MAX_SECONDS + 1) * NANOS_PER_SECOND
}

/// An instant: whole seconds since `1970-01-01T00:00:00Z` and the
/// nanoseconds past them. Its view is the count of nanoseconds since the
/// epoch. Every value lies in a year from 0 to 9999.
#[derive(Clone, Copy, Debug, PartialEq, Eq, Structural)]
pub struct Timestamp {
    secs: i64,
    nanos: u32,
}

impl View for Timestamp {
    type V = int;

    open spec fn view(&self) -> int {
        self.seconds() * NANOS_PER_SECOND + self.subsec_nanos()
    }
}

impl Timestamp {
    /// The whole seconds since the epoch, rounded down.
    pub closed spec fn seconds(self) -> i64 {
        self.secs
    }

    /// The nanoseconds past the whole seconds.
    pub closed spec fn subsec_nanos(self) -> u32 {
        self.nanos
    }

    /// What holds of every instant: it lies in a year from 0 to 9999, and
    /// its nanoseconds are less than a second.
    #[verifier::type_invariant]
    pub open spec fn is_valid(self) -> bool {
        &&& MIN_SECONDS <= self.seconds() <= MAX_SECONDS
        &&& self.subsec_nanos() < NANOS_PER_SECOND
    }

    /// Valid instants are told apart by their views.
    pub proof fn lemma_view_injective(self, other: Timestamp)
        requires
            self.is_valid(),
            other.is_valid(),
            self@ == other@,
        ensures
            self == other,
    {
        assert(self.secs == other.secs) by (nonlinear_arith)
            requires
                self.secs * 1_000_000_000 + self.nanos == other.secs * 1_000_000_000 + other.nanos,
                0 <= self.nanos < 1_000_000_000,
                0 <= other.nanos < 1_000_000_000,
        ;
    }

    /// A valid instant is representable, and its parts are the quotient and
    /// remainder of its view.
    pub proof fn lemma_view_parts(self)
        requires
            self.is_valid(),
        ensures
            representable(self@),
            self.seconds() == self@ / (NANOS_PER_SECOND as int),
            self.subsec_nanos() == self@ % (NANOS_PER_SECOND as int),
    {
        let s = self.secs as int;
        let n = self.nanos as int;
        assert((s * 1_000_000_000 + n) / 1_000_000_000 == s && (s * 1_000_000_000 + n)
            % 1_000_000_000 == n) by (nonlinear_arith)
            requires
                0 <= n < 1_000_000_000,
        ;
    }

    /// The instant `secs` seconds and `nanos` nanoseconds after the epoch,
    /// if it lies in a year from 0 to 9999 and `nanos` is less than a second.
    pub fn new(secs: i64, nanos: u32) -> (r: Option<Timestamp>)
        ensures
            r is Some <==> MIN_SECONDS <= secs <= MAX_SECONDS && nanos < NANOS_PER_SECOND,
            r matches Some(t) ==> t.seconds() == secs && t.subsec_nanos() == nanos && t.is_valid(),
    {
        if MIN_SECONDS <= secs && secs <= MAX_SECONDS && nanos < NANOS_PER_SECOND {
            Some(Timestamp { secs, nanos })
        } else {
            None
        }
    }

    /// The whole seconds since the epoch, rounded down.
    pub fn secs(&self) -> (r: i64)
        ensures
            r == self.seconds(),
            self.is_valid(),
    {
        proof {
            use_type_invariant(self);
        }
        self.secs
    }

    /// The nanoseconds past the whole seconds.
    pub fn nanos(&self) -> (r: u32)
        ensures
            r == self.subsec_nanos(),
            self.is_valid(),
    {
        proof {
            use_type_invariant(self);
        }
        self.nanos
    }

    /// Whether this instant comes strictly before `other`.
    pub fn is_before(&self, other: &Timestamp) -> (r: bool)
        ensures
            r == (self@ < other@),
    {
        proof {
            use_type_invariant(self);
            use_type_invariant(other);
        }
        self.secs < other.secs || (self.secs == other.secs && self.nanos < other.nanos)
    }

    /// This instant moved by `minutes` minutes, forward or back, if that is
    /// still an instant in a year from 0 to 9999.
    pub fn checked_add_minutes(&self, minutes: i64) -> (r: Option<Timestamp>)
        ensures
            r is Some <==> representable(self@ + minutes * NANOS_PER_MINUTE),
            r matches Some(t) ==> t@ == self@ + minutes * NANOS_PER_MINUTE && t.is_valid(),
    {
        proof {
            use_type_invariant(self);
        }
        if minutes < -MAX_SHIFT_MINUTES || minutes > MAX_SHIFT_MINUTES {
            return None;
        }
        let secs: i64 = self.secs + minutes * 60;
        Timestamp::new(secs, self.nanos)
    }

    /// How long after `self` the instant lies that comes `lead_seconds`
    /// seconds before `target`; zero if that instant is not after `self`.
    pub fn delay_until_lead(&self, target: &Timestamp, lead_seconds: u32) -> (d: Delay)
        ensures
            d@ == remaining(self@, target@ - lead_seconds * NANOS_PER_SECOND),
            d.is_valid(),
    {
        proof {
            use_type_invariant(self);
            use_type_invariant(target);
        }
        let goal_secs: i64 = target.secs - lead_seconds as i64;
        if goal_secs < self.secs || (goal_secs == self.secs && target.nanos <= self.nanos) {
            Delay::new(0, 0)
        } else if target.nanos >= self.nanos {
            Delay::new((goal_secs - self.secs) as u64, target.nanos - self.nanos)
        } else {
            Delay::new(
                (goal_secs - self.secs - 1) as u64,
                NANOS_PER_SECOND - self.nanos + target.nanos,
            )
        }
    }

    /// How long after `self` the instant `target` lies; zero if it is not
    /// after `self`.
    pub fn delay_until(&self, target: &Timestamp) -> (d: Delay)
        ensures
            d@ == remaining(self@, target@),
            d.is_valid(),
    {
        self.delay_until_lead(target, 0)
    }
}

/// The nanoseconds of a minute.
pub const NANOS_PER_MINUTE: i64 = 60_000_000_000;

/// No shift by more minutes than this stays within the years 0 to 9999.
const MAX_SHIFT_MINUTES: i64 = 5_300_000_000;

/// The nanoseconds from `now` to `goal`, or zero if `goal` is not after `now`.
pub open spec fn remaining(now: int, goal: int) -> int {
    if goal > now {
        goal - now
    } else {
        0
    }
}

/// A span of time that is not negative: whole seconds and the nanoseconds
/// past them. Its view is the count of nanoseconds.
#[derive(Clone, Copy, Debug, PartialEq, Eq, Structural)]
pub struct Delay {
    secs: u64,
    nanos: u32,
}

impl View for Delay {
    type V = int;

    open spec fn view(&self) -> int {
        self.seconds() * NANOS_PER_SECOND + self.subsec_nanos()
    }
}

impl Delay {
    /// The whole seconds of the span.
    pub closed spec fn seconds(self) -> u64 {
        self.secs
    }

    /// The nanoseconds past the whole seconds.
    pub closed spec fn subsec_nanos(self) -> u32 {
        self.nanos
    }

    /// What holds of every span: its nanoseconds are less than a second.
    #[verifier::type_invariant]
    pub open spec fn is_valid(self) -> bool {
        self.subsec_nanos() < NANOS_PER_SECOND
    }

    fn new(secs: u64, nanos: u32) -> (d: Delay)
        requires
            nanos < NANOS_PER_SECOND,
        ensures
            d.seconds() == secs,
            d.subsec_nanos() == nanos,
    {
        Delay { secs, nanos }
    }

    /// The whole seconds of the span.
    pub fn secs(&self) -> (r: u64)
        ensures
            r == self.seconds(),
    {
        self.secs
    }

    /// The nanoseconds past the whole seconds.
    pub fn nanos(&self) -> (r: u32)
        ensures
            r == self.subsec_nanos(),
            self.is_valid(),
    {
        proof {
            use_type_invariant(self);
        }
        self.nanos
    }

    /// Whether the span is empty.
    pub fn is_zero(&self) -> (r: bool)
        ensures
            r == (self@ == 0),
    {
        proof {
            use_type_invariant(self);
        }
        self.secs == 0 && self.nanos == 0
    }
}

/// The text that `chrono` writes for the instant `secs` seconds and `nanos`
/// nanoseconds after the epoch, in RFC 3339 form.
pub uninterp spec fn rfc3339_text(secs: i64, nanos: u32) -> Seq<char>;

/// The instant that `chrono` reads from `text` as an RFC 3339 timestamp, in
/// seconds since the epoch and nanoseconds past them; `None` where it reads
/// none.
pub uninterp spec fn rfc3339_instant(text: Seq<char>) -> Option<(i64, u32)>;

/// The text that `chrono` prints for the instant `secs` seconds and `nanos`
/// nanoseconds after the epoch: the date, the time of day, and `UTC`.
pub uninterp spec fn utc_display_text(secs: i64, nanos: u32) -> Seq<char>;

/// The printed text of the instant `t` nanoseconds after the epoch.
pub open spec fn instant_display(t: int) -> Seq<char> {
    utc_display_text(
        (t / (NANOS_PER_SECOND as int)) as i64,
        (t % (NANOS_PER_SECOND as int)) as u32,
    )
}

/// The RFC 3339 text of the instant `t` nanoseconds after the epoch.
pub open spec fn instant_text(t: int) -> Seq<char> {
    rfc3339_text((t / (NANOS_PER_SECOND as int)) as i64, (t % (NANOS_PER_SECOND as int)) as u32)
}

/// The instant that `text` denotes, in nanoseconds since the epoch, where
/// `text` is an RFC 3339 timestamp in a year from 0 to 9999.
pub open spec fn instant_of_text(text: Seq<char>) -> Option<int> {
    match rfc3339_instant(text) {
        Some((secs, nanos)) => if MIN_SECONDS <= secs <= MAX_SECONDS && nanos < NANOS_PER_SECOND {
            Some(secs * NANOS_PER_SECOND + nanos)
        } else {
            None
        },
        None => None,
    }
}

/// Whether the text of the instant `t` is one line that denotes `t` again.
pub open spec fn reads_back(t: int) -> bool {
    &&& instant_of_text(instant_text(t)) == Some(t)
    &&& !instant_text(t).contains('\n')
}

/// What `parse_rfc3339` says of a time that no `Timestamp` can hold.
pub open spec fn out_of_range_message() -> Seq<char> {
    "Time must lie in a year from 0 to 9999 and in no leap second."@
}

/// Calls `chrono::DateTime::from_timestamp` and `DateTime::to_rfc3339`.
/// Trusted: the text is the one named by `rfc3339_text`; it holds no line
/// feed; and `chrono` reads the same instant back from it. This is claimed
/// for the years 0 to 9999 only, which `chrono` writes with four digits.
#[verifier::external_body]
fn chrono_to_rfc3339(secs: i64, nanos: u32) -> (text: String)
    requires
        MIN_SECONDS <= secs <= MAX_SECONDS,
        nanos < NANOS_PER_SECOND,
    ensures
        text@ == rfc3339_text(secs, nanos),
        rfc3339_instant(text@) == Some((secs, nanos)),
        !text@.contains('\n'),
{
    chrono::DateTime::from_timestamp(secs, nanos).unwrap().to_rfc3339()
}

/// Calls `chrono::DateTime::from_timestamp` and prints the result through
/// its `Display`. Trusted: the text is the one named by `utc_display_text`.
#[verifier::external_body]
fn chrono_display(secs: i64, nanos: u32) -> (text: String)
    requires
        MIN_SECONDS <= secs <= MAX_SECONDS,
        nanos < NANOS_PER_SECOND,
    ensures
        text@ == utc_display_text(secs, nanos),
{
    chrono::DateTime::from_timestamp(secs, nanos).unwrap().to_string()
}

/// Calls `chrono::DateTime::parse_from_rfc3339` and moves the result to UTC
/// with `DateTime::with_timezone`. Trusted: the instant handed back is the
/// one named by `rfc3339_instant`, and an error comes exactly where that
/// names none.
#[verifier::external_body]
fn chrono_parse_rfc3339(text: &str) -> (r: Result<(i64, u32), chrono::ParseError>)
    ensures
        r matches Ok(v) ==> rfc3339_instant(text@) == Some(v),
        r is Err ==> rfc3339_instant(text@) is None,
{
    match chrono::DateTime::parse_from_rfc3339(text) {
        Ok(local) => {
            let utc = local.with_timezone(&chrono::Utc);
            Ok((utc.timestamp(), utc.timestamp_subsec_nanos()))
        },
        Err(e) => Err(e),
    }
}

impl Timestamp {
    /// This instant as an RFC 3339 timestamp.
    pub fn to_rfc3339(&self) -> (text: String)
        ensures
            text@ == instant_text(self@),
            reads_back(self@),
    {
        proof {
            use_type_invariant(self);
            self.lemma_view_parts();
        }
        chrono_to_rfc3339(self.secs, self.nanos)
    }

    /// This instant as a date, a time of day and `UTC`, for display.
    pub fn to_display_text(&self) -> (text: String)
        ensures
            text@ == instant_display(self@),
    {
        proof {
            use_type_invariant(self);
            self.lemma_view_parts();
        }
        chrono_display(self.secs, self.nanos)
    }

    /// Reads an RFC 3339 timestamp. Fails with `ChronoParse` on a text that
    /// is none, and with `InvalidTime` on one that lies outside the years 0
    /// to 9999 or in a leap second.
    pub fn parse_rfc3339(text: &str) -> (r: Result<Timestamp, TaskError>)
        ensures
            match r {
                Ok(t) => instant_of_text(text@) == Some(t@) && t.is_valid(),
                Err(TaskError::ChronoParse(_)) => rfc3339_instant(text@) is None,
                Err(TaskError::InvalidTime(m)) => rfc3339_instant(text@) is Some && instant_of_text(
                    text@,
                ) is None && m@ == out_of_range_message(),
                Err(_) => false,
            },
    {
        match chrono_parse_rfc3339(text) {
            Ok((secs, nanos)) => match Timestamp::new(secs, nanos) {
                Some(t) => Ok(t),
                None => Err(
                    TaskError::InvalidTime(
                        "Time must lie in a year from 0 to 9999 and in no leap second.".to_owned(),
                    ),
                ),
            },
            Err(e) => Err(TaskError::ChronoParse(e)),
        }
    }
}

} // verus!
