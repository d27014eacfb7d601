use vstd::prelude::*;

verus! {

/// One second, in nanoseconds.
pub const NANOS_PER_SEC: u32 = 1_000_000_000;

/// Earliest second (since the Unix epoch) that a `Moment` may hold.
pub const MIN_SECS: i64 = -8_000_000_000_000;

/// Latest second (since the Unix epoch) that a `Moment` may hold: about the
/// year 255000, comfortably inside the calendar range of the date library.
pub const MAX_SECS: i64 = 8_000_000_000_000;

/// An instant: whole seconds since 1970-01-01T00:00:00Z and the nanoseconds
/// past that second.
#[derive(Clone, Copy, Debug, PartialEq, Eq, Structural)]
pub struct Moment {
    pub secs: i64,
    pub nanos: u32,
}

/// Nanoseconds since the epoch, as one number.
pub open spec fn nanos_of(secs: int, nanos: int) -> int {
    secs * 1_000_000_000 + nanos
}

/// Second-and-nanosecond pairs order lexicographically exactly as the number
/// of nanoseconds they stand for.
pub proof fn lemma_lex_order(a_s: int, a_n: int, b_s: int, b_n: int)
    requires
        0 <= a_n < 1_000_000_000,
        0 <= b_n < 1_000_000_000,
    ensures
        nanos_of(a_s, a_n) < nanos_of(b_s, b_n) <==> (a_s < b_s || (a_s == b_s && a_n < b_n)),
        nanos_of(a_s, a_n) == nanos_of(b_s, b_n) <==> (a_s == b_s && a_n == b_n),
{
    if a_s < b_s {
        assert(a_s * 1_000_000_000 + 1_000_000_000 <= b_s * 1_000_000_000) by (nonlinear_arith)
            requires
                a_s < b_s,
        ;
    } else if a_s > b_s {
        assert(b_s * 1_000_000_000 + 1_000_000_000 <= a_s * 1_000_000_000) by (nonlinear_arith)
            requires
                a_s > b_s,
        ;
    }
}

impl Moment {
    /// Within the supported range, with a nanosecond part below one second.
    pub open spec fn valid(self) -> bool {
        &&& MIN_SECS <= self.secs <= MAX_SECS
        &&& self.nanos < NANOS_PER_SEC
    }

    /// Nanoseconds since the epoch.
    pub open spec fn instant(self) -> int {
        nanos_of(self.secs as int, self.nanos as int)
    }

    /// Whether `self` comes strictly after `other`.
    pub fn is_after(&self, other: &Moment) -> (r: bool)
        requires
            self.nanos < NANOS_PER_SEC,
            other.nanos < NANOS_PER_SEC,
        ensures
            r == (self.instant() > other.instant()),
    {
        proof {
            lemma_lex_order(
                other.secs as int,
                other.nanos as int,
                self.secs as int,
                self.nanos as int,
            );
        }
        self.secs > other.secs || (self.secs == other.secs && self.nanos > other.nanos)
    }
}

/// A fixed offset from UTC, in seconds east of Greenwich.
#[derive(Clone, Copy, Debug, PartialEq, Eq, Structural)]
pub struct UtcOffset {
    seconds: i32,
}

impl UtcOffset {
    /// Less than a day either way.
    pub closed spec fn seconds_spec(self) -> int {
        self.seconds as int
    }

    pub open spec fn valid(self) -> bool {
        -86_400 < self.seconds_spec() < 86_400
    }

    /// The offset `seconds` east of UTC, or `None` unless it is less than a
    /// day either way.
    pub fn east(seconds: i32) -> (r: Option<UtcOffset>)
        ensures
            r is Some <==> -86_400 < seconds < 86_400,
            r matches Some(o) ==> o.seconds_spec() == seconds && o.valid(),
    {
        if -86_400 < seconds && seconds < 86_400 {
            Some(UtcOffset { seconds })
        } else {
            None
        }
    }

    /// UTC itself.
    pub fn utc() -> (r: UtcOffset)
        ensures
            r.seconds_spec() == 0,
            r.valid(),
    {
        UtcOffset { seconds: 0 }
    }

    /// Seconds east of UTC.
    pub fn seconds(&self) -> (r: i32)
        ensures
            r == self.seconds_spec(),
    {
        self.seconds
    }
}

/// A non-negative span of time.
#[derive(Clone, Copy, Debug, PartialEq, Eq, Structural)]
pub struct Delay {
    pub secs: u64,
    pub nanos: u32,
}

impl Delay {
    pub open spec fn total(self) -> int {
        nanos_of(self.secs as int, self.nanos as int)
    }

    /// The span from `from` to the later `to`.
    pub fn between(from: &Moment, to: &Moment) -> (r: Delay)
        requires
            from.valid(),
            to.nanos < NANOS_PER_SEC,
            from.instant() <= to.instant(),
        ensures
            r.total() == to.instant() - from.instant(),
            r.nanos < NANOS_PER_SEC,
    {
        proof {
            lemma_lex_order(to.secs as int, to.nanos as int, from.secs as int, from.nanos as int);
        }
        if to.nanos >= from.nanos {
            let r = Delay {
                secs: (to.secs as i128 - from.secs as i128) as u64,
                nanos: to.nanos - from.nanos,
            };
            assert(r.total() == to.instant() - from.instant()) by (nonlinear_arith)
                requires
                    r.secs == to.secs - from.secs,
                    r.nanos == to.nanos - from.nanos,
                    r.total() == r.secs * 1_000_000_000 + r.nanos,
                    to.instant() == to.secs * 1_000_000_000 + to.nanos,
                    from.instant() == from.secs * 1_000_000_000 + from.nanos,
            ;
            r
        } else {
            let r = Delay {
                secs: (to.secs as i128 - from.secs as i128 - 1) as u64,
                nanos: NANOS_PER_SEC - from.nanos + to.nanos,
            };
            assert(r.total() == to.instant() - from.instant()) by (nonlinear_arith)
                requires
                    r.secs == to.secs - from.secs - 1,
                    r.nanos == 1_000_000_000 - from.nanos + to.nanos,
                    r.total() == r.secs * 1_000_000_000 + r.nanos,
                    to.instant() == to.secs * 1_000_000_000 + to.nanos,
                    from.instant() == from.secs * 1_000_000_000 + from.nanos,
            ;
            r
        }
    }

    pub fn total_is_zero(&self) -> (r: bool)
        ensures
            r == (self.total() == 0),
    {
        proof {
            assert(self.secs * 1_000_000_000 >= 0) by (nonlinear_arith)
                requires
                    self.secs >= 0,
            ;
        }
        self.secs == 0 && self.nanos == 0
    }

    /// Whether `self` is shorter than `other`.
    pub fn is_shorter(&self, other: &Delay) -> (r: bool)
        requires
            self.nanos < NANOS_PER_SEC,
            other.nanos < NANOS_PER_SEC,
        ensures
            r == (self.total() < other.total()),
    {
        proof {
            lemma_lex_order(self.secs as int, self.nanos as int, other.secs as int, other.nanos as int);
        }
        self.secs < other.secs || (self.secs == other.secs && self.nanos < other.nanos)
    }
}

/// Relies on chrono's `From<SystemTime>` for `DateTime<Utc>`, applied to
/// `SystemTime::now()`: the clock's reading as seconds since the epoch
/// (negative before 1970) and a sub-second part below one second.
#[verifier::external_body]
pub(crate) fn now_utc() -> (r: Moment)
    ensures
        r.nanos < NANOS_PER_SEC,
{
    let now = chrono::DateTime::<chrono::Utc>::from(std::time::SystemTime::now());
    Moment { secs: now.timestamp(), nanos: now.timestamp_subsec_nanos() }
}

} // verus!
