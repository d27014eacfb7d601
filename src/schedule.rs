use vstd::prelude::*;

use crate::time::{Moment, UtcOffset};

verus! {

#[verifier::external_type_specification]
#[verifier::external_body]
pub struct ExCronSchedule(cron::Schedule);

#[verifier::external_type_specification]
#[verifier::external_body]
pub struct ExCronError(cron::error::Error);

/// Whether the recurrence grammar of the cron library accepts `expr`.
pub uninterp spec fn cron_accepts(expr: Seq<char>) -> bool;

/// The occurrence that cron's iterator yields first for the recurrence
/// written `expr`, starting after `after`, with calendar fields read at
/// `offset` seconds east of UTC; `None` where it yields nothing. It lies
/// strictly after `after`, though cron's search may pass over an earlier
/// match.
pub uninterp spec fn cron_next(expr: Seq<char>, after: Moment, offset: int) -> Option<Moment>;

/// A recurrence expression that could not be parsed.
#[derive(Clone, Copy, Debug, PartialEq, Eq, Structural)]
pub enum RecurrenceError {
    InvalidExpression,
}

/// A calendar recurrence (seconds, minutes, hours, day of month, month, day
/// of week and an optional year), kept with the text it was parsed from.
pub struct Recurrence {
    source: String,
    parsed: cron::Schedule,
}

/// Relies on cron's `FromStr` for `cron::Schedule`: it fails exactly on the
/// expressions its grammar refuses.
#[verifier::external_body]
fn parse_cron(expr: &str) -> (r: Result<cron::Schedule, cron::error::Error>)
    ensures
        r is Ok <==> cron_accepts(expr@),
{
    expr.parse::<cron::Schedule>()
}

/// Relies on cron::Schedule::after: the first item of its iterator, which
/// lies strictly after the given instant, at a whole second, and is computed
/// on the calendar of that instant's offset. `schedule.parsed` was parsed
/// from `schedule.source`, which `Recurrence::parse`, the only constructor,
/// ensures.
#[verifier::external_body]
fn first_after(schedule: &Recurrence, after: Moment, offset: UtcOffset) -> (r: Option<Moment>)
    requires
        after.valid(),
        offset.valid(),
    ensures
        r == cron_next(schedule@, after, offset.seconds_spec()),
        r matches Some(e) ==> e.instant() > after.instant() && e.nanos == 0,
{
    chrono::DateTime::from_timestamp(after.secs, after.nanos)
        .zip(chrono::FixedOffset::east_opt(offset.seconds()))
        .and_then(|(at, tz)| schedule.parsed.after(&at.with_timezone(&tz)).next())
        .map(|e| Moment { secs: e.timestamp(), nanos: e.timestamp_subsec_nanos() })
}

impl View for Recurrence {
    type V = Seq<char>;

    closed spec fn view(&self) -> Seq<char> {
        self.source@
    }
}

impl Recurrence {
    /// Parses a recurrence expression such as `"0 15 6,8,10 * Mar,Jun Fri 2017"`.
    pub fn parse(expr: &str) -> (r: Result<Recurrence, RecurrenceError>)
        ensures
            r is Ok <==> cron_accepts(expr@),
            r matches Ok(s) ==> s@ == expr@,
            r matches Err(e) ==> e == RecurrenceError::InvalidExpression,
    {
        match parse_cron(expr) {
            Ok(parsed) => {
                let source = expr.to_string();
                Ok(Recurrence { source, parsed })
            },
            Err(_) => Err(RecurrenceError::InvalidExpression),
        }
    }

    /// The next occurrence that cron yields after `after`, on the calendar at
    /// `offset`.
    pub fn next_after(&self, after: Moment, offset: UtcOffset) -> (r: Option<Moment>)
        requires
            after.valid(),
            offset.valid(),
        ensures
            r == cron_next(self@, after, offset.seconds_spec()),
            r matches Some(e) ==> e.instant() > after.instant() && e.nanos == 0,
    {
        first_after(self, after, offset)
    }
}

impl std::str::FromStr for Recurrence {
    type Err = RecurrenceError;

    /// Same as `Recurrence::parse`.
    fn from_str(expr: &str) -> Result<Recurrence, RecurrenceError> {
        Recurrence::parse(expr)
    }
}

/// The occurrences of `expr` (calendar at `offset`) strictly after `from` and
/// no later than `until`, in ascending order.
pub open spec fn occurrences_in(expr: Seq<char>, offset: int, from: Moment, until: Moment) -> Seq<
    Moment,
>
    decreases until.instant() - from.instant(),
{
    match cron_next(expr, from, offset) {
        Some(e) => if from.instant() < e.instant() && e.instant() <= until.instant() {
            seq![e] + occurrences_in(expr, offset, e, until)
        } else {
            Seq::empty()
        },
        None => Seq::empty(),
    }
}

/// The occurrences that one advance from `from` to `now` runs: all of those
/// in between when `limit` is zero, else the earliest `limit` of them.
pub open spec fn due_runs(expr: Seq<char>, offset: int, from: Moment, now: Moment, limit: nat) -> Seq<
    Moment,
> {
    let all = occurrences_in(expr, offset, from, now);
    if limit == 0 || all.len() <= limit {
        all
    } else {
        all.take(limit as int)
    }
}

/// Every occurrence between `from` and `until` comes after `from`, is no
/// later than `until`, and they come in strictly ascending order.
pub proof fn lemma_occurrences_ascending(expr: Seq<char>, offset: int, from: Moment, until: Moment)
    ensures
        ({
            let all = occurrences_in(expr, offset, from, until);
            &&& forall|i: int|
                0 <= i < all.len() ==> from.instant() < (#[trigger] all[i]).instant()
                    <= until.instant()
            &&& forall|i: int, j: int|
                0 <= i < j < all.len() ==> (#[trigger] all[i]).instant() < (#[trigger] all[j]).instant()
        }),
    decreases until.instant() - from.instant(),
{
    match cron_next(expr, from, offset) {
        Some(e) => {
            if from.instant() < e.instant() && e.instant() <= until.instant() {
                lemma_occurrences_ascending(expr, offset, e, until);
                let all = occurrences_in(expr, offset, from, until);
                let rest = occurrences_in(expr, offset, e, until);
                assert(all == seq![e] + rest);
                assert forall|i: int, j: int| 0 <= i < j < all.len() implies (#[trigger] all[i]).instant()
                    < (#[trigger] all[j]).instant() by {
                    if i > 0 {
                        assert(all[i] == rest[i - 1]);
                    }
                    assert(all[j] == rest[j - 1]);
                }
                assert forall|i: int| 0 <= i < all.len() implies from.instant() < (
                #[trigger] all[i]).instant() <= until.instant() by {
                    if i > 0 {
                        assert(all[i] == rest[i - 1]);
                    }
                }
            }
        },
        None => {},
    }
}

/// One advance runs the earliest of the occurrences in between, in ascending
/// order: all of them when the limit is zero, else no more than the limit,
/// and fewer only when fewer are there.
pub proof fn lemma_due_runs_earliest(expr: Seq<char>, offset: int, from: Moment, now: Moment, limit: nat)
    ensures
        ({
            let all = occurrences_in(expr, offset, from, now);
            let runs = due_runs(expr, offset, from, now, limit);
            &&& runs == all.take(runs.len() as int)
            &&& limit == 0 ==> runs == all
            &&& limit > 0 ==> runs.len() == if all.len() < limit { all.len() } else { limit }
            &&& forall|i: int, j: int|
                0 <= i < j < runs.len() ==> (#[trigger] runs[i]).instant() < (#[trigger] runs[j]).instant()
            &&& forall|i: int|
                0 <= i < runs.len() ==> from.instant() < (#[trigger] runs[i]).instant() <= now.instant()
        }),
{
    lemma_occurrences_ascending(expr, offset, from, now);
    let all = occurrences_in(expr, offset, from, now);
    let runs = due_runs(expr, offset, from, now, limit);
    assert(all.take(all.len() as int) =~= all);
    assert forall|i: int| 0 <= i < runs.len() implies #[trigger] runs[i] == all[i] by {}
}

} // verus!
