use vstd::prelude::*;

use crate::action::{Action, Runner};
use crate::schedule::{due_runs, occurrences_in, Recurrence};
use crate::time::{lemma_lex_order, Moment, UtcOffset};

verus! {

/// The identifier of a job: the 128 bits of a random version-4 UUID, or,
/// should a scheduler already hold that one, the least value it does not hold.
#[derive(Clone, Copy, Debug, PartialEq, Eq, Structural, Hash)]
pub struct JobId(pub u128);

/// Relies on uuid::Uuid::new_v4: a fresh random identifier, as its 128 bits.
/// Nothing is known of the value.
#[verifier::external_body]
fn random_id() -> (r: u128) {
    uuid::Uuid::new_v4().as_u128()
}

/// A recurrence, the action it drives, and the bookkeeping of its runs.
pub struct Job<A> {
    schedule: Recurrence,
    action: Runner<A>,
    last_tick: Option<Moment>,
    limit_missed_runs: usize,
    id: JobId,
    timezone: UtcOffset,
}

impl<A: Action> Job<A> {
    /// The text of the job's recurrence.
    pub closed spec fn schedule_spec(&self) -> Seq<char> {
        self.schedule@
    }

    /// The job's action, as it was handed over or as its runs left it.
    pub closed spec fn action_spec(&self) -> A {
        self.action.action()
    }

    /// How many times the job has run its action.
    pub closed spec fn runs_spec(&self) -> nat {
        self.action.runs()
    }

    /// The instant of the previous advance; `None` while the job is unprimed.
    pub closed spec fn last_tick_spec(&self) -> Option<Moment> {
        self.last_tick
    }

    /// How many missed occurrences one advance may run; zero for no bound.
    pub closed spec fn limit_spec(&self) -> usize {
        self.limit_missed_runs
    }

    pub closed spec fn id_spec(&self) -> JobId {
        self.id
    }

    /// The offset whose calendar the job's occurrences are read on.
    pub closed spec fn timezone_spec(&self) -> UtcOffset {
        self.timezone
    }

    pub open spec fn wf(&self) -> bool {
        &&& self.timezone_spec().valid()
        &&& self.last_tick_spec() matches Some(t) ==> t.valid()
    }

    /// Whether `other` is `self` with only its action and last tick changed.
    pub open spec fn same_setup(&self, other: Job<A>) -> bool {
        &&& other.schedule_spec() == self.schedule_spec()
        &&& other.limit_spec() == self.limit_spec()
        &&& other.id_spec() == self.id_spec()
        &&& other.timezone_spec() == self.timezone_spec()
    }

    /// What one advance at `now` runs: nothing on the priming advance, else
    /// the due occurrences since the previous one.
    pub open spec fn runs_at(&self, now: Moment) -> Seq<Moment> {
        match self.last_tick_spec() {
            None => Seq::empty(),
            Some(previous) => due_runs(
                self.schedule_spec(),
                self.timezone_spec().seconds_spec(),
                previous,
                now,
                self.limit_spec() as nat,
            ),
        }
    }

    /// A new, unprimed job on UTC, with a fresh identifier, that runs at most
    /// one missed occurrence per advance.
    pub fn new(schedule: Recurrence, action: A) -> (r: Job<A>)
        ensures
            r.wf(),
            r.schedule_spec() == schedule@,
            r.action_spec() == action,
            r.runs_spec() == 0,
            r.last_tick_spec() is None,
            r.limit_spec() == 1,
            r.timezone_spec().seconds_spec() == 0,
    {
        Job {
            schedule,
            action: Runner::new(action),
            last_tick: None,
            limit_missed_runs: 1,
            id: JobId(random_id()),
            timezone: UtcOffset::utc(),
        }
    }

    /// Sets how many missed occurrences one advance may run; zero means no bound.
    pub fn limit_missed_runs(&mut self, limit: usize)
        ensures
            final(self).limit_spec() == limit,
            final(self).schedule_spec() == old(self).schedule_spec(),
            final(self).action_spec() == old(self).action_spec(),
            final(self).runs_spec() == old(self).runs_spec(),
            final(self).last_tick_spec() == old(self).last_tick_spec(),
            final(self).id_spec() == old(self).id_spec(),
            final(self).timezone_spec() == old(self).timezone_spec(),
    {
        self.limit_missed_runs = limit;
    }

    /// Sets the instant of the previous advance: `None` makes the job unprimed
    /// again, an earlier instant makes the next advance catch up from there.
    pub fn last_tick(&mut self, last_tick: Option<Moment>)
        requires
            last_tick matches Some(t) ==> t.valid(),
        ensures
            final(self).last_tick_spec() == last_tick,
            final(self).schedule_spec() == old(self).schedule_spec(),
            final(self).action_spec() == old(self).action_spec(),
            final(self).runs_spec() == old(self).runs_spec(),
            final(self).limit_spec() == old(self).limit_spec(),
            final(self).id_spec() == old(self).id_spec(),
            final(self).timezone_spec() == old(self).timezone_spec(),
    {
        self.last_tick = last_tick;
    }

    /// The job's next occurrence after `after`, as cron yields it, read on
    /// the calendar at `offset`.
    pub(crate) fn next_occurrence(&self, after: Moment, offset: UtcOffset) -> (r: Option<Moment>)
        requires
            after.valid(),
            offset.valid(),
        ensures
            r == crate::schedule::cron_next(self.schedule_spec(), after, offset.seconds_spec()),
            r matches Some(e) ==> e.instant() > after.instant() && e.nanos == 0,
    {
        self.schedule.next_after(after, offset)
    }

    pub(crate) fn id(&self) -> (r: JobId)
        ensures
            r == self.id_spec(),
    {
        self.id
    }

    pub(crate) fn set_id(&mut self, id: JobId)
        ensures
            final(self).id_spec() == id,
            final(self).schedule_spec() == old(self).schedule_spec(),
            final(self).action_spec() == old(self).action_spec(),
            final(self).runs_spec() == old(self).runs_spec(),
            final(self).last_tick_spec() == old(self).last_tick_spec(),
            final(self).limit_spec() == old(self).limit_spec(),
            final(self).timezone_spec() == old(self).timezone_spec(),
    {
        self.id = id;
    }

    pub(crate) fn set_timezone(&mut self, timezone: UtcOffset)
        ensures
            final(self).timezone_spec() == timezone,
            final(self).schedule_spec() == old(self).schedule_spec(),
            final(self).action_spec() == old(self).action_spec(),
            final(self).runs_spec() == old(self).runs_spec(),
            final(self).last_tick_spec() == old(self).last_tick_spec(),
            final(self).limit_spec() == old(self).limit_spec(),
            final(self).id_spec() == old(self).id_spec(),
    {
        self.timezone = timezone;
    }

    /// Advances the job to `now`: records `now` as its last tick and runs the
    /// action once for each returned occurrence, in ascending order. The
    /// priming advance runs nothing; later ones run the occurrences after the
    /// previous tick and not after `now`, only the earliest `limit` of them
    /// when the limit is not zero. Later missed occurrences are dropped.
    pub fn tick_at(&mut self, now: Moment) -> (fired: Vec<Moment>)
        requires
            old(self).wf(),
            now.valid(),
        ensures
            final(self).wf(),
            old(self).same_setup(*final(self)),
            final(self).last_tick_spec() == Some(now),
            fired@ == old(self).runs_at(now),
            final(self).runs_spec() == old(self).runs_spec() + fired@.len(),
    {
        let previous = self.last_tick;
        self.last_tick = Some(now);
        let mut fired: Vec<Moment> = Vec::new();
        let prev = match previous {
            None => {
                return fired;
            },
            Some(prev) => prev,
        };
        let limit = self.limit_missed_runs;
        let ghost expr = self.schedule@;
        let ghost off = self.timezone.seconds_spec();
        let ghost all = occurrences_in(expr, off, prev, now);
        let mut cursor = prev;
        loop
            invariant
                cursor.valid(),
                now.valid(),
                self.schedule == old(self).schedule,
                self.timezone == old(self).timezone,
                self.limit_missed_runs == limit,
                self.id == old(self).id,
                self.last_tick == Some(now),
                self.runs_spec() == old(self).runs_spec() + fired@.len(),
                expr == self.schedule@,
                off == self.timezone.seconds_spec(),
                self.timezone.valid(),
                all == occurrences_in(expr, off, prev, now),
                all == fired@ + occurrences_in(expr, off, cursor, now),
                limit == 0 || fired.len() <= limit,
            ensures
                fired@ == due_runs(expr, off, prev, now, limit as nat),
            decreases now.instant() - cursor.instant(),
        {
            if limit > 0 && fired.len() >= limit {
                proof {
                    if all.len() == limit as nat {
                        assert(fired@ =~= all);
                    } else {
                        assert(all.take(limit as int) =~= fired@);
                    }
                }
                break;
            }
            match self.schedule.next_after(cursor, self.timezone) {
                None => {
                    assert(fired@ =~= all);
                    break;
                },
                Some(e) => {
                    if e.is_after(&now) {
                        assert(fired@ =~= all);
                        break;
                    }
                    proof {
                        lemma_lex_order(e.secs as int, e.nanos as int, now.secs as int, now.nanos as int);
                        lemma_lex_order(cursor.secs as int, cursor.nanos as int, e.secs as int, e.nanos as int);
                    }
                    self.action.run();
                    assert(occurrences_in(expr, off, cursor, now) == seq![e] + occurrences_in(
                        expr,
                        off,
                        e,
                        now,
                    ));
                    fired.push(e);
                    assert(all =~= fired@ + occurrences_in(expr, off, e, now));
                    cursor = e;
                },
            }
        }
        fired
    }
}

} // verus!
