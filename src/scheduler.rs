use vstd::prelude::*;
use vstd::set_lib::{lemma_int_range, lemma_len_subset, set_int_range};

use crate::action::Action;
use crate::job::{Job, JobId};
use crate::schedule::cron_next;
use crate::time::{now_utc, Delay, Moment, UtcOffset, MAX_SECS, MIN_SECS, NANOS_PER_SEC};

verus! {

/// The wait suggested when no job is held: half a second.
pub const IDLE_GUESS_NANOS: u32 = 500_000_000;

/// Holds jobs, advances them all on each tick, and predicts the next due time.
pub struct JobScheduler<A> {
    jobs: Vec<Job<A>>,
    timezone: UtcOffset,
    /// Every identifier `add` has handed out, held or since removed.
    issued: Vec<JobId>,
}

/// The wait suggested when there is nothing to schedule against.
pub open spec fn idle_guess() -> Delay {
    Delay { secs: 0, nanos: IDLE_GUESS_NANOS }
}

impl<A: Action> JobScheduler<A> {
    /// The held jobs, in the order they were added.
    pub closed spec fn jobs_spec(&self) -> Seq<Job<A>> {
        self.jobs@
    }

    /// The offset given to jobs as they are added.
    pub closed spec fn timezone_spec(&self) -> UtcOffset {
        self.timezone
    }

    /// Every identifier `add` has returned, in order.
    pub closed spec fn issued_spec(&self) -> Seq<JobId> {
        self.issued@
    }

    /// Whether `id` was handed out by `add` and its job has been removed.
    pub open spec fn retired(&self, id: JobId) -> bool {
        self.issued_spec().contains(id) && !self.ids().contains(id)
    }

    pub open spec fn ids(&self) -> Seq<JobId> {
        self.jobs_spec().map_values(|j: Job<A>| j.id_spec())
    }

    pub open spec fn wf(&self) -> bool {
        &&& self.timezone_spec().valid()
        &&& forall|i: int| 0 <= i < self.jobs_spec().len() ==> #[trigger] self.jobs_spec()[i].wf()
        &&& forall|i: int, j: int|
            0 <= i < j < self.jobs_spec().len() ==> #[trigger] self.jobs_spec()[i].id_spec()
                != #[trigger] self.jobs_spec()[j].id_spec()
        &&& forall|k: int|
            0 <= k < self.jobs_spec().len() ==> self.issued_spec().contains(
                #[trigger] self.jobs_spec()[k].id_spec(),
            )
        &&& self.issued_spec().no_duplicates()
    }

    /// The gap from `now` to the next occurrence of the `k`th job, read on
    /// the scheduler's calendar.
    pub open spec fn upcoming_gap(&self, k: int, now: Moment) -> Option<int> {
        match cron_next(self.jobs_spec()[k].schedule_spec(), now, self.timezone_spec().seconds_spec()) {
            Some(e) => Some(e.instant() - now.instant()),
            None => None,
        }
    }

    /// Whether `after` is `self` with every job advanced to `now`, the `k`th
    /// having run the occurrences in `fired[k]`.
    pub open spec fn advanced(&self, after: &JobScheduler<A>, now: Moment, fired: Seq<Vec<Moment>>) -> bool {
        &&& after.timezone_spec() == self.timezone_spec()
        &&& after.jobs_spec().len() == self.jobs_spec().len()
        &&& fired.len() == self.jobs_spec().len()
        &&& forall|k: int|
            0 <= k < self.jobs_spec().len() ==> {
                &&& self.jobs_spec()[k].same_setup(#[trigger] after.jobs_spec()[k])
                &&& after.jobs_spec()[k].last_tick_spec() == Some(now)
                &&& fired[k]@ == self.jobs_spec()[k].runs_at(now)
                &&& after.jobs_spec()[k].runs_spec() == self.jobs_spec()[k].runs_spec() + fired[k]@.len()
            }
    }

    /// Whether `after` is `self` advanced to some valid clock reading, with
    /// `fired` what each job ran; or, with nothing run, `self` unchanged.
    pub open spec fn ticked(&self, after: &JobScheduler<A>, fired: Seq<Vec<Moment>>) -> bool {
        ||| (fired.len() == 0 && after.jobs_spec() == self.jobs_spec() && after.timezone_spec()
            == self.timezone_spec())
        ||| exists|t: Moment| t.valid() && #[trigger] self.advanced(after, t, fired)
    }

    /// Whether `d` is what `time_till_next_job` may answer: the default guess,
    /// or the soonest gap reckoned from some valid clock reading.
    pub open spec fn predicted(&self, d: Delay) -> bool {
        ||| d == idle_guess()
        ||| exists|t: Moment|
            t.valid() && #[trigger] self.soonest_among(t, self.jobs_spec().len() as int, d.total())
    }

    /// An empty scheduler on UTC.
    pub fn new() -> (r: JobScheduler<A>)
        ensures
            r.wf(),
            r.jobs_spec().len() == 0,
            r.issued_spec().len() == 0,
            r.timezone_spec().seconds_spec() == 0,
    {
        JobScheduler { jobs: Vec::new(), timezone: UtcOffset::utc(), issued: Vec::new() }
    }

    /// Where the job identified by `id` stands, if it is held.
    fn position(&self, id: JobId) -> (r: Option<usize>)
        ensures
            r is None <==> !self.ids().contains(id),
            r matches Some(i) ==> i < self.jobs_spec().len() && self.jobs_spec()[i as int].id_spec()
                == id,
    {
        let mut i: usize = 0;
        while i < self.jobs.len()
            invariant
                i <= self.jobs@.len(),
                forall|k: int| 0 <= k < i ==> #[trigger] self.jobs@[k].id_spec() != id,
            decreases self.jobs@.len() - i,
        {
            if self.jobs[i].id() == id {
                assert(self.ids()[i as int] == id);
                return Some(i);
            }
            i += 1;
        }
        proof {
            if self.ids().contains(id) {
                let k = choose|k: int| 0 <= k < self.ids().len() && self.ids()[k] == id;
                assert(self.jobs@[k].id_spec() == id);
            }
        }
        None
    }

    /// Whether `add` has handed out `id`.
    fn was_issued(&self, id: JobId) -> (r: bool)
        ensures
            r == self.issued_spec().contains(id),
    {
        let mut i: usize = 0;
        while i < self.issued.len()
            invariant
                i <= self.issued@.len(),
                forall|k: int| 0 <= k < i ==> #[trigger] self.issued@[k] != id,
            decreases self.issued@.len() - i,
        {
            if self.issued[i] == id {
                return true;
            }
            i += 1;
        }
        false
    }

    /// `candidate` when `add` has not handed it out yet; otherwise the least
    /// identifier that it has not.
    fn fresh_id(&self, candidate: JobId) -> (r: JobId)
        ensures
            !self.issued_spec().contains(r),
            !self.issued_spec().contains(candidate) ==> r == candidate,
    {
        if !self.was_issued(candidate) {
            return candidate;
        }
        let ghost used = self.issued@.map_values(|id: JobId| id.0 as int).to_set();
        proof {
            self.issued@.map_values(|id: JobId| id.0 as int).lemma_cardinality_of_set();
        }
        let n = self.issued.len();
        let mut v: u128 = 0;
        loop
            invariant
                n == self.issued@.len(),
                self.issued_spec().contains(candidate),
                used == self.issued@.map_values(|id: JobId| id.0 as int).to_set(),
                used.len() <= n,
                forall|k: int| 0 <= k < v ==> #[trigger] used.contains(k),
                v <= n,
            decreases n - v,
        {
            if !self.was_issued(JobId(v)) {
                return JobId(v);
            }
            proof {
                let idx = choose|idx: int| 0 <= idx < self.issued@.len() && self.issued@[idx] == JobId(v);
                assert(self.issued@.map_values(|id: JobId| id.0 as int)[idx] == v as int);
                assert(used.contains(v as int));
                assert(set_int_range(0, v + 1).subset_of(used));
                lemma_int_range(0, v + 1);
                lemma_len_subset(set_int_range(0, v + 1), used);
            }
            v = v + 1;
        }
    }

    /// Adds `job`, on the scheduler's current offset, and returns its
    /// identifier. That is the job's own, given when it was made, unless this
    /// scheduler has handed it out before: random identifiers may collide,
    /// and to keep every identifier it returns distinct the job then gets the
    /// least identifier not handed out yet. This is the one case where a
    /// job's identifier is not the one it was made with.
    pub fn add(&mut self, job: Job<A>) -> (r: JobId)
        requires
            old(self).wf(),
            job.wf(),
        ensures
            final(self).wf(),
            final(self).timezone_spec() == old(self).timezone_spec(),
            !old(self).issued_spec().contains(r),
            !old(self).ids().contains(r),
            !old(self).issued_spec().contains(job.id_spec()) ==> r == job.id_spec(),
            final(self).issued_spec() == old(self).issued_spec().push(r),
            final(self).ids() == old(self).ids().push(r),
            forall|id: JobId| old(self).retired(id) ==> #[trigger] final(self).retired(id),
            final(self).ids().contains(r),
            final(self).jobs_spec().len() == old(self).jobs_spec().len() + 1,
            final(self).jobs_spec().take(old(self).jobs_spec().len() as int) == old(
                self,
            ).jobs_spec(),
            ({
                let added = final(self).jobs_spec().last();
                &&& added.id_spec() == r
                &&& added.timezone_spec() == old(self).timezone_spec()
                &&& added.schedule_spec() == job.schedule_spec()
                &&& added.action_spec() == job.action_spec()
                &&& added.runs_spec() == job.runs_spec()
                &&& added.last_tick_spec() == job.last_tick_spec()
                &&& added.limit_spec() == job.limit_spec()
            }),
    {
        let id = self.fresh_id(job.id());
        let mut job = job;
        job.set_id(id);
        job.set_timezone(self.timezone);
        self.jobs.push(job);
        self.issued.push(id);
        assert(self.jobs@.take(old(self).jobs@.len() as int) =~= old(self).jobs@);
        assert forall|k: int| 0 <= k < self.jobs@.len() implies self.issued@.contains(
            #[trigger] self.jobs@[k].id_spec(),
        ) by {
            if k < old(self).jobs@.len() {
                assert(self.jobs@[k] == old(self).jobs@[k]);
                assert(old(self).issued_spec().contains(old(self).jobs_spec()[k].id_spec()));
                let x = choose|x: int| 0 <= x < old(self).issued@.len() && old(self).issued@[x] == self.jobs@[k].id_spec();
                assert(self.issued@[x] == old(self).issued@[x]);
            } else {
                assert(self.issued@[old(self).issued@.len() as int] == id);
            }
        }
        assert forall|x: JobId| old(self).retired(x) implies #[trigger] self.retired(x) by {
            let w = choose|w: int| 0 <= w < old(self).issued@.len() && old(self).issued@[w] == x;
            assert(self.issued@[w] == x);
            if self.ids().contains(x) {
                let q = choose|q: int| 0 <= q < self.ids().len() && self.ids()[q] == x;
                if q < old(self).ids().len() {
                    assert(old(self).ids()[q] == x);
                }
            }
        }
        assert(self.ids() =~= old(self).ids().push(id));
        assert(self.ids()[old(self).ids().len() as int] == id);
        assert forall|i: int, j: int|
            0 <= i < j < self.jobs@.len() implies #[trigger] self.jobs@[i].id_spec()
            != #[trigger] self.jobs@[j].id_spec() by {
            if j == self.jobs@.len() - 1 {
                assert(old(self).ids()[i] == self.jobs@[i].id_spec());
            }
        }
        id
    }

    /// Removes the job identified by `id`; whether one was held.
    pub fn remove(&mut self, id: JobId) -> (r: bool)
        requires
            old(self).wf(),
        ensures
            final(self).wf(),
            final(self).timezone_spec() == old(self).timezone_spec(),
            r == old(self).ids().contains(id),
            !final(self).ids().contains(id),
            final(self).issued_spec() == old(self).issued_spec(),
            r ==> final(self).retired(id),
            forall|x: JobId| old(self).retired(x) ==> #[trigger] final(self).retired(x),
            r ==> exists|i: int|
                0 <= i < old(self).jobs_spec().len() && old(self).jobs_spec()[i].id_spec() == id
                    && final(self).jobs_spec() == old(self).jobs_spec().remove(i),
            !r ==> final(self).jobs_spec() == old(self).jobs_spec(),
    {
        match self.position(id) {
            Some(i) => {
                self.jobs.remove(i);
                assert(self.jobs@ == old(self).jobs@.remove(i as int));
                assert forall|k: int| 0 <= k < self.jobs@.len() implies self.jobs@[k].id_spec()
                    != id by {
                    if k < i {
                        assert(old(self).jobs@[k].id_spec() != old(self).jobs@[i as int].id_spec());
                    } else {
                        assert(old(self).jobs@[k + 1].id_spec() != old(self).jobs@[i as int].id_spec());
                    }
                }
                assert forall|i1: int, j1: int|
                    0 <= i1 < j1 < self.jobs@.len() implies #[trigger] self.jobs@[i1].id_spec()
                    != #[trigger] self.jobs@[j1].id_spec() by {
                    let a = if i1 < i { i1 } else { i1 + 1 };
                    let b = if j1 < i { j1 } else { j1 + 1 };
                    assert(old(self).jobs@[a].id_spec() != old(self).jobs@[b].id_spec());
                }
                assert forall|k: int| 0 <= k < self.jobs@.len() implies #[trigger] self.jobs@[k].wf() by {
                    let a = if k < i { k } else { k + 1 };
                    assert(old(self).jobs@[a].wf());
                }
                assert forall|k: int| 0 <= k < self.jobs@.len() implies self.issued_spec().contains(
                    #[trigger] self.jobs_spec()[k].id_spec(),
                ) by {
                    let a = if k < i { k } else { k + 1 };
                    assert(old(self).issued_spec().contains(old(self).jobs_spec()[a].id_spec()));
                }
                assert(old(self).issued_spec().contains(old(self).jobs_spec()[i as int].id_spec()));
                assert forall|x: JobId| old(self).retired(x) implies #[trigger] self.retired(x) by {
                    if self.ids().contains(x) {
                        let q = choose|q: int| 0 <= q < self.ids().len() && self.ids()[q] == x;
                        let a = if q < i { q } else { q + 1 };
                        assert(old(self).ids()[a] == x);
                    }
                }
                true
            },
            None => false,
        }
    }

    /// Sets the offset given to jobs added from now on and used by the
    /// prediction; the held jobs keep theirs.
    pub fn set_timezone(&mut self, timezone: UtcOffset)
        requires
            old(self).wf(),
            timezone.valid(),
        ensures
            final(self).wf(),
            final(self).timezone_spec() == timezone,
            final(self).jobs_spec() == old(self).jobs_spec(),
            final(self).issued_spec() == old(self).issued_spec(),
    {
        self.timezone = timezone;
        assert forall|k: int| 0 <= k < self.jobs_spec().len() implies self.issued_spec().contains(
            #[trigger] self.jobs_spec()[k].id_spec(),
        ) by {
            assert(old(self).issued_spec().contains(old(self).jobs_spec()[k].id_spec()));
        }
        assert forall|i: int| 0 <= i < self.jobs_spec().len() implies #[trigger] self.jobs_spec()[i].wf() by {
            assert(old(self).jobs_spec()[i].wf());
        }
        assert forall|i: int, j: int|
            0 <= i < j < self.jobs_spec().len() implies #[trigger] self.jobs_spec()[i].id_spec()
            != #[trigger] self.jobs_spec()[j].id_spec() by {
            assert(old(self).jobs_spec()[i].id_spec() != old(self).jobs_spec()[j].id_spec());
        }
    }

    /// Advances every held job to `now` (see `Job::tick_at`), in order;
    /// the `k`th list holds the occurrences the `k`th job ran.
    pub fn tick_at(&mut self, now: Moment) -> (fired: Vec<Vec<Moment>>)
        requires
            old(self).wf(),
            now.valid(),
        ensures
            final(self).wf(),
            final(self).ids() == old(self).ids(),
            final(self).issued_spec() == old(self).issued_spec(),
            old(self).advanced(final(self), now, fired@),
    {
        let mut fired: Vec<Vec<Moment>> = Vec::new();
        let n = self.jobs.len();
        assert forall|k: int| 0 <= k < n implies #[trigger] self.jobs@[k].wf() by {
            assert(self.jobs_spec()[k].wf());
        }
        let mut i: usize = 0;
        while i < n
            invariant
                n == self.jobs@.len(),
                n == old(self).jobs@.len(),
                i <= n,
                now.valid(),
                fired@.len() == i,
                self.timezone == old(self).timezone,
                self.issued == old(self).issued,
                forall|k: int| 0 <= k < n ==> #[trigger] self.jobs@[k].wf(),
                forall|k: int|
                    0 <= k < n ==> old(self).jobs@[k].same_setup(#[trigger] self.jobs@[k]),
                forall|k: int| i <= k < n ==> #[trigger] self.jobs@[k] == old(self).jobs@[k],
                forall|k: int|
                    0 <= k < i ==> {
                        &&& #[trigger] self.jobs@[k].last_tick_spec() == Some(now)
                        &&& fired@[k]@ == old(self).jobs@[k].runs_at(now)
                        &&& self.jobs@[k].runs_spec() == old(self).jobs@[k].runs_spec() + fired@[k]@.len()
                    },
            decreases n - i,
        {
            let ran = self.jobs[i].tick_at(now);
            fired.push(ran);
            i += 1;
        }
        proof {
            self.lemma_setup_keeps_ids(old(self));
            assert(self.ids() =~= old(self).ids()) by {
                assert forall|k: int| 0 <= k < n implies self.ids()[k] == old(self).ids()[k] by {
                    assert(old(self).jobs@[k].same_setup(self.jobs@[k]));
                }
            }
        }
        fired
    }

    /// Whether the held jobs of `self` are those of `before` with only their
    /// actions and last ticks changed, they keep their identifiers distinct.
    proof fn lemma_setup_keeps_ids(&self, before: &JobScheduler<A>)
        requires
            before.wf(),
            self.timezone_spec() == before.timezone_spec(),
            self.issued_spec() == before.issued_spec(),
            self.jobs_spec().len() == before.jobs_spec().len(),
            forall|k: int| 0 <= k < self.jobs_spec().len() ==> #[trigger] self.jobs_spec()[k].wf(),
            forall|k: int|
                0 <= k < self.jobs_spec().len() ==> before.jobs_spec()[k].same_setup(
                    #[trigger] self.jobs_spec()[k],
                ),
        ensures
            self.wf(),
    {
        assert forall|i: int, j: int|
            0 <= i < j < self.jobs_spec().len() implies #[trigger] self.jobs_spec()[i].id_spec()
            != #[trigger] self.jobs_spec()[j].id_spec() by {
            assert(before.jobs_spec()[i].same_setup(self.jobs_spec()[i]));
            assert(before.jobs_spec()[j].same_setup(self.jobs_spec()[j]));
            assert(before.jobs_spec()[i].id_spec() != before.jobs_spec()[j].id_spec());
        }
        assert forall|k: int| 0 <= k < self.jobs_spec().len() implies self.issued_spec().contains(
            #[trigger] self.jobs_spec()[k].id_spec(),
        ) by {
            assert(before.jobs_spec()[k].same_setup(self.jobs_spec()[k]));
            assert(before.issued_spec().contains(before.jobs_spec()[k].id_spec()));
        }
    }

    /// Advances every held job to one reading of the clock, running what
    /// has come due (see `tick_at`), and returns what each job ran. A reading
    /// outside the supported range leaves every job as it is.
    pub fn tick(&mut self) -> (fired: Vec<Vec<Moment>>)
        requires
            old(self).wf(),
        ensures
            final(self).wf(),
            final(self).ids() == old(self).ids(),
            final(self).issued_spec() == old(self).issued_spec(),
            old(self).ticked(final(self), fired@),
    {
        let now = now_utc();
        if MIN_SECS <= now.secs && now.secs <= MAX_SECS {
            let fired = self.tick_at(now);
            assert(old(self).advanced(self, now, fired@));
            fired
        } else {
            Vec::new()
        }
    }

    /// Whether `d` is the shortest gap from `now` to the next occurrence of
    /// one of the first `count` jobs; zero exactly when none of them has one.
    pub open spec fn soonest_among(&self, now: Moment, count: int, d: int) -> bool {
        &&& forall|k: int|
            0 <= k < count ==> (#[trigger] self.upcoming_gap(k, now) matches Some(g) ==> d <= g)
        &&& (d == 0 <==> forall|k: int| 0 <= k < count ==> #[trigger] self.upcoming_gap(k, now) is None)
        &&& (d != 0 ==> exists|k: int|
            0 <= k < count && #[trigger] self.upcoming_gap(k, now) == Some(d))
    }

    /// How long the caller may wait before the next tick is worth making,
    /// reckoned from `now`: half a second when no job is held; otherwise the
    /// shortest gap from `now` to a job's next occurrence on the scheduler's
    /// calendar, or zero when no job has one.
    pub fn time_till_next_job_at(&self, now: Moment) -> (r: Delay)
        requires
            self.wf(),
            now.valid(),
        ensures
            r.nanos < NANOS_PER_SEC,
            self.jobs_spec().len() == 0 ==> r == idle_guess(),
            self.jobs_spec().len() > 0 ==> self.soonest_among(now, self.jobs_spec().len() as int, r.total()),
    {
        if self.jobs.len() == 0 {
            return Delay { secs: 0, nanos: IDLE_GUESS_NANOS };
        }
        let mut shortest = Delay { secs: 0, nanos: 0 };
        let n = self.jobs.len();
        let mut i: usize = 0;
        while i < n
            invariant
                n == self.jobs@.len(),
                i <= n,
                now.valid(),
                self.wf(),
                shortest.nanos < NANOS_PER_SEC,
                shortest.total() >= 0,
                forall|k: int| 0 <= k < i ==> (#[trigger] self.upcoming_gap(k, now) matches Some(g) ==> 0 < g),
                self.soonest_among(now, i as int, shortest.total()),
            decreases n - i,
        {
            let ghost before = shortest;
            match self.jobs[i].next_occurrence(now, self.timezone) {
                Some(e) => {
                    let gap = Delay::between(&now, &e);
                    if shortest.total_is_zero() || gap.is_shorter(&shortest) {
                        shortest = gap;
                    }
                    assert(self.upcoming_gap(i as int, now) == Some(gap.total()));
                },
                None => {
                    assert(self.upcoming_gap(i as int, now) is None);
                },
            }
            proof {
                if shortest.total() != 0 {
                    if shortest == before {
                        let k = choose|k: int|
                            0 <= k < i && #[trigger] self.upcoming_gap(k, now) == Some(before.total());
                        assert(self.upcoming_gap(k, now) == Some(shortest.total()));
                    } else {
                        assert(self.upcoming_gap(i as int, now) == Some(shortest.total()));
                    }
                }
                if shortest.total() == 0 {
                    assert forall|k: int| 0 <= k < i + 1 implies #[trigger] self.upcoming_gap(k, now) is None by {
                        if k < i {
                            if self.upcoming_gap(k, now) is Some {
                                assert(before.total() != 0);
                            }
                        }
                    }
                }
            }
            i += 1;
        }
        shortest
    }

    /// `time_till_next_job_at` from the clock's current reading; half a
    /// second when nothing is held or the reading is out of range.
    pub fn time_till_next_job(&self) -> (r: Delay)
        requires
            self.wf(),
        ensures
            r.nanos < NANOS_PER_SEC,
            self.jobs_spec().len() == 0 ==> r == idle_guess(),
            self.jobs_spec().len() > 0 ==> self.predicted(r),
    {
        let now = now_utc();
        if MIN_SECS <= now.secs && now.secs <= MAX_SECS {
            let r = self.time_till_next_job_at(now);
            assert(self.jobs_spec().len() > 0 ==> self.soonest_among(now, self.jobs_spec().len() as int, r.total()));
            r
        } else {
            Delay { secs: 0, nanos: IDLE_GUESS_NANOS }
        }
    }
}

/// The identifiers that `add` has returned over a scheduler's life are
/// pairwise distinct (each call returns one not handed out before and
/// records it), every held job has one of them, and no two held jobs share
/// one.
pub proof fn lemma_ids_distinct<A: Action>(s: &JobScheduler<A>)
    requires
        s.wf(),
    ensures
        s.issued_spec().no_duplicates(),
        s.ids().no_duplicates(),
        forall|k: int| 0 <= k < s.ids().len() ==> s.issued_spec().contains(#[trigger] s.ids()[k]),
{
    assert forall|i: int, j: int|
        0 <= i < s.ids().len() && 0 <= j < s.ids().len() && i != j implies s.ids()[i] != s.ids()[j] by {
        if i < j {
            assert(s.jobs_spec()[i].id_spec() != s.jobs_spec()[j].id_spec());
        } else {
            assert(s.jobs_spec()[j].id_spec() != s.jobs_spec()[i].id_spec());
        }
    }
    assert forall|k: int| 0 <= k < s.ids().len() implies s.issued_spec().contains(#[trigger] s.ids()[k]) by {
        assert(s.issued_spec().contains(s.jobs_spec()[k].id_spec()));
    }
}

impl<A: Action> Default for JobScheduler<A> {
    /// Same as `JobScheduler::new`.
    fn default() -> (r: JobScheduler<A>)
        ensures
            r.wf(),
            r.jobs_spec().len() == 0,
            r.issued_spec().len() == 0,
            r.timezone_spec().seconds_spec() == 0,
    {
        JobScheduler::new()
    }
}

} // verus!
