use std::cell::Cell;
use std::rc::Rc;
use std::time::{SystemTime, UNIX_EPOCH};

use job_scheduler::{Action, Runner, Delay, Job, JobId, JobScheduler, Moment, Recurrence, RecurrenceError, UtcOffset};

/// 2023-11-14T22:13:20Z.
const T0: i64 = 1_700_000_000;

#[derive(Clone)]
struct Counter {
    hits: Rc<Cell<usize>>,
}

impl Counter {
    fn new() -> Counter {
        Counter { hits: Rc::new(Cell::new(0)) }
    }

    fn hits(&self) -> usize {
        self.hits.get()
    }
}

impl Action for Counter {
    fn run(&mut self) {
        self.hits.set(self.hits.get() + 1);
    }
}

fn at(secs: i64) -> Moment {
    Moment { secs, nanos: 0 }
}

fn schedule(expr: &str) -> Recurrence {
    Recurrence::parse(expr).unwrap()
}

fn clock() -> Moment {
    let d = SystemTime::now().duration_since(UNIX_EPOCH).unwrap();
    Moment { secs: d.as_secs() as i64, nanos: d.subsec_nanos() }
}

#[test]
fn parse_accepts_and_refuses() {
    assert!(Recurrence::parse("0 15 6,8,10 * Mar,Jun Fri 2017").is_ok());
    assert!(Recurrence::parse("*/4 * * * * *").is_ok());
    assert_eq!(Recurrence::parse("not a schedule").err(), Some(RecurrenceError::InvalidExpression));
    assert_eq!(Recurrence::parse("").err(), Some(RecurrenceError::InvalidExpression));
}

#[test]
fn next_after_is_the_following_occurrence() {
    let every_ten = schedule("0/10 * * * * *");
    let utc = UtcOffset::utc();
    assert_eq!(every_ten.next_after(at(T0), utc), Some(at(T0 + 10)));
    assert_eq!(every_ten.next_after(Moment { secs: T0 + 3, nanos: 5 }, utc), Some(at(T0 + 10)));
    let hourly = schedule("0 0 * * * *");
    assert_eq!(hourly.next_after(at(T0), utc), Some(at(1_700_002_800)));
    let past = schedule("0 0 0 1 1 * 2017");
    assert_eq!(past.next_after(at(T0), utc), None);
}

#[test]
fn next_after_reads_the_offset_calendar() {
    let midnight = schedule("0 0 0 * * *");
    let plus_eight = UtcOffset::east(8 * 3600).unwrap();
    // 2023-11-14T12:00:00Z: next local midnight at +08:00 is 16:00Z.
    assert_eq!(midnight.next_after(at(1_699_963_200), plus_eight), Some(at(1_699_977_600)));
    assert_eq!(midnight.next_after(at(1_699_963_200), UtcOffset::utc()), Some(at(1_700_006_400)));
}

#[test]
fn offsets_are_less_than_a_day() {
    assert_eq!(UtcOffset::east(86_399).map(|o| o.seconds()), Some(86_399));
    assert_eq!(UtcOffset::east(-86_399).map(|o| o.seconds()), Some(-86_399));
    assert!(UtcOffset::east(86_400).is_none());
    assert!(UtcOffset::east(-86_400).is_none());
    assert_eq!(UtcOffset::utc().seconds(), 0);
}

#[test]
fn delay_between_borrows_a_second() {
    let d = Delay::between(&Moment { secs: 10, nanos: 750_000_000 }, &Moment { secs: 40, nanos: 250_000_000 });
    assert_eq!(d, Delay { secs: 29, nanos: 500_000_000 });
    let d = Delay::between(&at(5), &Moment { secs: 5, nanos: 1 });
    assert_eq!(d, Delay { secs: 0, nanos: 1 });
    assert!(d.is_shorter(&Delay { secs: 0, nanos: 2 }));
    assert!(!d.is_shorter(&d));
    assert!(Delay { secs: 0, nanos: 0 }.total_is_zero());
}

#[test]
fn moments_order_by_instant() {
    assert!(Moment { secs: 1, nanos: 0 }.is_after(&Moment { secs: 0, nanos: 999_999_999 }));
    assert!(!at(3).is_after(&at(3)));
    assert!(Moment { secs: -1, nanos: 5 }.is_after(&Moment { secs: -1, nanos: 4 }));
}

#[test]
fn first_tick_only_primes() {
    let counter = Counter::new();
    let mut job = Job::new(schedule("* * * * * *"), counter.clone());
    job.limit_missed_runs(0);
    assert!(job.tick_at(at(T0)).is_empty());
    assert_eq!(counter.hits(), 0);
    assert_eq!(job.tick_at(at(T0 + 3)), vec![at(T0 + 1), at(T0 + 2), at(T0 + 3)]);
    assert_eq!(counter.hits(), 3);
}

#[test]
fn hourly_catch_up_runs_once() {
    let counter = Counter::new();
    let mut job = Job::new(schedule("0 0 * * * *"), counter.clone());
    job.last_tick(Some(at(T0)));
    let fired = job.tick_at(at(T0 + 61 * 60));
    assert_eq!(fired, vec![at(1_700_002_800)]);
    assert_eq!(counter.hits(), 1);
}

#[test]
fn default_limit_is_one() {
    let counter = Counter::new();
    let mut job = Job::new(schedule("* * * * * *"), counter.clone());
    job.last_tick(Some(at(T0)));
    assert_eq!(job.tick_at(at(T0 + 10)), vec![at(T0 + 1)]);
    assert_eq!(counter.hits(), 1);
}

#[test]
fn bounded_catch_up_runs_earliest() {
    let counter = Counter::new();
    let mut job = Job::new(schedule("* * * * * *"), counter.clone());
    job.limit_missed_runs(2);
    job.last_tick(Some(at(T0)));
    assert_eq!(job.tick_at(at(T0 + 10)), vec![at(T0 + 1), at(T0 + 2)]);
    assert_eq!(counter.hits(), 2);
    // The rest are dropped, not deferred.
    assert_eq!(job.tick_at(at(T0 + 11)), vec![at(T0 + 11)]);
    assert_eq!(counter.hits(), 3);
}

#[test]
fn unlimited_catch_up_runs_all_in_order() {
    let counter = Counter::new();
    let mut job = Job::new(schedule("* * * * * *"), counter.clone());
    job.limit_missed_runs(0);
    job.last_tick(Some(at(T0)));
    let fired = job.tick_at(at(T0 + 10));
    let expected: Vec<Moment> = (1..=10).map(|k| at(T0 + k)).collect();
    assert_eq!(fired, expected);
    assert_eq!(counter.hits(), 10);
}

#[test]
fn nothing_due_before_now() {
    let counter = Counter::new();
    let mut job = Job::new(schedule("0 0 * * * *"), counter.clone());
    job.last_tick(Some(at(T0)));
    assert!(job.tick_at(Moment { secs: 1_700_002_799, nanos: 999_999_999 }).is_empty());
    assert_eq!(counter.hits(), 0);
    // An occurrence exactly at `now` is due.
    assert_eq!(job.tick_at(at(1_700_002_800)), vec![at(1_700_002_800)]);
}

#[test]
fn unpriming_skips_the_next_advance() {
    let counter = Counter::new();
    let mut job = Job::new(schedule("* * * * * *"), counter.clone());
    job.tick_at(at(T0));
    job.last_tick(None);
    assert!(job.tick_at(at(T0 + 5)).is_empty());
    assert_eq!(counter.hits(), 0);
}

#[test]
fn added_ids_are_distinct() {
    let mut sched = JobScheduler::new();
    let mut ids: Vec<JobId> = Vec::new();
    for _ in 0..100 {
        ids.push(sched.add(Job::new(schedule("* * * * * *"), Counter::new())));
    }
    for i in 0..ids.len() {
        for j in (i + 1)..ids.len() {
            assert_ne!(ids[i], ids[j]);
        }
    }
}

#[test]
fn scheduler_tick_at_advances_every_job() {
    let first = Counter::new();
    let second = Counter::new();
    let mut sched = JobScheduler::new();
    let mut a = Job::new(schedule("* * * * * *"), first.clone());
    a.limit_missed_runs(0);
    sched.add(a);
    sched.add(Job::new(schedule("0/2 * * * * *"), second.clone()));
    let primed = sched.tick_at(at(T0));
    assert_eq!(primed, vec![Vec::<Moment>::new(), Vec::new()]);
    let fired = sched.tick_at(at(T0 + 4));
    assert_eq!(fired[0], vec![at(T0 + 1), at(T0 + 2), at(T0 + 3), at(T0 + 4)]);
    assert_eq!(fired[1], vec![at(T0 + 2)]);
    assert_eq!(first.hits(), 4);
    assert_eq!(second.hits(), 1);
}

#[test]
fn removed_job_never_runs_again() {
    let kept = Counter::new();
    let dropped = Counter::new();
    let mut sched = JobScheduler::new();
    sched.add(Job::new(schedule("* * * * * *"), kept.clone()));
    let id = sched.add(Job::new(schedule("* * * * * *"), dropped.clone()));
    sched.tick_at(at(T0));
    assert!(sched.remove(id));
    let fired = sched.tick_at(at(T0 + 1));
    assert_eq!(fired.len(), 1);
    assert_eq!(kept.hits(), 1);
    assert_eq!(dropped.hits(), 0);
    assert!(!sched.remove(id));
    assert_eq!(sched.tick_at(at(T0 + 2)).len(), 1);
    assert_eq!(dropped.hits(), 0);
}

#[test]
fn remove_of_unknown_id_keeps_jobs() {
    let counter = Counter::new();
    let mut sched = JobScheduler::new();
    let id = sched.add(Job::new(schedule("* * * * * *"), counter.clone()));
    let other = JobId(id.0.wrapping_add(1));
    assert!(!sched.remove(other));
    sched.tick_at(at(T0));
    sched.tick_at(at(T0 + 1));
    assert_eq!(counter.hits(), 1);
}

#[test]
fn idle_scheduler_suggests_half_a_second() {
    let sched: JobScheduler<Counter> = JobScheduler::new();
    assert_eq!(sched.time_till_next_job(), Delay { secs: 0, nanos: 500_000_000 });
    assert_eq!(sched.time_till_next_job_at(at(T0)), Delay { secs: 0, nanos: 500_000_000 });
    let sched: JobScheduler<Counter> = JobScheduler::default();
    assert_eq!(sched.time_till_next_job(), Delay { secs: 0, nanos: 500_000_000 });
}

#[test]
fn prediction_takes_the_soonest_job() {
    // 2023-11-14T22:00:00Z, on the hour.
    let hour = 1_699_999_200;
    let mut sched = JobScheduler::new();
    sched.add(Job::new(schedule("30 1 * * * *"), Counter::new()));
    sched.add(Job::new(schedule("30 * * * * *"), Counter::new()));
    assert_eq!(sched.time_till_next_job_at(at(hour)), Delay { secs: 30, nanos: 0 });
    assert_eq!(
        sched.time_till_next_job_at(Moment { secs: hour + 10, nanos: 250_000_000 }),
        Delay { secs: 19, nanos: 750_000_000 }
    );
    // Past second 30 of minute 0, the hourly job at 00:01:30 is next.
    assert_eq!(sched.time_till_next_job_at(at(hour + 31)), Delay { secs: 59, nanos: 0 });
}

#[test]
fn prediction_is_zero_without_occurrences() {
    let mut sched = JobScheduler::new();
    sched.add(Job::new(schedule("0 0 0 1 1 * 2017"), Counter::new()));
    assert_eq!(sched.time_till_next_job_at(at(T0)), Delay { secs: 0, nanos: 0 });
}

#[test]
fn prediction_from_the_clock_is_bounded_by_the_period() {
    let mut sched = JobScheduler::new();
    sched.add(Job::new(schedule("* * * * * *"), Counter::new()));
    let d = sched.time_till_next_job();
    assert_eq!(d.secs, 0);
    assert!(d.nanos > 0 && d.nanos <= 1_000_000_000);
}

#[test]
fn added_jobs_keep_their_offset() {
    let utc_job = Counter::new();
    let east_job = Counter::new();
    let mut sched = JobScheduler::new();
    sched.add(Job::new(schedule("0 0 0 * * *"), utc_job.clone()));
    sched.set_timezone(UtcOffset::east(8 * 3600).unwrap());
    sched.add(Job::new(schedule("0 0 0 * * *"), east_job.clone()));
    // 2023-11-14T12:00:00Z to a day later.
    sched.tick_at(at(1_699_963_200));
    let fired = sched.tick_at(at(1_700_049_600));
    assert_eq!(fired[0], vec![at(1_700_006_400)]);
    assert_eq!(fired[1], vec![at(1_699_977_600)]);
    assert_eq!(utc_job.hits(), 1);
    assert_eq!(east_job.hits(), 1);
}

#[test]
fn prediction_reads_the_scheduler_offset() {
    // 2023-11-14T12:00:00Z; midnight at +08:00 is 16:00Z, four hours on.
    let mut sched = JobScheduler::new();
    sched.add(Job::new(schedule("0 0 0 * * *"), Counter::new()));
    assert_eq!(sched.time_till_next_job_at(at(1_699_963_200)), Delay { secs: 12 * 3600, nanos: 0 });
    sched.set_timezone(UtcOffset::east(8 * 3600).unwrap());
    assert_eq!(sched.time_till_next_job_at(at(1_699_963_200)), Delay { secs: 4 * 3600, nanos: 0 });
}

#[test]
fn tick_catches_up_from_the_clock() {
    let counter = Counter::new();
    let mut job = Job::new(schedule("* * * * * *"), counter.clone());
    job.limit_missed_runs(0);
    let now = clock();
    job.last_tick(Some(Moment { secs: now.secs - 10, nanos: now.nanos }));
    let mut sched = JobScheduler::new();
    sched.add(job);
    let fired = sched.tick();
    assert_eq!(fired.len(), 1);
    assert_eq!(fired[0].len(), counter.hits());
    assert!(counter.hits() >= 10 && counter.hits() <= 11);
    for pair in fired[0].windows(2) {
        assert_eq!(pair[1].secs, pair[0].secs + 1);
    }
    sched.tick();
    assert!(counter.hits() <= 12);
}

#[test]
fn fresh_job_tick_from_the_clock_runs_nothing() {
    let counter = Counter::new();
    let mut sched = JobScheduler::new();
    sched.add(Job::new(schedule("* * * * * *"), counter.clone()));
    let fired = sched.tick();
    assert_eq!(fired, vec![Vec::<Moment>::new()]);
    assert_eq!(counter.hits(), 0);
}

#[test]
fn ids_stay_distinct_across_removals() {
    let mut sched = JobScheduler::new();
    let mut ids: Vec<JobId> = Vec::new();
    for round in 0..50 {
        let id = sched.add(Job::new(schedule("* * * * * *"), Counter::new()));
        assert!(!ids.contains(&id));
        ids.push(id);
        if round % 2 == 0 {
            assert!(sched.remove(id));
        }
    }
    for id in ids.iter().step_by(2) {
        assert!(!sched.remove(*id));
    }
}

#[test]
fn runner_runs_its_action_once_per_call() {
    let counter = Counter::new();
    let mut runner = Runner::new(counter.clone());
    assert_eq!(counter.hits(), 0);
    runner.run();
    runner.run();
    assert_eq!(counter.hits(), 2);
}
