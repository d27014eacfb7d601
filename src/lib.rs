//! A poll-driven scheduler of recurring jobs: each job follows a calendar
//! recurrence, and every `tick` runs the occurrences that have come due since
//! the previous one, catching up on missed runs up to a per-job limit.
mod action;
mod job;
mod schedule;
mod scheduler;
mod time;

pub use action::{Action, Runner};
pub use job::{Job, JobId};
pub use scheduler::{idle_guess, lemma_ids_distinct, JobScheduler, IDLE_GUESS_NANOS};
pub use schedule::{
    cron_accepts, cron_next, due_runs, lemma_due_runs_earliest, lemma_occurrences_ascending,
    occurrences_in, Recurrence, RecurrenceError,
};
pub use time::{lemma_lex_order, nanos_of, Delay, Moment, UtcOffset, MAX_SECS, MIN_SECS, NANOS_PER_SEC};
