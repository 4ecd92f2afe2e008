//! When the write-ahead log is checkpointed after an autocommit write.
use std::time::Duration;
use vstd::prelude::*;

verus! {

/// The length of a span of time in nanoseconds, as `Duration::as_nanos` gives it.
pub uninterp spec fn nanos(d: Duration) -> nat;

/// `Duration::as_nanos`: the length of the span, which depends on the span alone.
pub assume_specification[ Duration::as_nanos ](d: &Duration) -> (r: u128)
    ensures
        r == nanos(*d),
;

/// Whether a checkpoint is due: it is forced, or the interval is set and has passed, or the number
/// of commits is limited and was reached.
pub open spec fn checkpoint_due(
    force: bool,
    commits: nat,
    every_commits: nat,
    elapsed: nat,
    interval: nat,
) -> bool {
    ||| force
    ||| interval > 0 && elapsed >= interval
    ||| every_commits > 0 && commits >= every_commits
}

/// Whether to checkpoint the log after an autocommit write.
pub fn should_checkpoint_autocommit(
    force_checkpoint: bool,
    commits_since_checkpoint: u64,
    checkpoint_every_commits: u64,
    elapsed_since_checkpoint: Duration,
    checkpoint_interval: Duration,
) -> (r: bool)
    ensures
        r == checkpoint_due(
            force_checkpoint,
            commits_since_checkpoint as nat,
            checkpoint_every_commits as nat,
            nanos(elapsed_since_checkpoint),
            nanos(checkpoint_interval),
        ),
{
    if force_checkpoint {
        return true;
    }
    let elapsed: u128 = elapsed_since_checkpoint.as_nanos();
    let interval: u128 = checkpoint_interval.as_nanos();
    let interval_hit = interval > 0 && elapsed >= interval;
    let commit_count_hit = checkpoint_every_commits > 0 && commits_since_checkpoint
        >= checkpoint_every_commits;
    interval_hit || commit_count_hit
}

/// A checkpoint that is due stays due when more commits were made and more time has passed.
pub proof fn law_checkpoint_stays_due(
    force: bool,
    commits: nat,
    more_commits: nat,
    every_commits: nat,
    elapsed: nat,
    more_elapsed: nat,
    interval: nat,
)
    requires
        checkpoint_due(force, commits, every_commits, elapsed, interval),
        commits <= more_commits,
        elapsed <= more_elapsed,
    ensures
        checkpoint_due(force, more_commits, every_commits, more_elapsed, interval),
{
}

/// A checkpoint is due when it is asked for, when the interval has just passed, and when the last commit
/// that may be made has been made. A bound of 0 is none.
pub proof fn law_checkpoint_is_due_at_the_bound(
    commits: nat,
    every_commits: nat,
    elapsed: nat,
    interval: nat,
)
    ensures
        checkpoint_due(true, commits, every_commits, elapsed, interval),
        interval > 0 ==> checkpoint_due(false, commits, every_commits, interval, interval),
        every_commits > 0 ==> checkpoint_due(false, every_commits, every_commits, elapsed, interval),
        !checkpoint_due(false, commits, 0, elapsed, 0),
        commits < every_commits && elapsed < interval ==> !checkpoint_due(
            false,
            commits,
            every_commits,
            elapsed,
            interval,
        ),
{
}

} // verus!
