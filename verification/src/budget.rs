//! The concurrency budget: how many comparisons may be in flight at once.

use vstd::prelude::*;

verus! {

/// Comparisons kept in flight for each thread of parallelism, so that the
/// writer is supplied with work while single comparisons still run.
pub const FAN_OUT: usize = 4;

/// Number of results that the result channel holds before a sender has to wait.
pub const RESULT_CHANNEL_CAPACITY: usize = 32;

/// Threads that the runtime may have in all, for each core thread that was
/// requested: the core threads themselves and as many again for work that
/// blocks.
pub const THREADS_PER_CORE_THREAD: usize = 2;

/// The number of threads that the runtime may have in all when the given
/// number of core threads was requested.
pub fn thread_limit(core_threads: u16) -> (limit: usize)
    ensures
        limit == core_threads * THREADS_PER_CORE_THREAD,
{
    (core_threads as usize) * THREADS_PER_CORE_THREAD
}

/// The parallelism that a run works with: what the machine offers, lowered to
/// the requested thread count where one was given.
pub open spec fn effective_parallelism(available: nat, requested: Option<u16>) -> nat {
    match requested {
        Some(threads) => if (threads as nat) < available {
            threads as nat
        } else {
            available
        },
        None => available,
    }
}

/// The concurrency budget for the given parallelism.
pub open spec fn budget_of(available: nat, requested: Option<u16>) -> nat {
    effective_parallelism(available, requested) * (FAN_OUT as nat)
}

/// Whether the budget for the given parallelism can be held in a `usize`.
pub open spec fn budget_fits(available: nat, requested: Option<u16>) -> bool {
    budget_of(available, requested) <= usize::MAX
}

/// The concurrency budget for the given parallelism where it can be held in
/// a `usize`, and `None` where it cannot.
pub open spec fn checked_budget_of(available: nat, requested: Option<u16>) -> Option<usize> {
    if budget_fits(available, requested) {
        Some(budget_of(available, requested) as usize)
    } else {
        None
    }
}

/// The parallelism that a run works with.
fn parallelism(available: usize, requested: Option<u16>) -> (threads: usize)
    ensures
        threads == effective_parallelism(available as nat, requested),
{
    match requested {
        Some(threads) => if (threads as usize) < available {
            threads as usize
        } else {
            available
        },
        None => available,
    }
}

/// Computes the concurrency budget from the parallelism that the machine
/// offers and the requested thread count, if any.
pub fn concurrency_budget(available: usize, requested: Option<u16>) -> (budget: usize)
    requires
        budget_fits(available as nat, requested),
    ensures
        budget == budget_of(available as nat, requested),
{
    parallelism(available, requested) * FAN_OUT
}

/// Computes the concurrency budget where it can be held in a `usize`, and
/// says so where it cannot.
pub fn checked_concurrency_budget(available: usize, requested: Option<u16>) -> (budget: Option<
    usize,
>)
    ensures
        budget == checked_budget_of(available as nat, requested),
{
    if parallelism(available, requested) <= usize::MAX / FAN_OUT {
        Some(concurrency_budget(available, requested))
    } else {
        None
    }
}

/// Calls `num_cpus::get`, which reports the number of logical processors that
/// this process may use. The count depends on the machine and on the limits
/// set for the process, so the contract keeps only what the function's
/// documentation promises of every call: that the count is at least one.
#[verifier::external_body]
fn logical_processors() -> (count: usize)
    ensures
        count >= 1,
{
    num_cpus::get()
}

/// Computes the concurrency budget for this machine: the number of logical
/// processors is asked for once and stands for the available parallelism.
/// The result is `None` where the budget for that number cannot be held in a
/// `usize`.
pub fn detect_concurrency_budget(requested: Option<u16>) -> (budget: Option<usize>)
    ensures
        exists|available: nat|
            1 <= available <= usize::MAX && budget == #[trigger] checked_budget_of(
                available,
                requested,
            ),
{
    let available: usize = logical_processors();
    let budget = checked_concurrency_budget(available, requested);
    assert(budget == checked_budget_of(available as nat, requested));
    budget
}

} // verus!
