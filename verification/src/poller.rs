use vstd::prelude::*;
use crate::errors::HarnessError;

verus! {

/// Whether a poll loop that has waited `elapsed_ms` of `timeout_ms` may probe
/// once more: the poller probes exactly while the elapsed time is below the
/// timeout, so every successful probe happens strictly before it.
pub fn may_poll(elapsed_ms: u64, timeout_ms: u64) -> (r: bool)
    ensures
        r == (elapsed_ms < timeout_ms),
{
    elapsed_ms < timeout_ms
}

/// The attempt at which a poll schedule first succeeds, counting from `i`:
/// attempt `k` starts at `k * interval`, and is made only while that start
/// lies strictly before the timeout and an outcome is recorded for it.
pub open spec fn poll_run(outcomes: Seq<bool>, timeout: int, interval: int, i: int) -> Option<int>
    decreases outcomes.len() - i when 0 <= i <= outcomes.len()
{
    if i >= outcomes.len() || i * interval >= timeout {
        None
    } else if outcomes[i] {
        Some(i)
    } else {
        poll_run(outcomes, timeout, interval, i + 1)
    }
}

/// Runs the bounded poll against a recorded schedule of probe outcomes:
/// attempt `k` observes `outcomes[k]`. Success comes at the first attempt
/// that observes the condition inside the window; otherwise the poll times
/// out, named after the awaited operation.
pub fn run_poll(outcomes: &Vec<bool>, timeout_ms: u64, interval_ms: u64, op: &str) -> (r: Result<
    u64,
    HarnessError,
>)
    requires
        1 <= interval_ms <= 0x7fffffffffffffff,
        timeout_ms <= 0x7fffffffffffffff,
        outcomes@.len() * interval_ms >= timeout_ms,
    ensures
        r matches Ok(i) ==> poll_run(outcomes@, timeout_ms as int, interval_ms as int, 0)
            == Some(i as int),
        r matches Err(e) ==> e is TimedOut
            && poll_run(outcomes@, timeout_ms as int, interval_ms as int, 0) is None,
{
    let ghost t = timeout_ms as int;
    let ghost iv = interval_ms as int;
    let n = outcomes.len();
    let mut i: usize = 0;
    let mut elapsed: u64 = 0;
    while elapsed < timeout_ms
        invariant
            t == timeout_ms as int,
            iv == interval_ms as int,
            n == outcomes@.len(),
            elapsed == i * interval_ms,
            1 <= interval_ms <= 0x7fffffffffffffff,
            timeout_ms <= 0x7fffffffffffffff,
            outcomes@.len() * interval_ms >= timeout_ms,
            i <= n,
            poll_run(outcomes@, t, iv, 0) == poll_run(outcomes@, t, iv, i as int),
        decreases n - i,
    {
        proof {
            assert((i as int) < outcomes@.len()) by (nonlinear_arith)
                requires
                    (i as int) * iv < t,
                    outcomes@.len() * iv >= t,
                    iv >= 1,
            ;
        }
        if outcomes[i] {
            return Ok(i as u64);
        }
        proof {
            assert((i + 1) * iv == i * iv + iv) by (nonlinear_arith);
        }
        i = i + 1;
        elapsed = elapsed + interval_ms;
    }
    Err(HarnessError::TimedOut(op.to_owned()))
}

/// Whenever some probe inside the window would observe the condition, the
/// poll succeeds, and it does so at an attempt that starts strictly before
/// the requested timeout.
pub proof fn lemma_poll_success(outcomes: Seq<bool>, timeout: int, interval: int, w: int)
    requires
        interval >= 1,
        0 <= w < outcomes.len(),
        outcomes[w],
        w * interval < timeout,
    ensures
        poll_run(outcomes, timeout, interval, 0) matches Some(j) && 0 <= j <= w
            && outcomes[j] && j * interval < timeout,
{
    lemma_poll_success_from(outcomes, timeout, interval, 0, w);
}

/// The successful attempt, counted from any starting point at or before the
/// witness.
proof fn lemma_poll_success_from(outcomes: Seq<bool>, timeout: int, interval: int, i: int, w: int)
    requires
        interval >= 1,
        0 <= i <= w < outcomes.len(),
        outcomes[w],
        w * interval < timeout,
    ensures
        poll_run(outcomes, timeout, interval, i) matches Some(j) && i <= j <= w
            && outcomes[j] && j * interval < timeout,
    decreases w - i,
{
    assert(i * interval <= w * interval) by (nonlinear_arith)
        requires i <= w && interval >= 1;
    if !outcomes[i] {
        lemma_poll_success_from(outcomes, timeout, interval, i + 1, w);
    }
}

/// When no probe inside the window observes the condition, the poll times
/// out.
pub proof fn lemma_poll_timeout(outcomes: Seq<bool>, timeout: int, interval: int)
    requires
        interval >= 1,
        forall|k: int| 0 <= k < outcomes.len() && k * interval < timeout
            ==> !outcomes[k],
    ensures
        poll_run(outcomes, timeout, interval, 0) is None,
{
    lemma_poll_timeout_from(outcomes, timeout, interval, 0);
}

proof fn lemma_poll_timeout_from(outcomes: Seq<bool>, timeout: int, interval: int, i: int)
    requires
        interval >= 1,
        0 <= i <= outcomes.len(),
        forall|k: int| 0 <= k < outcomes.len() && k * interval < timeout
            ==> !outcomes[k],
    ensures
        poll_run(outcomes, timeout, interval, i) is None,
    decreases outcomes.len() - i,
{
    if i < outcomes.len() && i * interval < timeout {
        lemma_poll_timeout_from(outcomes, timeout, interval, i + 1);
    }
}

} // verus!
