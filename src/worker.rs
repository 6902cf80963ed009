use vstd::prelude::*;
use crate::store::{EntryModel, StoreModel};

verus! {

/// How the delivery worker retries: the retry ceiling, the first and the
/// largest backoff delay, and how long to sleep when nothing is eligible.
#[derive(Debug, Clone, Copy, PartialEq, Eq, Structural)]
pub struct WorkerPolicy {
    pub max_retries: u32,
    pub base_delay: u64,
    pub max_delay: u64,
    pub idle_delay: u64,
}

impl Default for WorkerPolicy {
    /// Five retries, delays from 1 s doubling up to 1 h, idle sleep of 10 s.
    fn default() -> (r: WorkerPolicy)
        ensures
            r == (WorkerPolicy { max_retries: 5, base_delay: 1, max_delay: 3600, idle_delay: 10 }),
    {
        WorkerPolicy { max_retries: 5, base_delay: 1, max_delay: 3600, idle_delay: 10 }
    }
}

/// What the email-sending collaborator reported for one attempt.
#[derive(Debug, Clone, Copy, PartialEq, Eq, Structural)]
pub enum SendOutcome {
    Delivered,
    TransientFailure,
    PermanentFailure,
}

/// How a claimed row was resolved.
#[derive(Debug, Clone, Copy, PartialEq, Eq, Structural)]
pub enum Resolution {
    /// Sent: the row is gone.
    Deleted,
    /// Released for another attempt, eligible again from the given time.
    Retry(u64),
    /// Excluded from further attempts.
    Dead,
}

/// Resolving found no claimed row for the claim.
#[derive(Debug, Clone, Copy, PartialEq, Eq, Structural)]
pub enum ResolveError {
    NotClaimed,
}

/// One claimed row: which issue goes to which recipient.
#[derive(Debug)]
pub struct Claim {
    pub issue_id: u64,
    pub recipient_email: String,
}

impl View for Claim {
    type V = (u64, Seq<char>);

    open spec fn view(&self) -> (u64, Seq<char>) {
        (self.issue_id, self.recipient_email@)
    }
}

/// What the worker loop does next.
#[derive(Debug)]
pub enum WorkerStep {
    /// Shutdown was asked for: claim nothing more.
    Stop,
    /// Nothing is eligible: sleep this long, then ask again.
    Sleep(u64),
    /// A row was claimed: send it, then resolve the claim.
    Deliver(Claim),
}

/// The delay before attempt number `attempts + 1`: `base`, doubling with
/// each further failure, never above `cap`.
pub open spec fn backoff_delay(base: u64, cap: u64, attempts: nat) -> u64
    decreases attempts,
{
    if attempts <= 1 {
        if base <= cap {
            base
        } else {
            cap
        }
    } else {
        let d = backoff_delay(base, cap, (attempts - 1) as nat);
        if 2 * d >= cap {
            cap
        } else {
            (2 * d) as u64
        }
    }
}

proof fn lemma_backoff_bounded(base: u64, cap: u64, attempts: nat)
    ensures
        backoff_delay(base, cap, attempts) <= cap,
    decreases attempts,
{
    if attempts > 1 {
        lemma_backoff_bounded(base, cap, (attempts - 1) as nat);
    }
}

/// The backoff delay after `attempts` failed attempts under `policy`.
pub fn backoff(policy: &WorkerPolicy, attempts: u32) -> (r: u64)
    ensures
        r == backoff_delay(policy.base_delay, policy.max_delay, attempts as nat),
        r <= policy.max_delay,
{
    let cap = policy.max_delay;
    let mut d: u64 = if policy.base_delay <= cap {
        policy.base_delay
    } else {
        cap
    };
    let mut k: u32 = 1;
    while k < attempts
        invariant
            1 <= k,
            k <= attempts || attempts <= 1,
            attempts <= 1 ==> k == 1,
            d == backoff_delay(policy.base_delay, cap, k as nat),
            d <= cap,
        decreases attempts - k,
    {
        proof {
            lemma_backoff_bounded(policy.base_delay, cap, k as nat);
        }
        d = if d >= cap - d {
            cap
        } else {
            2 * d
        };
        k = k + 1;
    }
    if attempts <= 1 {
        assert(backoff_delay(policy.base_delay, cap, attempts as nat) == backoff_delay(
            policy.base_delay,
            cap,
            1,
        ));
    }
    d
}

/// A row can be claimed at `now` when nobody holds it, it is not dead, and
/// its retry time has come.
pub open spec fn eligible(e: EntryModel, now: u64) -> bool {
    !e.claimed && !e.dead && e.execute_after <= now
}

/// `i` is the first row of `q` that can be claimed at `now`.
pub open spec fn first_eligible(q: Seq<EntryModel>, now: u64, i: int) -> bool {
    &&& 0 <= i < q.len()
    &&& eligible(q[i], now)
    &&& forall|j: int| 0 <= j < i ==> !eligible(#[trigger] q[j], now)
}

/// `i` is the first row of `q` that is held under the claim `c`.
pub open spec fn first_claimed(q: Seq<EntryModel>, c: (u64, Seq<char>), i: int) -> bool {
    &&& 0 <= i < q.len()
    &&& held_by(q[i], c)
    &&& forall|j: int| 0 <= j < i ==> !held_by(#[trigger] q[j], c)
}

/// Row `e` is held by a worker under claim `c`.
pub open spec fn held_by(e: EntryModel, c: (u64, Seq<char>)) -> bool {
    e.claimed && e.issue_id == c.0 && e.recipient_email == c.1
}

/// There is only one first eligible row.
pub proof fn lemma_first_eligible_unique(q: Seq<EntryModel>, now: u64, i: int, j: int)
    requires
        first_eligible(q, now, i),
        first_eligible(q, now, j),
    ensures
        i == j,
{
    if i < j {
        assert(!eligible(q[i], now));
    } else if j < i {
        assert(!eligible(q[j], now));
    }
}

/// There is only one first row held under a claim.
pub proof fn lemma_first_claimed_unique(q: Seq<EntryModel>, c: (u64, Seq<char>), i: int, j: int)
    requires
        first_claimed(q, c, i),
        first_claimed(q, c, j),
    ensures
        i == j,
{
    if i < j {
        assert(!held_by(q[i], c));
    } else if j < i {
        assert(!held_by(q[j], c));
    }
}

/// Claiming at `now`: the first eligible row is marked claimed and named;
/// with none eligible nothing changes.
pub open spec fn claim_model(m: StoreModel, now: u64) -> (StoreModel, Option<(u64, Seq<char>)>) {
    if exists|i: int| first_eligible(m.queue, now, i) {
        let i = choose|i: int| first_eligible(m.queue, now, i);
        let e = m.queue[i];
        (
            StoreModel { queue: m.queue.update(i, EntryModel { claimed: true, ..e }), ..m },
            Some((e.issue_id, e.recipient_email)),
        )
    } else {
        (m, None)
    }
}

/// `n + 1`, or `n` at the top of the range.
pub open spec fn saturating_inc(n: u32) -> u32 {
    if n == u32::MAX {
        n
    } else {
        (n + 1) as u32
    }
}

/// `a + b`, or the largest value where the sum does not fit.
pub open spec fn saturating_sum(a: u64, b: u64) -> u64 {
    if a + b > u64::MAX {
        u64::MAX
    } else {
        (a + b) as u64
    }
}

/// The row `e`, claimed and then resolved with `outcome` at `now`: with the
/// resolution, or `None` where the row is deleted.
pub open spec fn resolved_entry(
    e: EntryModel,
    outcome: SendOutcome,
    now: u64,
    policy: WorkerPolicy,
) -> (Option<EntryModel>, Resolution) {
    match outcome {
        SendOutcome::Delivered => (None, Resolution::Deleted),
        SendOutcome::PermanentFailure => (
            Some(EntryModel { claimed: false, dead: true, ..e }),
            Resolution::Dead,
        ),
        SendOutcome::TransientFailure => {
            let n = saturating_inc(e.n_retries);
            if n > policy.max_retries {
                (Some(EntryModel { claimed: false, dead: true, n_retries: n, ..e }), Resolution::Dead)
            } else {
                let after = saturating_sum(
                    now,
                    backoff_delay(policy.base_delay, policy.max_delay, n as nat),
                );
                (
                    Some(
                        EntryModel { claimed: false, n_retries: n, execute_after: after, ..e },
                    ),
                    Resolution::Retry(after),
                )
            }
        },
    }
}

/// Resolving claim `c`: its row is deleted, released for a retry, or marked
/// dead; no other row changes. Without a row held under `c` nothing changes.
pub open spec fn resolve_model(
    m: StoreModel,
    c: (u64, Seq<char>),
    outcome: SendOutcome,
    now: u64,
    policy: WorkerPolicy,
) -> (StoreModel, Option<Resolution>) {
    if exists|i: int| first_claimed(m.queue, c, i) {
        let i = choose|i: int| first_claimed(m.queue, c, i);
        let (row, res) = resolved_entry(m.queue[i], outcome, now, policy);
        match row {
            None => (StoreModel { queue: m.queue.remove(i), ..m }, Some(res)),
            Some(e) => (StoreModel { queue: m.queue.update(i, e), ..m }, Some(res)),
        }
    } else {
        (m, None)
    }
}

/// Releasing claim `c` without a result, as when its worker dies mid-attempt:
/// the row is unclaimed and otherwise unchanged.
pub open spec fn release_model(m: StoreModel, c: (u64, Seq<char>)) -> StoreModel {
    if exists|i: int| first_claimed(m.queue, c, i) {
        let i = choose|i: int| first_claimed(m.queue, c, i);
        StoreModel { queue: m.queue.update(i, EntryModel { claimed: false, ..m.queue[i] }), ..m }
    } else {
        m
    }
}

} // verus!
