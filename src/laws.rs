use vstd::prelude::*;
use crate::key::valid_key;
use crate::publish::{publish_model, PublishFailure};
use crate::response::ResponseModel;
use crate::store::{
    distinct, enqueue_txn_model, holds_in_progress, new_entry, rollback_model, save_model,
    try_processing_model, EntryModel, NextActionModel, StoreModel, TxnModel,
};
use crate::worker::{
    claim_model, eligible, first_claimed, first_eligible, lemma_first_claimed_unique,
    release_model, resolve_model, Resolution, SendOutcome, WorkerPolicy,
};

verus! {

/// Sending the same request twice in a row yields the same result twice, and
/// the second call changes nothing: the outbox holds one issue and one row per
/// distinct recipient, not two. (A pair that is in flight is a conflict both
/// times instead, which the conflict law covers.)
pub proof fn lemma_publish_idempotent(
    m: StoreModel,
    owner_id: u128,
    title: Seq<char>,
    text_content: Seq<char>,
    html_content: Seq<char>,
    key: Seq<char>,
    recipients: Seq<Seq<char>>,
    now1: u64,
    now2: u64,
)
    requires
        !(m.records.contains_key((owner_id, key)) && m.records[(owner_id, key)] is InProgress),
    ensures
        ({
            let (m1, r1) = publish_model(
                m,
                owner_id,
                title,
                text_content,
                html_content,
                key,
                recipients,
                now1,
            );
            let (m2, r2) = publish_model(
                m1,
                owner_id,
                title,
                text_content,
                html_content,
                key,
                recipients,
                now2,
            );
            &&& r2 == r1
            &&& m2 == m1
            &&& (valid_key(key) && !m.records.contains_key((owner_id, key))) ==> {
                &&& m1.issues.len() == m.issues.len() + 1
                &&& m1.queue == m.queue + distinct(recipients).map_values(
                    |e: Seq<char>| new_entry(m.next_issue_id, e),
                )
            }
        }),
{
}

/// Once a request has started processing a pair, any other attempt on that
/// pair is a conflict and changes nothing, until the first one commits or
/// rolls back: at most one transaction per pair ever starts.
pub proof fn lemma_single_winner(m: StoreModel, owner_id: u128, key: Seq<char>)
    ensures
        ({
            let (m1, a1) = try_processing_model(m, owner_id, key);
            a1 is Start ==> try_processing_model(m1, owner_id, key) == (
                m1,
                NextActionModel::Conflict,
            )
        }),
{
}

/// A publish request that races one in flight for the same pair is refused
/// with a conflict and writes nothing: no second issue can appear.
pub proof fn lemma_racing_publish_conflicts(
    m: StoreModel,
    owner_id: u128,
    title: Seq<char>,
    text_content: Seq<char>,
    html_content: Seq<char>,
    key: Seq<char>,
    recipients: Seq<Seq<char>>,
    now: u64,
)
    requires
        valid_key(key),
        m.records.contains_key((owner_id, key)),
        m.records[(owner_id, key)] is InProgress,
    ensures
        publish_model(m, owner_id, title, text_content, html_content, key, recipients, now) == (
            m,
            Err::<ResponseModel, PublishFailure>(PublishFailure::Conflict),
        ),
{
}

/// After the winner saves its response and commits, every later attempt on
/// the pair replays exactly that response and changes nothing.
pub proof fn lemma_commit_then_replay(m: StoreModel, t: TxnModel, resp: ResponseModel)
    requires
        holds_in_progress(m, t),
    ensures
        ({
            let (m1, r) = save_model(m, t, t.owner_id, t.key, resp);
            &&& r == Some(resp)
            &&& try_processing_model(m1, t.owner_id, t.key) == (
                m1,
                NextActionModel::ReturnSaved(resp),
            )
        }),
{
}

/// A transaction abandoned before its response is saved leaves no trace in
/// records, issues or queue, and the next attempt with the same key starts
/// afresh, as a first attempt would.
pub proof fn lemma_rollback_retryable(
    m: StoreModel,
    owner_id: u128,
    key: Seq<char>,
    title: Seq<char>,
    text_content: Seq<char>,
    html_content: Seq<char>,
    recipients: Seq<Seq<char>>,
    now: u64,
)
    requires
        !m.records.contains_key((owner_id, key)),
    ensures
        ({
            let (m1, a) = try_processing_model(m, owner_id, key);
            match a {
                NextActionModel::Start(t) => {
                    let id = m1.next_issue_id;
                    let m2 = StoreModel { next_issue_id: (id + 1) as u64, ..m1 };
                    let t2 = enqueue_txn_model(
                        t,
                        id,
                        title,
                        text_content,
                        html_content,
                        recipients,
                        now,
                    );
                    let m3 = rollback_model(m2, t2);
                    &&& m3.records == m.records
                    &&& m3.issues == m.issues
                    &&& m3.queue == m.queue
                    &&& try_processing_model(m3, owner_id, key).1 is Start
                },
                _ => false,
            }
        }),
{
    let (m1, a) = try_processing_model(m, owner_id, key);
    assert(m1.records.remove((owner_id, key)) =~= m.records);
}

/// Resolving one claimed row, whatever the outcome, leaves every other row as
/// it was, so one recipient's failures never hold back another's delivery.
pub proof fn lemma_resolve_isolated(
    m: StoreModel,
    c: (u64, Seq<char>),
    outcome: SendOutcome,
    now: u64,
    policy: WorkerPolicy,
    i: int,
)
    requires
        first_claimed(m.queue, c, i),
    ensures
        ({
            let (m1, r) = resolve_model(m, c, outcome, now, policy);
            &&& r is Some
            &&& m1.records == m.records
            &&& m1.issues == m.issues
            &&& outcome == SendOutcome::Delivered ==> m1.queue == m.queue.remove(i)
            &&& outcome != SendOutcome::Delivered ==> m1.queue.len() == m.queue.len()
                && m1.queue.remove(i) == m.queue.remove(i)
        }),
{
    let k = choose|k: int| first_claimed(m.queue, c, k);
    lemma_first_claimed_unique(m.queue, c, k, i);
    let (m1, r) = resolve_model(m, c, outcome, now, policy);
    if outcome != SendOutcome::Delivered {
        assert(m1.queue.remove(i) =~= m.queue.remove(i));
    }
}

/// A row that fails permanently is marked dead at once; one that fails
/// transiently is retried until its retries exceed the ceiling, and is then
/// marked dead. A dead row is never claimed again.
pub proof fn lemma_failures_end_dead(
    m: StoreModel,
    c: (u64, Seq<char>),
    now: u64,
    policy: WorkerPolicy,
    i: int,
)
    requires
        first_claimed(m.queue, c, i),
        policy.max_retries < u32::MAX,
    ensures
        resolve_model(m, c, SendOutcome::PermanentFailure, now, policy).0.queue[i].dead,
        m.queue[i].n_retries >= policy.max_retries ==> resolve_model(
            m,
            c,
            SendOutcome::TransientFailure,
            now,
            policy,
        ).1 == Some(Resolution::Dead),
        m.queue[i].n_retries < policy.max_retries ==> resolve_model(
            m,
            c,
            SendOutcome::TransientFailure,
            now,
            policy,
        ).1 is Some && !(resolve_model(m, c, SendOutcome::TransientFailure, now, policy).1
            == Some(Resolution::Dead)),
        forall|e: EntryModel, t: u64| e.dead ==> !eligible(e, t),
{
    let k = choose|k: int| first_claimed(m.queue, c, k);
    lemma_first_claimed_unique(m.queue, c, k, i);
}

/// Rows leave the queue only through a successful send: starting, committing
/// and rolling back requests never remove a row, and claiming, releasing, and
/// resolving with a failure keep every row, with its issue and recipient, in
/// its place.
pub proof fn lemma_rows_never_lost(
    m: StoreModel,
    t: TxnModel,
    owner_id: u128,
    key: Seq<char>,
    resp: ResponseModel,
    c: (u64, Seq<char>),
    outcome: SendOutcome,
    now: u64,
    policy: WorkerPolicy,
)
    requires
        outcome != SendOutcome::Delivered,
    ensures
        try_processing_model(m, owner_id, key).0.queue == m.queue,
        rollback_model(m, t).queue == m.queue,
        save_model(m, t, owner_id, key, resp).0.queue.take(m.queue.len() as int) == m.queue,
        ({
            let q1 = claim_model(m, now).0.queue;
            let q2 = release_model(m, c).queue;
            let q3 = resolve_model(m, c, outcome, now, policy).0.queue;
            &&& q1.len() == m.queue.len()
            &&& q2.len() == m.queue.len()
            &&& q3.len() == m.queue.len()
            &&& forall|j: int|
                0 <= j < m.queue.len() ==> {
                    &&& (#[trigger] q1[j]).issue_id == m.queue[j].issue_id
                    &&& q1[j].recipient_email == m.queue[j].recipient_email
                    &&& (#[trigger] q2[j]).issue_id == m.queue[j].issue_id
                    &&& q2[j].recipient_email == m.queue[j].recipient_email
                    &&& (#[trigger] q3[j]).issue_id == m.queue[j].issue_id
                    &&& q3[j].recipient_email == m.queue[j].recipient_email
                }
        }),
{
    let (m1, r) = save_model(m, t, owner_id, key, resp);
    if r is Some {
        assert((m.queue + t.rows).take(m.queue.len() as int) =~= m.queue);
    } else {
        assert(m1.queue.take(m.queue.len() as int) =~= m.queue);
    }
}

proof fn lemma_first_eligible_exists(q: Seq<EntryModel>, now: u64, i: int)
    requires
        0 <= i < q.len(),
        eligible(q[i], now),
    ensures
        exists|k: int| first_eligible(q, now, k),
    decreases i,
{
    if exists|j: int| 0 <= j < i && eligible(q[j], now) {
        let j = choose|j: int| 0 <= j < i && eligible(q[j], now);
        lemma_first_eligible_exists(q, now, j);
    } else {
        assert(first_eligible(q, now, i));
    }
}

/// While any row is eligible, claiming takes one: the worker never stalls on
/// a queue that still has work, whatever happened to other rows.
pub proof fn lemma_eligible_row_gets_claimed(m: StoreModel, now: u64, i: int)
    requires
        0 <= i < m.queue.len(),
        eligible(m.queue[i], now),
    ensures
        claim_model(m, now).1 is Some,
{
    lemma_first_eligible_exists(m.queue, now, i);
}

/// A worker that dies right after claiming a row leaves it reclaimable: once
/// the claim is released, the next claim at the same time takes the same row.
/// (Stated for a queue where no attempt is in flight.)
pub proof fn lemma_released_row_reclaimable(m: StoreModel, now: u64)
    requires
        forall|j: int| 0 <= j < m.queue.len() ==> !(#[trigger] m.queue[j]).claimed,
    ensures
        ({
            let (m1, c) = claim_model(m, now);
            c matches Some(cl) ==> {
                let m2 = release_model(m1, cl);
                &&& m2 == m
                &&& claim_model(m2, now).1 == c
            }
        }),
{
    let (m1, c) = claim_model(m, now);
    if c is Some {
        let i = choose|i: int| first_eligible(m.queue, now, i);
        let cl = c.unwrap();
        assert(first_claimed(m1.queue, cl, i));
        let k = choose|k: int| first_claimed(m1.queue, cl, k);
        lemma_first_claimed_unique(m1.queue, cl, k, i);
        assert(release_model(m1, cl).queue =~= m.queue);
    }
}

} // verus!
