use zero2prod::publish::{publish_newsletter, FormData};
use zero2prod::store::Store;
use zero2prod::worker::{backoff, Resolution, ResolveError, SendOutcome, WorkerPolicy, WorkerStep};

fn form(key: &str) -> FormData {
    FormData {
        title: "T".to_string(),
        text_content: "t".to_string(),
        html_content: "<p>t</p>".to_string(),
        idempotency_key: key.to_string(),
    }
}

fn store_with(recipients: &[&str]) -> Store {
    let mut store = Store::new();
    let rs: Vec<String> = recipients.iter().map(|s| s.to_string()).collect();
    publish_newsletter(&mut store, 1, form("k"), &rs, 0).unwrap();
    store
}

/// Runs the worker until it would sleep, sending with `send`; returns the sends made.
fn run_to_quiescence(
    store: &mut Store,
    now: u64,
    policy: &WorkerPolicy,
    send: &dyn Fn(&str) -> SendOutcome,
) -> Vec<String> {
    let mut sent = Vec::new();
    loop {
        match store.worker_step(now, false, policy) {
            WorkerStep::Deliver(claim) => {
                let issue = store.find_issue(claim.issue_id).expect("issue of a queued row");
                assert_eq!(issue.title, "T");
                sent.push(claim.recipient_email.clone());
                let outcome = send(&claim.recipient_email);
                store.resolve(&claim, outcome, now, policy).unwrap();
            }
            WorkerStep::Sleep(d) => {
                assert_eq!(d, policy.idle_delay);
                return sent;
            }
            WorkerStep::Stop => panic!("no shutdown was asked for"),
        }
    }
}

#[test]
fn worker_drains_the_queue_with_one_send_per_recipient() {
    let mut store = store_with(&["a@x.com", "b@x.com", "c@x.com"]);
    let policy = WorkerPolicy::default();
    let sent = run_to_quiescence(&mut store, 0, &policy, &|_| SendOutcome::Delivered);
    assert_eq!(sent, vec!["a@x.com", "b@x.com", "c@x.com"]);
    assert_eq!(store.queue().len(), 0);
}

#[test]
fn one_permanently_failing_recipient_does_not_hold_back_the_others() {
    let recipients: Vec<String> = (0..10).map(|i| format!("r{}@x.com", i)).collect();
    let refs: Vec<&str> = recipients.iter().map(|s| s.as_str()).collect();
    let mut store = store_with(&refs);
    assert_eq!(store.queue().len(), 10);
    let policy = WorkerPolicy::default();
    let sent = run_to_quiescence(&mut store, 0, &policy, &|r| {
        if r == "r4@x.com" {
            SendOutcome::PermanentFailure
        } else {
            SendOutcome::Delivered
        }
    });
    assert_eq!(sent.len(), 10);
    assert_eq!(store.queue().len(), 1);
    assert_eq!(store.queue()[0].recipient_email, "r4@x.com");
    assert!(store.queue()[0].dead);
    assert_eq!(store.queue()[0].n_retries, 0);
}

#[test]
fn transient_failures_back_off_and_end_dead_past_the_ceiling() {
    let mut store = store_with(&["a@x.com", "b@x.com"]);
    let policy = WorkerPolicy { max_retries: 3, base_delay: 10, max_delay: 25, idle_delay: 5 };
    let mut now: u64 = 0;
    let mut resolutions = Vec::new();
    loop {
        match store.worker_step(now, false, &policy) {
            WorkerStep::Deliver(claim) => {
                let outcome = if claim.recipient_email == "a@x.com" {
                    SendOutcome::TransientFailure
                } else {
                    SendOutcome::Delivered
                };
                resolutions.push(store.resolve(&claim, outcome, now, &policy).unwrap());
            }
            WorkerStep::Sleep(_) => {
                if store.queue().iter().all(|e| e.dead) {
                    break;
                }
                now += 100;
            }
            WorkerStep::Stop => panic!("no shutdown was asked for"),
        }
    }
    assert_eq!(
        resolutions,
        vec![
            Resolution::Retry(10),
            Resolution::Deleted,
            Resolution::Retry(120),
            Resolution::Retry(225),
            Resolution::Dead,
        ]
    );
    assert_eq!(store.queue().len(), 1);
    assert!(store.queue()[0].dead);
    assert_eq!(store.queue()[0].n_retries, 4);
}

#[test]
fn row_waits_for_its_retry_time() {
    let mut store = store_with(&["a@x.com"]);
    let policy = WorkerPolicy::default();
    let claim = store.claim_next(50).unwrap();
    assert_eq!(store.resolve(&claim, SendOutcome::TransientFailure, 50, &policy), Ok(Resolution::Retry(51)));
    assert!(store.claim_next(50).is_none());
    assert!(store.claim_next(51).is_some());
}

#[test]
fn claimed_row_is_not_claimed_twice() {
    let mut store = store_with(&["a@x.com", "b@x.com"]);
    let first = store.claim_next(0).unwrap();
    let second = store.claim_next(0).unwrap();
    assert_eq!(first.recipient_email, "a@x.com");
    assert_eq!(second.recipient_email, "b@x.com");
    assert!(store.claim_next(0).is_none());
    assert!(store.queue()[0].claimed);
}

#[test]
fn row_of_a_crashed_worker_can_be_reclaimed() {
    let mut store = store_with(&["a@x.com"]);
    let claim = store.claim_next(0).unwrap();
    assert!(store.claim_next(0).is_none());
    assert!(store.release_claim(&claim));
    assert_eq!(store.queue().len(), 1);
    let again = store.claim_next(0).unwrap();
    assert_eq!(again.recipient_email, claim.recipient_email);
    assert_eq!(again.issue_id, claim.issue_id);
}

#[test]
fn resolving_an_unclaimed_row_is_refused() {
    let mut store = store_with(&["a@x.com"]);
    let policy = WorkerPolicy::default();
    let claim = store.claim_next(0).unwrap();
    assert!(store.release_claim(&claim));
    assert!(!store.release_claim(&claim));
    assert_eq!(store.resolve(&claim, SendOutcome::Delivered, 0, &policy), Err(ResolveError::NotClaimed));
    assert_eq!(store.queue().len(), 1);
}

#[test]
fn shutdown_stops_claiming() {
    let mut store = store_with(&["a@x.com"]);
    let policy = WorkerPolicy::default();
    assert!(matches!(store.worker_step(0, true, &policy), WorkerStep::Stop));
    assert!(!store.queue()[0].claimed);
}

#[test]
fn empty_queue_means_sleep() {
    let mut store = Store::new();
    let policy = WorkerPolicy::default();
    assert!(matches!(store.worker_step(0, false, &policy), WorkerStep::Sleep(10)));
}

#[test]
fn backoff_doubles_up_to_the_cap() {
    let policy = WorkerPolicy { max_retries: 5, base_delay: 3, max_delay: 20, idle_delay: 1 };
    assert_eq!(backoff(&policy, 0), 3);
    assert_eq!(backoff(&policy, 1), 3);
    assert_eq!(backoff(&policy, 2), 6);
    assert_eq!(backoff(&policy, 3), 12);
    assert_eq!(backoff(&policy, 4), 20);
    assert_eq!(backoff(&policy, 40), 20);
    let big = WorkerPolicy { max_retries: 5, base_delay: u64::MAX / 2 + 1, max_delay: u64::MAX, idle_delay: 1 };
    assert_eq!(backoff(&big, 2), u64::MAX);
}

#[test]
fn default_policy_values() {
    let p = WorkerPolicy::default();
    assert_eq!(p, WorkerPolicy { max_retries: 5, base_delay: 1, max_delay: 3600, idle_delay: 10 });
}

#[test]
fn retry_time_saturates() {
    let mut store = store_with(&["a@x.com"]);
    let policy = WorkerPolicy::default();
    let claim = store.claim_next(0).unwrap();
    store.release_claim(&claim);
    let claim = store.claim_next(u64::MAX).unwrap();
    assert_eq!(store.resolve(&claim, SendOutcome::TransientFailure, u64::MAX, &policy), Ok(Resolution::Retry(u64::MAX)));
}
