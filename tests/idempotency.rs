use zero2prod::key::{IdempotencyKey, KeyError};
use zero2prod::publish::{publish_newsletter, FormData, PublishFailure};
use zero2prod::response::see_other;
use zero2prod::store::{NextAction, ProcessingError, SaveError, Store};
use zero2prod::worker::{SendOutcome, WorkerPolicy, WorkerStep};

fn form(key: &str) -> FormData {
    FormData {
        title: "T".to_string(),
        text_content: "t".to_string(),
        html_content: "<p>t</p>".to_string(),
        idempotency_key: key.to_string(),
    }
}

fn recipients() -> Vec<String> {
    vec![
        "a@example.com".to_string(),
        "b@example.com".to_string(),
        "c@example.com".to_string(),
    ]
}

#[test]
fn empty_key_is_rejected() {
    assert_eq!(IdempotencyKey::parse(String::new()).err(), Some(KeyError::Empty));
}

#[test]
fn key_longer_than_fifty_characters_is_rejected() {
    let raw = "k".repeat(51);
    assert_eq!(IdempotencyKey::parse(raw).err(), Some(KeyError::TooLong));
}

#[test]
fn key_of_fifty_characters_is_accepted() {
    let raw = "é".repeat(50);
    let key = IdempotencyKey::parse(raw.clone()).unwrap();
    assert_eq!(key.as_str(), raw);
}

#[test]
fn keys_compare_by_value() {
    let a = IdempotencyKey::parse("abc-123".to_string()).unwrap();
    let b = IdempotencyKey::parse("abc-123".to_string()).unwrap();
    let c = IdempotencyKey::parse("abc-124".to_string()).unwrap();
    assert!(a == b);
    assert!(a != c);
    assert!(a.clone() == a);
}

#[test]
fn publishing_twice_gives_the_same_response_and_one_issue() {
    let mut store = Store::new();
    let first = publish_newsletter(&mut store, 1, form("abc-123"), &recipients(), 100).unwrap();
    let second = publish_newsletter(&mut store, 1, form("abc-123"), &recipients(), 200).unwrap();
    assert_eq!(first.status_code, 303);
    assert_eq!(first.status_code, second.status_code);
    assert_eq!(first.headers.len(), 1);
    assert_eq!(first.headers.len(), second.headers.len());
    assert_eq!(first.headers[0].name, "location");
    assert_eq!(first.headers[0].value, b"/admin/newsletters".to_vec());
    assert_eq!(first.headers[0].name, second.headers[0].name);
    assert_eq!(first.headers[0].value, second.headers[0].value);
    assert_eq!(first.body, second.body);
    assert_eq!(store.issues().len(), 1);
    assert_eq!(store.queue().len(), 3);
    assert_eq!(store.issues()[0].created_at, 100);
}

#[test]
fn distinct_recipients_get_one_row_each() {
    let mut store = Store::new();
    let mut rs = recipients();
    rs.push("a@example.com".to_string());
    rs.push("b@example.com".to_string());
    publish_newsletter(&mut store, 1, form("k"), &rs, 0).unwrap();
    let emails: Vec<&str> = store.queue().iter().map(|e| e.recipient_email.as_str()).collect();
    assert_eq!(emails, vec!["a@example.com", "b@example.com", "c@example.com"]);
    for e in store.queue() {
        assert_eq!(e.n_retries, 0);
        assert_eq!(e.execute_after, 0);
        assert!(!e.claimed);
        assert!(!e.dead);
        assert_eq!(e.issue_id, store.issues()[0].issue_id);
    }
}

#[test]
fn same_key_of_another_owner_is_processed_separately() {
    let mut store = Store::new();
    publish_newsletter(&mut store, 1, form("k"), &recipients(), 0).unwrap();
    publish_newsletter(&mut store, 2, form("k"), &recipients(), 0).unwrap();
    assert_eq!(store.issues().len(), 2);
    assert_eq!(store.queue().len(), 6);
    assert_ne!(store.issues()[0].issue_id, store.issues()[1].issue_id);
}

#[test]
fn invalid_key_publishes_nothing() {
    let mut store = Store::new();
    let r = publish_newsletter(&mut store, 1, form(""), &recipients(), 0);
    assert_eq!(r.err(), Some(PublishFailure::InvalidKey(KeyError::Empty)));
    assert_eq!(PublishFailure::InvalidKey(KeyError::Empty).status_code(), 400);
    assert_eq!(store.issues().len(), 0);
    assert_eq!(store.queue().len(), 0);
}

#[test]
fn request_racing_one_in_flight_gets_a_conflict() {
    let mut store = Store::new();
    let key = IdempotencyKey::parse("abc-123".to_string()).unwrap();
    let txn = match store.try_processing(&key, 1).unwrap() {
        NextAction::StartProcessing(t) => t,
        NextAction::ReturnSavedResponse(_) => panic!("expected to start processing"),
    };
    assert!(matches!(store.try_processing(&key, 1), Err(ProcessingError::Conflict)));
    let r = publish_newsletter(&mut store, 1, form("abc-123"), &recipients(), 0);
    assert_eq!(r.err(), Some(PublishFailure::Conflict));
    assert_eq!(PublishFailure::Conflict.status_code(), 409);
    assert_eq!(store.issues().len(), 0);
    store.rollback(txn);
}

#[test]
fn two_simultaneous_publishes_create_one_issue_and_deliver_three_emails() {
    let mut store = Store::new();
    let key = IdempotencyKey::parse("abc-123".to_string()).unwrap();
    // The first caller wins the race and opens its transaction.
    let mut txn = match store.try_processing(&key, 1).unwrap() {
        NextAction::StartProcessing(t) => t,
        NextAction::ReturnSavedResponse(_) => panic!("expected to start processing"),
    };
    // The second caller arrives mid-flight and is told to retry.
    let racing = publish_newsletter(&mut store, 1, form("abc-123"), &recipients(), 0);
    assert_eq!(racing.err(), Some(PublishFailure::Conflict));
    store.enqueue_issue(&mut txn, "T", "t", "<p>t</p>", &recipients(), 0);
    assert_eq!(store.queue().len(), 0);
    let first = store.save_response(txn, &key, 1, see_other("/admin/newsletters")).unwrap();
    // Its retry observes completion and replays the same response.
    let second = publish_newsletter(&mut store, 1, form("abc-123"), &recipients(), 0).unwrap();
    assert_eq!(first.status_code, 303);
    assert_eq!(second.status_code, 303);
    assert_eq!(first.headers[0].value, second.headers[0].value);
    assert_eq!(store.issues().len(), 1);
    assert_eq!(store.queue().len(), 3);
    let saved = store.get_saved_response(&key, 1).unwrap();
    assert_eq!(saved.status_code, 303);
    // The worker runs to quiescence, every send succeeding.
    let policy = WorkerPolicy::default();
    let mut sends = 0;
    loop {
        match store.worker_step(0, false, &policy) {
            WorkerStep::Deliver(claim) => {
                sends += 1;
                store.resolve(&claim, SendOutcome::Delivered, 0, &policy).unwrap();
            }
            WorkerStep::Sleep(_) => break,
            WorkerStep::Stop => panic!("no shutdown was asked for"),
        }
    }
    assert_eq!(sends, 3);
    assert_eq!(store.queue().len(), 0);
}

#[test]
fn rolled_back_request_can_be_retried_from_scratch() {
    let mut store = Store::new();
    let key = IdempotencyKey::parse("retry".to_string()).unwrap();
    let mut txn = match store.try_processing(&key, 7).unwrap() {
        NextAction::StartProcessing(t) => t,
        NextAction::ReturnSavedResponse(_) => panic!("expected to start processing"),
    };
    assert_eq!(txn.owner_id(), 7);
    store.enqueue_issue(&mut txn, "T", "t", "<p>t</p>", &recipients(), 0);
    store.rollback(txn);
    assert_eq!(store.issues().len(), 0);
    assert_eq!(store.queue().len(), 0);
    assert!(store.get_saved_response(&key, 7).is_none());
    let r = publish_newsletter(&mut store, 7, form("retry"), &recipients(), 0).unwrap();
    assert_eq!(r.status_code, 303);
    assert_eq!(store.issues().len(), 1);
    assert_eq!(store.queue().len(), 3);
}

#[test]
fn saving_for_another_pair_fails_and_rolls_back() {
    let mut store = Store::new();
    let key = IdempotencyKey::parse("one".to_string()).unwrap();
    let other = IdempotencyKey::parse("two".to_string()).unwrap();
    let mut txn = match store.try_processing(&key, 1).unwrap() {
        NextAction::StartProcessing(t) => t,
        NextAction::ReturnSavedResponse(_) => panic!("expected to start processing"),
    };
    store.enqueue_issue(&mut txn, "T", "t", "<p>t</p>", &recipients(), 0);
    let r = store.save_response(txn, &other, 1, see_other("/x"));
    assert_eq!(r.err(), Some(SaveError::NoInProgressRecord));
    assert_eq!(store.issues().len(), 0);
    assert!(matches!(store.try_processing(&key, 1), Ok(NextAction::StartProcessing(_))));
}

#[test]
fn nothing_is_saved_before_completion() {
    let mut store = Store::new();
    let key = IdempotencyKey::parse("k".to_string()).unwrap();
    assert!(store.get_saved_response(&key, 1).is_none());
    let _txn = store.try_processing(&key, 1).unwrap();
    assert!(store.get_saved_response(&key, 1).is_none());
}

#[test]
fn see_other_redirects_with_an_empty_body() {
    let r = see_other("/login");
    assert_eq!(r.status_code, 303);
    assert_eq!(r.headers.len(), 1);
    assert_eq!(r.headers[0].name, "location");
    assert_eq!(r.headers[0].value, b"/login".to_vec());
    assert!(r.body.is_empty());
}
