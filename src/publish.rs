use vstd::prelude::*;
use crate::key::{valid_key, IdempotencyKey, KeyError};
use crate::response::{see_other, see_other_model, ResponseModel, SavedResponse};
use crate::store::{
    enqueue_txn_model, save_model, strings_view, try_processing_model, NextAction,
    NextActionModel, Store, StoreModel,
};

verus! {

/// A publish request from the admin form.
pub struct FormData {
    pub title: String,
    pub text_content: String,
    pub html_content: String,
    pub idempotency_key: String,
}

/// Why a publish request produced no response.
#[derive(Debug, Clone, Copy, PartialEq, Eq, Structural)]
pub enum PublishFailure {
    /// The idempotency key was refused; nothing was attempted.
    InvalidKey(KeyError),
    /// Another request with the same key is in flight; retry later.
    Conflict,
    /// The response could not be saved; nothing was committed.
    Inconsistent,
}

impl PublishFailure {
    /// The HTTP status to answer with: 400 for a bad key, 409 for a conflict,
    /// 500 otherwise.
    pub fn status_code(&self) -> (r: u16)
        ensures
            r == match self {
                PublishFailure::InvalidKey(_) => 400u16,
                PublishFailure::Conflict => 409u16,
                PublishFailure::Inconsistent => 500u16,
            },
    {
        match self {
            PublishFailure::InvalidKey(_) => 400,
            PublishFailure::Conflict => 409,
            PublishFailure::Inconsistent => 500,
        }
    }
}

/// Publishing: a bad key is refused; a key already completed replays its
/// response; one in flight is a conflict; otherwise, in one transaction, the
/// issue and one row per distinct recipient are written and the redirect to the
/// newsletters page is saved and committed.
pub open spec fn publish_model(
    m: StoreModel,
    owner_id: u128,
    title: Seq<char>,
    text_content: Seq<char>,
    html_content: Seq<char>,
    raw_key: Seq<char>,
    recipients: Seq<Seq<char>>,
    now: u64,
) -> (StoreModel, Result<ResponseModel, PublishFailure>) {
    if !valid_key(raw_key) {
        (
            m,
            Err(
                PublishFailure::InvalidKey(
                    if raw_key.len() == 0 {
                        KeyError::Empty
                    } else {
                        KeyError::TooLong
                    },
                ),
            ),
        )
    } else {
        let (m1, a) = try_processing_model(m, owner_id, raw_key);
        match a {
            NextActionModel::Conflict => (m1, Err(PublishFailure::Conflict)),
            NextActionModel::ReturnSaved(r) => (m1, Ok(r)),
            NextActionModel::Start(t) => {
                let id = m1.next_issue_id;
                let m2 = StoreModel { next_issue_id: (id + 1) as u64, ..m1 };
                let t2 = enqueue_txn_model(t, id, title, text_content, html_content, recipients, now);
                let (m3, r) = save_model(
                    m2,
                    t2,
                    owner_id,
                    raw_key,
                    see_other_model("/admin/newsletters"@),
                );
                (
                    m3,
                    match r {
                        Some(x) => Ok(x),
                        None => Err(PublishFailure::Inconsistent),
                    },
                )
            },
        }
    }
}

/// Handles one publish request of `owner_id` against `store`, with the
/// confirmed `recipients` of the moment and the time `now`.
pub fn publish_newsletter(
    store: &mut Store,
    owner_id: u128,
    form: FormData,
    recipients: &Vec<String>,
    now: u64,
) -> (r: Result<SavedResponse, PublishFailure>)
    requires
        old(store).wf(),
        old(store)@.next_issue_id < u64::MAX,
    ensures
        final(store).wf(),
        (final(store)@, match r {
            Ok(s) => Ok(s@),
            Err(e) => Err(e),
        }) == publish_model(
            old(store)@,
            owner_id,
            form.title@,
            form.text_content@,
            form.html_content@,
            form.idempotency_key@,
            strings_view(recipients@),
            now,
        ),
{
    let FormData { title, text_content, html_content, idempotency_key } = form;
    let key = match IdempotencyKey::parse(idempotency_key) {
        Ok(k) => k,
        Err(e) => return Err(PublishFailure::InvalidKey(e)),
    };
    let mut txn = match store.try_processing(&key, owner_id) {
        Err(_) => return Err(PublishFailure::Conflict),
        Ok(NextAction::ReturnSavedResponse(saved)) => return Ok(saved),
        Ok(NextAction::StartProcessing(t)) => t,
    };
    store.enqueue_issue(
        &mut txn,
        title.as_str(),
        text_content.as_str(),
        html_content.as_str(),
        recipients,
        now,
    );
    let response = see_other("/admin/newsletters");
    match store.save_response(txn, &key, owner_id, response) {
        Ok(saved) => Ok(saved),
        Err(_) => Err(PublishFailure::Inconsistent),
    }
}

} // verus!
