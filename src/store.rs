use vstd::prelude::*;
use crate::key::IdempotencyKey;
use crate::response::{ResponseModel, SavedResponse};
use crate::worker::{
    backoff, claim_model, eligible, first_claimed, first_eligible, held_by,
    lemma_first_claimed_unique, lemma_first_eligible_unique, release_model, resolve_model,
    resolved_entry, Claim, Resolution, ResolveError, SendOutcome, WorkerPolicy, WorkerStep,
};

verus! {

/// The life cycle of one (owner, key) pair, as the store records it.
pub enum RecordModel {
    InProgress,
    Completed(ResponseModel),
}

/// A newsletter issue as stored.
pub struct IssueModel {
    pub issue_id: u64,
    pub title: Seq<char>,
    pub text_content: Seq<char>,
    pub html_content: Seq<char>,
    pub created_at: u64,
}

/// One unit of delivery work as stored.
pub struct EntryModel {
    pub issue_id: u64,
    pub recipient_email: Seq<char>,
    pub n_retries: u32,
    pub execute_after: u64,
    pub claimed: bool,
    pub dead: bool,
}

/// The whole durable store: processing records keyed by (owner, key), the
/// newsletter issues, the delivery queue, and the next issue id to hand out.
pub struct StoreModel {
    pub records: Map<(u128, Seq<char>), RecordModel>,
    pub issues: Seq<IssueModel>,
    pub queue: Seq<EntryModel>,
    pub next_issue_id: u64,
}

/// An open transaction: the pair it processes and the writes it holds back
/// until commit.
pub struct TxnModel {
    pub owner_id: u128,
    pub key: Seq<char>,
    pub issues: Seq<IssueModel>,
    pub rows: Seq<EntryModel>,
}

/// What a call to start processing leads to.
pub enum NextActionModel {
    Start(TxnModel),
    ReturnSaved(ResponseModel),
    Conflict,
}

/// Where processing of one (owner, key) pair stands.
pub enum RecordState {
    InProgress,
    Completed(SavedResponse),
}

impl View for RecordState {
    type V = RecordModel;

    open spec fn view(&self) -> RecordModel {
        match self {
            RecordState::InProgress => RecordModel::InProgress,
            RecordState::Completed(r) => RecordModel::Completed(r@),
        }
    }
}

/// The processing record of one (owner, key) pair.
pub struct ProcessingRecord {
    pub owner_id: u128,
    pub key: IdempotencyKey,
    pub state: RecordState,
}

/// The pair that a record is about.
pub open spec fn record_key(r: ProcessingRecord) -> (u128, Seq<char>) {
    (r.owner_id, r.key@)
}

/// A newsletter issue, created once per successful publish.
pub struct NewsletterIssue {
    pub issue_id: u64,
    pub title: String,
    pub text_content: String,
    pub html_content: String,
    pub created_at: u64,
}

impl View for NewsletterIssue {
    type V = IssueModel;

    open spec fn view(&self) -> IssueModel {
        IssueModel {
            issue_id: self.issue_id,
            title: self.title@,
            text_content: self.text_content@,
            html_content: self.html_content@,
            created_at: self.created_at,
        }
    }
}

/// One pending email: which issue goes to which recipient, how often it
/// failed, from when it may be tried again, and whether a worker holds it or
/// it was given up.
pub struct DeliveryEntry {
    pub issue_id: u64,
    pub recipient_email: String,
    pub n_retries: u32,
    pub execute_after: u64,
    pub claimed: bool,
    pub dead: bool,
}

impl View for DeliveryEntry {
    type V = EntryModel;

    open spec fn view(&self) -> EntryModel {
        EntryModel {
            issue_id: self.issue_id,
            recipient_email: self.recipient_email@,
            n_retries: self.n_retries,
            execute_after: self.execute_after,
            claimed: self.claimed,
            dead: self.dead,
        }
    }
}

/// The views of a sequence of issues.
pub open spec fn issues_view(s: Seq<NewsletterIssue>) -> Seq<IssueModel> {
    s.map_values(|i: NewsletterIssue| i@)
}

/// The views of a sequence of delivery rows.
pub open spec fn queue_view(s: Seq<DeliveryEntry>) -> Seq<EntryModel> {
    s.map_values(|e: DeliveryEntry| e@)
}

/// A transaction handed to the caller that won the race for a pair.
pub struct Transaction {
    owner_id: u128,
    key: IdempotencyKey,
    issues: Vec<NewsletterIssue>,
    rows: Vec<DeliveryEntry>,
}

impl View for Transaction {
    type V = TxnModel;

    closed spec fn view(&self) -> TxnModel {
        TxnModel {
            owner_id: self.owner_id,
            key: self.key@,
            issues: issues_view(self.issues@),
            rows: queue_view(self.rows@),
        }
    }
}

impl Transaction {
    /// The owner whose request this transaction processes.
    pub fn owner_id(&self) -> (r: u128)
        ensures
            r == self@.owner_id,
    {
        self.owner_id
    }
}

/// Either go on and process the request inside the transaction, or replay the
/// response saved by an earlier request with the same key.
pub enum NextAction {
    StartProcessing(Transaction),
    ReturnSavedResponse(SavedResponse),
}

/// Another request with the same key is being processed right now.
#[derive(Debug, Clone, Copy, PartialEq, Eq, Structural)]
pub enum ProcessingError {
    Conflict,
}

/// Saving a response found no in-progress record for the pair in the transaction.
#[derive(Debug, Clone, Copy, PartialEq, Eq, Structural)]
pub enum SaveError {
    NoInProgressRecord,
}

/// What a call to start processing returned, as a model.
pub open spec fn next_action_model(r: Result<NextAction, ProcessingError>) -> NextActionModel {
    match r {
        Ok(NextAction::StartProcessing(t)) => NextActionModel::Start(t@),
        Ok(NextAction::ReturnSavedResponse(s)) => NextActionModel::ReturnSaved(s@),
        Err(_) => NextActionModel::Conflict,
    }
}

/// Starting to process `(owner_id, key)`: a pair with no record gets an
/// in-progress record and a fresh transaction; a completed one replays its
/// response; one in progress is a conflict. Only the first changes the store.
pub open spec fn try_processing_model(m: StoreModel, owner_id: u128, key: Seq<char>) -> (
    StoreModel,
    NextActionModel,
) {
    let k = (owner_id, key);
    if !m.records.contains_key(k) {
        (
            StoreModel { records: m.records.insert(k, RecordModel::InProgress), ..m },
            NextActionModel::Start(
                TxnModel { owner_id, key, issues: Seq::empty(), rows: Seq::empty() },
            ),
        )
    } else {
        match m.records[k] {
            RecordModel::InProgress => (m, NextActionModel::Conflict),
            RecordModel::Completed(r) => (m, NextActionModel::ReturnSaved(r)),
        }
    }
}

/// Whether the pair of `t` is recorded as in progress in `m`.
pub open spec fn holds_in_progress(m: StoreModel, t: TxnModel) -> bool {
    m.records.contains_key((t.owner_id, t.key)) && m.records[(t.owner_id, t.key)]
        is InProgress
}

/// Abandoning `t`: its in-progress record goes away and none of its writes
/// become visible.
pub open spec fn rollback_model(m: StoreModel, t: TxnModel) -> StoreModel {
    if holds_in_progress(m, t) {
        StoreModel { records: m.records.remove((t.owner_id, t.key)), ..m }
    } else {
        m
    }
}

/// Saving `resp` for `(owner_id, key)` and committing `t`: where `t` processes
/// that pair and its record is in progress, the record is completed with
/// `resp` and the writes of `t` become visible at once; otherwise `t` is
/// rolled back and nothing is saved.
pub open spec fn save_model(
    m: StoreModel,
    t: TxnModel,
    owner_id: u128,
    key: Seq<char>,
    resp: ResponseModel,
) -> (StoreModel, Option<ResponseModel>) {
    if owner_id == t.owner_id && key == t.key && holds_in_progress(m, t) {
        (
            StoreModel {
                records: m.records.insert((owner_id, key), RecordModel::Completed(resp)),
                issues: m.issues + t.issues,
                queue: m.queue + t.rows,
                ..m
            },
            Some(resp),
        )
    } else {
        (rollback_model(m, t), None)
    }
}

/// The distinct values of `s`, each where it first occurs.
pub open spec fn distinct(s: Seq<Seq<char>>) -> Seq<Seq<char>>
    decreases s.len(),
{
    if s.len() == 0 {
        Seq::empty()
    } else {
        let prev = distinct(s.drop_last());
        if s.drop_last().contains(s.last()) {
            prev
        } else {
            prev.push(s.last())
        }
    }
}

/// A fresh delivery row: no retries yet, eligible at once, unclaimed, alive.
pub open spec fn new_entry(issue_id: u64, email: Seq<char>) -> EntryModel {
    EntryModel {
        issue_id,
        recipient_email: email,
        n_retries: 0,
        execute_after: 0,
        claimed: false,
        dead: false,
    }
}

/// The characters of each string.
pub open spec fn strings_view(s: Seq<String>) -> Seq<Seq<char>> {
    s.map_values(|e: String| e@)
}

/// The transaction after enqueueing an issue with id `issue_id`: it holds the
/// new issue and one fresh row per distinct recipient, in order of first
/// occurrence.
pub open spec fn enqueue_txn_model(
    t: TxnModel,
    issue_id: u64,
    title: Seq<char>,
    text_content: Seq<char>,
    html_content: Seq<char>,
    recipients: Seq<Seq<char>>,
    now: u64,
) -> TxnModel {
    TxnModel {
        issues: t.issues.push(
            IssueModel { issue_id, title, text_content, html_content, created_at: now },
        ),
        rows: t.rows + distinct(recipients).map_values(|e: Seq<char>| new_entry(issue_id, e)),
        ..t
    }
}

/// The durable store that all requests and workers share.
pub struct Store {
    records: Vec<ProcessingRecord>,
    record_map: Ghost<Map<(u128, Seq<char>), RecordModel>>,
    issues: Vec<NewsletterIssue>,
    queue: Vec<DeliveryEntry>,
    next_issue_id: u64,
}

impl View for Store {
    type V = StoreModel;

    closed spec fn view(&self) -> StoreModel {
        StoreModel {
            records: self.record_map@,
            issues: issues_view(self.issues@),
            queue: queue_view(self.queue@),
            next_issue_id: self.next_issue_id,
        }
    }
}

impl Store {
    /// The records vector and the record map agree, and no pair is recorded twice.
    pub closed spec fn wf(&self) -> bool {
        &&& forall|i: int|
            0 <= i < self.records@.len() ==> {
                &&& self.record_map@.contains_key(#[trigger] record_key(self.records@[i]))
                &&& self.record_map@[record_key(self.records@[i])] == self.records@[i].state@
            }
        &&& forall|k: (u128, Seq<char>)|
            #[trigger] self.record_map@.contains_key(k) ==> exists|i: int|
                0 <= i < self.records@.len() && record_key(self.records@[i]) == k
        &&& forall|i: int, j: int|
            0 <= i < j < self.records@.len() ==> record_key(self.records@[i]) != record_key(
                self.records@[j],
            )
    }

    /// An empty store.
    pub fn new() -> (r: Store)
        ensures
            r.wf(),
            r@.records == Map::<(u128, Seq<char>), RecordModel>::empty(),
            r@.issues == Seq::<IssueModel>::empty(),
            r@.queue == Seq::<EntryModel>::empty(),
            r@.next_issue_id == 0,
    {
        let r = Store {
            records: Vec::new(),
            record_map: Ghost(Map::empty()),
            issues: Vec::new(),
            queue: Vec::new(),
            next_issue_id: 0,
        };
        assert(r@.issues =~= Seq::<IssueModel>::empty());
        assert(r@.queue =~= Seq::<EntryModel>::empty());
        r
    }

    /// The position of the record for `(owner_id, key)`, if there is one.
    fn find_record(&self, owner_id: u128, key: &IdempotencyKey) -> (r: Option<usize>)
        requires
            self.wf(),
        ensures
            r matches Some(i) ==> i < self.records@.len() && record_key(self.records@[i as int])
                == (owner_id, key@),
            r is None ==> !self@.records.contains_key((owner_id, key@)),
    {
        let n = self.records.len();
        let mut i: usize = 0;
        while i < n
            invariant
                n == self.records@.len(),
                i <= n,
                forall|j: int| 0 <= j < i ==> record_key(#[trigger] self.records@[j]) != (
                    owner_id,
                    key@,
                ),
            decreases n - i,
        {
            let rec = &self.records[i];
            if rec.owner_id == owner_id && rec.key == *key {
                return Some(i);
            }
            i = i + 1;
        }
        None
    }

    /// The response saved for `(owner_id, key)`, if that pair has completed.
    pub fn get_saved_response(&self, key: &IdempotencyKey, owner_id: u128) -> (r: Option<
        SavedResponse,
    >)
        requires
            self.wf(),
        ensures
            r matches Some(s) ==> self@.records.contains_key((owner_id, key@))
                && self@.records[(owner_id, key@)] == RecordModel::Completed(s@),
            r is None ==> !(self@.records.contains_key((owner_id, key@)) && self@.records[(
                owner_id,
                key@,
            )] is Completed),
    {
        match self.find_record(owner_id, key) {
            None => None,
            Some(i) => match &self.records[i].state {
                RecordState::InProgress => None,
                RecordState::Completed(s) => Some(s.clone()),
            },
        }
    }

    /// Starts processing `(owner_id, key)` or tells the caller what to do instead.
    pub fn try_processing(&mut self, key: &IdempotencyKey, owner_id: u128) -> (r: Result<
        NextAction,
        ProcessingError,
    >)
        requires
            old(self).wf(),
        ensures
            final(self).wf(),
            (final(self)@, next_action_model(r)) == try_processing_model(
                old(self)@,
                owner_id,
                key@,
            ),
    {
        match self.find_record(owner_id, key) {
            None => {
                let rec = ProcessingRecord {
                    owner_id,
                    key: key.clone(),
                    state: RecordState::InProgress,
                };
                let ghost k = record_key(rec);
                let ghost old_records = self.records@;
                let ghost old_map = self.record_map@;
                self.records.push(rec);
                self.record_map = Ghost(self.record_map@.insert(k, RecordModel::InProgress));
                proof {
                    let n = old_records.len();
                    assert(record_key(self.records@[n as int]) == k);
                    assert forall|j: int| 0 <= j < n implies record_key(#[trigger] self.records@[j])
                        != k by {
                        assert(self.records@[j] == old_records[j]);
                        assert(old_map.contains_key(record_key(old_records[j])));
                    }
                    assert forall|c: (u128, Seq<char>)| #[trigger]
                        self.record_map@.contains_key(c) implies exists|j: int|
                        0 <= j < self.records@.len() && record_key(self.records@[j]) == c by {
                        if c != k {
                            assert(old_map.contains_key(c));
                            let j = choose|j: int| 0 <= j < n && record_key(old_records[j]) == c;
                            assert(self.records@[j] == old_records[j]);
                        }
                    }
                }
                let t = Transaction {
                    owner_id,
                    key: key.clone(),
                    issues: Vec::new(),
                    rows: Vec::new(),
                };
                assert(t@.issues =~= Seq::<IssueModel>::empty());
                assert(t@.rows =~= Seq::<EntryModel>::empty());
                Ok(NextAction::StartProcessing(t))
            },
            Some(i) => {
                proof {
                    assert(self.record_map@.contains_key(record_key(self.records@[i as int])));
                }
                match &self.records[i].state {
                    RecordState::InProgress => Err(ProcessingError::Conflict),
                    RecordState::Completed(s) => Ok(NextAction::ReturnSavedResponse(s.clone())),
                }
            },
        }
    }
    /// Removes the record at `i` and its entry in the record map.
    fn remove_record(&mut self, i: usize)
        requires
            old(self).wf(),
            i < old(self).records@.len(),
        ensures
            final(self).wf(),
            final(self)@ == (StoreModel {
                records: old(self)@.records.remove(record_key(old(self).records@[i as int])),
                ..old(self)@
            }),
    {
        let ghost old_records = self.records@;
        let ghost old_map = self.record_map@;
        let ghost k = record_key(old_records[i as int]);
        self.records.remove(i);
        self.record_map = Ghost(self.record_map@.remove(k));
        proof {
            assert forall|j: int| 0 <= j < self.records@.len() implies record_key(
                #[trigger] self.records@[j],
            ) != k by {
                if j < i {
                    assert(self.records@[j] == old_records[j]);
                } else {
                    assert(self.records@[j] == old_records[j + 1]);
                }
            }
            assert forall|c: (u128, Seq<char>)| #[trigger]
                self.record_map@.contains_key(c) implies exists|j: int|
                0 <= j < self.records@.len() && record_key(self.records@[j]) == c by {
                assert(old_map.contains_key(c));
                let j = choose|j: int|
                    0 <= j < old_records.len() && record_key(old_records[j]) == c;
                if j < i {
                    assert(self.records@[j] == old_records[j]);
                } else {
                    assert(j != i);
                    assert(self.records@[j - 1] == old_records[j]);
                }
            }
            assert forall|a: int, b: int|
                0 <= a < b < self.records@.len() implies record_key(self.records@[a])
                != record_key(self.records@[b]) by {
                let a0 = if a < i { a } else { a + 1 };
                let b0 = if b < i { b } else { b + 1 };
                assert(self.records@[a] == old_records[a0]);
                assert(self.records@[b] == old_records[b0]);
            }
        }
    }

    /// Abandons `txn`: its in-progress record is removed and its writes are
    /// dropped, so the pair can be processed again from the start.
    pub fn rollback(&mut self, txn: Transaction)
        requires
            old(self).wf(),
        ensures
            final(self).wf(),
            final(self)@ == rollback_model(old(self)@, txn@),
    {
        match self.find_record(txn.owner_id, &txn.key) {
            None => {},
            Some(i) => {
                proof {
                    assert(self.record_map@.contains_key(record_key(self.records@[i as int])));
                }
                let in_progress = match &self.records[i].state {
                    RecordState::InProgress => true,
                    RecordState::Completed(_) => false,
                };
                if in_progress {
                    self.remove_record(i);
                }
            },
        }
    }

    /// Saves `response` as the outcome of `(owner_id, key)` and commits `txn`,
    /// returning the saved response. Where `txn` does not process that pair or
    /// the pair is not in progress, `txn` is rolled back instead.
    pub fn save_response(
        &mut self,
        txn: Transaction,
        key: &IdempotencyKey,
        owner_id: u128,
        response: SavedResponse,
    ) -> (r: Result<SavedResponse, SaveError>)
        requires
            old(self).wf(),
        ensures
            final(self).wf(),
            (final(self)@, match r {
                Ok(s) => Some(s@),
                Err(_) => None,
            }) == save_model(old(self)@, txn@, owner_id, key@, response@),
    {
        if !(txn.owner_id == owner_id && txn.key == *key) {
            self.rollback(txn);
            return Err(SaveError::NoInProgressRecord);
        }
        match self.find_record(owner_id, key) {
            None => Err(SaveError::NoInProgressRecord),
            Some(i) => {
                proof {
                    assert(self.record_map@.contains_key(record_key(self.records@[i as int])));
                }
                let in_progress = match &self.records[i].state {
                    RecordState::InProgress => true,
                    RecordState::Completed(_) => false,
                };
                if !in_progress {
                    return Err(SaveError::NoInProgressRecord);
                }
                let saved = response.clone();
                let ghost old_records = self.records@;
                let ghost k = (owner_id, key@);
                let ghost old_issues = self.issues@;
                let ghost old_queue = self.queue@;
                let mut txn = txn;
                let ghost tv = txn@;
                let rec = ProcessingRecord {
                    owner_id,
                    key: key.clone(),
                    state: RecordState::Completed(response),
                };
                self.records.set(i, rec);
                self.record_map = Ghost(
                    self.record_map@.insert(k, RecordModel::Completed(saved@)),
                );
                self.issues.append(&mut txn.issues);
                self.queue.append(&mut txn.rows);
                proof {
                    assert forall|j: int| 0 <= j < self.records@.len() && j != i implies
                        record_key(#[trigger] self.records@[j]) != k by {
                        assert(self.records@[j] == old_records[j]);
                    }
                    assert forall|c: (u128, Seq<char>)| #[trigger]
                        self.record_map@.contains_key(c) implies exists|j: int|
                        0 <= j < self.records@.len() && record_key(self.records@[j]) == c by {
                        if c == k {
                            assert(record_key(self.records@[i as int]) == c);
                        } else {
                            let j = choose|j: int|
                                0 <= j < old_records.len() && record_key(old_records[j]) == c;
                            assert(self.records@[j] == old_records[j]);
                        }
                    }
                    assert forall|a: int, b: int|
                        0 <= a < b < self.records@.len() implies record_key(self.records@[a])
                        != record_key(self.records@[b]) by {
                        assert(record_key(self.records@[a]) == record_key(old_records[a]));
                        assert(record_key(self.records@[b]) == record_key(old_records[b]));
                    }
                    assert(issues_view(self.issues@) =~= issues_view(old_issues) + tv.issues);
                    assert(queue_view(self.queue@) =~= queue_view(old_queue) + tv.rows);
                }
                Ok(saved)
            },
        }
    }

    /// Writes a newsletter issue into `txn`, with one delivery row per distinct
    /// recipient, and returns the issue's id. Nothing is visible outside `txn`
    /// until it commits.
    pub fn enqueue_issue(
        &mut self,
        txn: &mut Transaction,
        title: &str,
        text_content: &str,
        html_content: &str,
        recipients: &Vec<String>,
        now: u64,
    ) -> (r: u64)
        requires
            old(self).wf(),
            old(self)@.next_issue_id < u64::MAX,
        ensures
            final(self).wf(),
            r == old(self)@.next_issue_id,
            final(self)@ == (StoreModel { next_issue_id: (r + 1) as u64, ..old(self)@ }),
            final(txn)@ == enqueue_txn_model(
                old(txn)@,
                r,
                title@,
                text_content@,
                html_content@,
                strings_view(recipients@),
                now,
            ),
    {
        let issue_id = self.next_issue_id;
        self.next_issue_id = self.next_issue_id + 1;
        let issue = NewsletterIssue {
            issue_id,
            title: String::from_str(title),
            text_content: String::from_str(text_content),
            html_content: String::from_str(html_content),
            created_at: now,
        };
        txn.issues.push(issue);
        proof {
            assert(issues_view(txn.issues@) =~= issues_view(old(txn).issues@).push(issue@));
        }
        let ghost rs = strings_view(recipients@);
        let ghost rows0 = queue_view(txn.rows@);
        let ghost issues1 = txn.issues@;
        let n = recipients.len();
        let mut i: usize = 0;
        while i < n
            invariant
                n == recipients@.len(),
                rs == strings_view(recipients@),
                i <= n,
                txn.issues@ == issues1,
                txn.owner_id == old(txn).owner_id,
                txn.key == old(txn).key,
                queue_view(txn.rows@) == rows0 + distinct(rs.take(i as int)).map_values(
                    |e: Seq<char>| new_entry(issue_id, e),
                ),
            decreases n - i,
        {
            let mut seen = false;
            let mut j: usize = 0;
            while j < i
                invariant
                    n == recipients@.len(),
                    rs == strings_view(recipients@),
                    j <= i < n,
                    seen <==> exists|m: int| 0 <= m < j && rs[m] == rs[i as int],
                decreases i - j,
            {
                proof {
                    assert(rs[j as int] == recipients@[j as int]@);
                    assert(rs[i as int] == recipients@[i as int]@);
                }
                if recipients[j] == recipients[i] {
                    seen = true;
                }
                j = j + 1;
            }
            let ghost prev = distinct(rs.take(i as int));
            proof {
                assert(rs.take(i as int + 1).drop_last() =~= rs.take(i as int));
                assert(rs.take(i as int + 1).last() == rs[i as int]);
                if seen {
                    let m = choose|m: int| 0 <= m < i && rs[m] == rs[i as int];
                    assert(rs.take(i as int)[m] == rs[i as int]);
                } else {
                    assert forall|m: int| 0 <= m < i implies rs.take(i as int)[m] != rs[i as int] by {
                    }
                }
            }
            if !seen {
                let entry = DeliveryEntry {
                    issue_id,
                    recipient_email: recipients[i].clone(),
                    n_retries: 0,
                    execute_after: 0,
                    claimed: false,
                    dead: false,
                };
                let ghost rows_before = txn.rows@;
                proof {
                    assert(rs[i as int] == recipients@[i as int]@);
                    assert(entry@ == new_entry(issue_id, rs[i as int]));
                }
                txn.rows.push(entry);
                proof {
                    assert(queue_view(txn.rows@) =~= queue_view(rows_before).push(
                        new_entry(issue_id, rs[i as int]),
                    ));
                    assert(distinct(rs.take(i as int + 1)) == prev.push(rs[i as int]));
                    assert(prev.push(rs[i as int]).map_values(|e: Seq<char>| new_entry(issue_id, e))
                        =~= prev.map_values(|e: Seq<char>| new_entry(issue_id, e)).push(
                        new_entry(issue_id, rs[i as int]),
                    ));
                    assert(queue_view(txn.rows@) =~= rows0 + distinct(
                        rs.take(i as int + 1),
                    ).map_values(|e: Seq<char>| new_entry(issue_id, e)));
                }
            } else {
                proof {
                    assert(distinct(rs.take(i as int + 1)) == prev);
                }
            }
            i = i + 1;
        }
        proof {
            assert(rs.take(n as int) =~= rs);
        }
        issue_id
    }
    /// The committed newsletter issues, oldest first.
    pub fn issues(&self) -> (r: &Vec<NewsletterIssue>)
        ensures
            issues_view(r@) == self@.issues,
    {
        &self.issues
    }

    /// The delivery queue, dead rows included.
    pub fn queue(&self) -> (r: &Vec<DeliveryEntry>)
        ensures
            queue_view(r@) == self@.queue,
    {
        &self.queue
    }

    /// The first committed issue with id `issue_id`.
    pub fn find_issue(&self, issue_id: u64) -> (r: Option<&NewsletterIssue>)
        ensures
            r matches Some(x) ==> exists|i: int|
                0 <= i < self@.issues.len() && self@.issues[i] == x@ && x.issue_id == issue_id,
            r is None ==> forall|i: int|
                0 <= i < self@.issues.len() ==> #[trigger] self@.issues[i].issue_id != issue_id,
    {
        let n = self.issues.len();
        let mut i: usize = 0;
        while i < n
            invariant
                n == self.issues@.len(),
                i <= n,
                forall|j: int| 0 <= j < i ==> #[trigger] self.issues@[j].issue_id != issue_id,
            decreases n - i,
        {
            if self.issues[i].issue_id == issue_id {
                assert(self@.issues[i as int] == self.issues@[i as int]@);
                return Some(&self.issues[i]);
            }
            i = i + 1;
        }
        proof {
            assert forall|j: int| 0 <= j < self@.issues.len() implies #[trigger]
                self@.issues[j].issue_id != issue_id by {
                assert(self@.issues[j] == self.issues@[j]@);
            }
        }
        None
    }

    /// Claims the first row that is eligible at `now`, so that no other worker
    /// can take it until it is resolved or released.
    pub fn claim_next(&mut self, now: u64) -> (r: Option<Claim>)
        requires
            old(self).wf(),
        ensures
            final(self).wf(),
            (final(self)@, match r {
                Some(c) => Some(c@),
                None => None,
            }) == claim_model(old(self)@, now),
    {
        let ghost q = self@.queue;
        let n = self.queue.len();
        let mut i: usize = 0;
        while i < n
            invariant
                n == self.queue@.len(),
                q == self@.queue,
                *self == *old(self),
                self.wf(),
                i <= n,
                forall|j: int| 0 <= j < i ==> !eligible(#[trigger] q[j], now),
            decreases n - i,
        {
            let e = &self.queue[i];
            proof {
                assert(q[i as int] == self.queue@[i as int]@);
            }
            if !e.claimed && !e.dead && e.execute_after <= now {
                let claimed = DeliveryEntry {
                    issue_id: e.issue_id,
                    recipient_email: e.recipient_email.clone(),
                    n_retries: e.n_retries,
                    execute_after: e.execute_after,
                    claimed: true,
                    dead: e.dead,
                };
                let c = Claim { issue_id: e.issue_id, recipient_email: e.recipient_email.clone() };
                proof {
                    assert(first_eligible(q, now, i as int));
                    let k = choose|k: int| first_eligible(q, now, k);
                    lemma_first_eligible_unique(q, now, k, i as int);
                }
                let ghost old_queue = self.queue@;
                self.queue.set(i, claimed);
                proof {
                    assert(queue_view(self.queue@) =~= queue_view(old_queue).update(
                        i as int,
                        claimed@,
                    ));
                }
                return Some(c);
            }
            i = i + 1;
        }
        proof {
            assert forall|k: int| !first_eligible(q, now, k) by {
                if 0 <= k < q.len() {
                    assert(!eligible(q[k], now));
                }
            }
        }
        None
    }

    /// The first row held under `c`, if any.
    fn find_claimed(&self, c: &Claim) -> (r: Option<usize>)
        ensures
            r matches Some(i) ==> first_claimed(self@.queue, c@, i as int),
            r is None ==> forall|k: int| !first_claimed(self@.queue, c@, k),
    {
        let ghost q = self@.queue;
        let n = self.queue.len();
        let mut i: usize = 0;
        while i < n
            invariant
                n == self.queue@.len(),
                q == self@.queue,
                i <= n,
                forall|j: int| 0 <= j < i ==> !held_by(#[trigger] q[j], c@),
            decreases n - i,
        {
            let e = &self.queue[i];
            proof {
                assert(q[i as int] == self.queue@[i as int]@);
            }
            if e.claimed && e.issue_id == c.issue_id && e.recipient_email == c.recipient_email {
                return Some(i);
            }
            i = i + 1;
        }
        proof {
            assert forall|k: int| !first_claimed(q, c@, k) by {
                if 0 <= k < q.len() {
                    assert(!held_by(q[k], c@));
                }
            }
        }
        None
    }

    /// Resolves the row held under `c` with the result of its send attempt at
    /// `now`: sent rows are deleted, permanent failures and rows past the retry
    /// ceiling are marked dead, other failures are released with a backoff.
    pub fn resolve(
        &mut self,
        c: &Claim,
        outcome: SendOutcome,
        now: u64,
        policy: &WorkerPolicy,
    ) -> (r: Result<Resolution, ResolveError>)
        requires
            old(self).wf(),
        ensures
            final(self).wf(),
            (final(self)@, match r {
                Ok(x) => Some(x),
                Err(_) => None,
            }) == resolve_model(old(self)@, c@, outcome, now, *policy),
    {
        let ghost q = self@.queue;
        match self.find_claimed(c) {
            None => Err(ResolveError::NotClaimed),
            Some(i) => {
                proof {
                    let k = choose|k: int| first_claimed(q, c@, k);
                    lemma_first_claimed_unique(q, c@, k, i as int);
                    assert(q[i as int] == self.queue@[i as int]@);
                }
                let ghost old_queue = self.queue@;
                match outcome {
                    SendOutcome::Delivered => {
                        self.queue.remove(i);
                        proof {
                            assert(queue_view(self.queue@) =~= queue_view(old_queue).remove(
                                i as int,
                            ));
                        }
                        Ok(Resolution::Deleted)
                    },
                    _ => {
                        let e = &self.queue[i];
                        let n = if e.n_retries == u32::MAX {
                            e.n_retries
                        } else {
                            e.n_retries + 1
                        };
                        let (entry, res) = if outcome == SendOutcome::PermanentFailure {
                            (
                                DeliveryEntry {
                                    issue_id: e.issue_id,
                                    recipient_email: e.recipient_email.clone(),
                                    n_retries: e.n_retries,
                                    execute_after: e.execute_after,
                                    claimed: false,
                                    dead: true,
                                },
                                Resolution::Dead,
                            )
                        } else if n > policy.max_retries {
                            (
                                DeliveryEntry {
                                    issue_id: e.issue_id,
                                    recipient_email: e.recipient_email.clone(),
                                    n_retries: n,
                                    execute_after: e.execute_after,
                                    claimed: false,
                                    dead: true,
                                },
                                Resolution::Dead,
                            )
                        } else {
                            let delay = backoff(policy, n);
                            let after = if now > u64::MAX - delay {
                                u64::MAX
                            } else {
                                now + delay
                            };
                            (
                                DeliveryEntry {
                                    issue_id: e.issue_id,
                                    recipient_email: e.recipient_email.clone(),
                                    n_retries: n,
                                    execute_after: after,
                                    claimed: false,
                                    dead: e.dead,
                                },
                                Resolution::Retry(after),
                            )
                        };
                        proof {
                            let (row, rs) = resolved_entry(q[i as int], outcome, now, *policy);
                            assert(row == Some(entry@));
                            assert(rs == res);
                        }
                        self.queue.set(i, entry);
                        proof {
                            assert(queue_view(self.queue@) =~= queue_view(old_queue).update(
                                i as int,
                                entry@,
                            ));
                        }
                        Ok(res)
                    },
                }
            },
        }
    }

    /// Releases the row held under `c` without resolving it, as happens when
    /// its worker stops mid-attempt; returns whether such a row was found.
    pub fn release_claim(&mut self, c: &Claim) -> (r: bool)
        requires
            old(self).wf(),
        ensures
            final(self).wf(),
            final(self)@ == release_model(old(self)@, c@),
            r == exists|i: int| first_claimed(old(self)@.queue, c@, i),
    {
        let ghost q = self@.queue;
        match self.find_claimed(c) {
            None => false,
            Some(i) => {
                proof {
                    let k = choose|k: int| first_claimed(q, c@, k);
                    lemma_first_claimed_unique(q, c@, k, i as int);
                    assert(q[i as int] == self.queue@[i as int]@);
                }
                let e = &self.queue[i];
                let entry = DeliveryEntry {
                    issue_id: e.issue_id,
                    recipient_email: e.recipient_email.clone(),
                    n_retries: e.n_retries,
                    execute_after: e.execute_after,
                    claimed: false,
                    dead: e.dead,
                };
                let ghost old_queue = self.queue@;
                self.queue.set(i, entry);
                proof {
                    assert(queue_view(self.queue@) =~= queue_view(old_queue).update(
                        i as int,
                        entry@,
                    ));
                }
                true
            },
        }
    }

    /// One turn of the delivery loop: stop when shutdown was asked for, else
    /// claim the first eligible row, or sleep when there is none.
    pub fn worker_step(&mut self, now: u64, shutdown: bool, policy: &WorkerPolicy) -> (r:
        WorkerStep)
        requires
            old(self).wf(),
        ensures
            final(self).wf(),
            shutdown ==> r is Stop && final(self)@ == old(self)@,
            !shutdown ==> (final(self)@, match r {
                WorkerStep::Deliver(c) => Some(c@),
                _ => None,
            }) == claim_model(old(self)@, now),
            !shutdown ==> (r is Sleep <==> r == WorkerStep::Sleep(policy.idle_delay)),
            !shutdown ==> !(r is Stop),
    {
        if shutdown {
            return WorkerStep::Stop;
        }
        match self.claim_next(now) {
            Some(c) => WorkerStep::Deliver(c),
            None => WorkerStep::Sleep(policy.idle_delay),
        }
    }
}

} // verus!
