//! An executable relational store holding idempotency records, issues, the
//! delivery queue and the subscriber list, with the transactional operations
//! that the gateway, the enqueuer and the worker perform on it.

use vstd::prelude::*;
use crate::key::IdempotencyKey;
use crate::model::{
    claim_step, claimed, commit_step, complete_step, confirmed_emails, dequeue_step,
    first_unlocked, fresh_txn, has_unlocked, is_first_unlocked, is_record_of, issue_exists,
    issue_index, publish_step, queue_tasks, record_index, rollback_step, store_wf, task_index,
    tasks_for, tasks_unique, txn_wf, ClaimView, DeliveryResult, ExecutionOutcome, IssueView,
    JobView, RecordView, RowView, StoreError, StoreView, SubscriberView, TaskView, TxnView,
};
use crate::response::{CachedResponse, ResponseView};

verus! {

/// One row of the idempotency table.
pub struct IdempotencyRecord {
    pub actor_id: u128,
    pub key: String,
    pub created_at: u64,
    pub response: Option<CachedResponse>,
}

/// A published newsletter issue; immutable once stored.
pub struct Issue {
    pub id: u128,
    pub title: String,
    pub html_body: String,
    pub text_body: String,
    pub published_at: u64,
}

/// One unit of work: send an issue to one recipient.
pub struct DeliveryTask {
    pub issue_id: u128,
    pub recipient: String,
}

/// A queue row and whether a worker holds its lock.
pub struct QueueRow {
    pub task: DeliveryTask,
    pub locked: bool,
}

pub struct Subscriber {
    pub email: String,
    pub confirmed: bool,
}

pub open spec fn response_view(r: Option<CachedResponse>) -> Option<ResponseView> {
    match r {
        Some(c) => Some(c@),
        None => None,
    }
}

impl View for IdempotencyRecord {
    type V = RecordView;

    open spec fn view(&self) -> RecordView {
        RecordView {
            actor_id: self.actor_id,
            key: self.key@,
            created_at: self.created_at,
            response: response_view(self.response),
        }
    }
}

impl View for Issue {
    type V = IssueView;

    open spec fn view(&self) -> IssueView {
        IssueView {
            id: self.id,
            title: self.title@,
            html_body: self.html_body@,
            text_body: self.text_body@,
            published_at: self.published_at,
        }
    }
}

impl View for DeliveryTask {
    type V = TaskView;

    open spec fn view(&self) -> TaskView {
        TaskView { issue_id: self.issue_id, recipient: self.recipient@ }
    }
}

impl View for QueueRow {
    type V = RowView;

    open spec fn view(&self) -> RowView {
        RowView { task: self.task@, locked: self.locked }
    }
}

impl View for Subscriber {
    type V = SubscriberView;

    open spec fn view(&self) -> SubscriberView {
        SubscriberView { email: self.email@, confirmed: self.confirmed }
    }
}

impl DeliveryTask {
    pub fn duplicate(&self) -> (r: DeliveryTask)
        ensures
            r@ == self@,
    {
        DeliveryTask { issue_id: self.issue_id, recipient: self.recipient.clone() }
    }
}

/// The store: the only holder of durable state.
pub struct Store {
    records: Vec<IdempotencyRecord>,
    issues: Vec<Issue>,
    queue: Vec<QueueRow>,
    subscribers: Vec<Subscriber>,
}

impl View for Store {
    type V = StoreView;

    closed spec fn view(&self) -> StoreView {
        StoreView {
            records: self.records@.map_values(|r: IdempotencyRecord| r@),
            issues: self.issues@.map_values(|i: Issue| i@),
            queue: self.queue@.map_values(|r: QueueRow| r@),
            subscribers: self.subscribers@.map_values(|s: Subscriber| s@),
        }
    }
}

/// The writes of a claim owner, held back until the claim is answered.
pub struct OwnerTransaction {
    actor_id: u128,
    key: String,
    issue: Option<Issue>,
    tasks: Vec<DeliveryTask>,
}

pub open spec fn issue_view(i: Option<Issue>) -> Option<IssueView> {
    match i {
        Some(x) => Some(x@),
        None => None,
    }
}

impl View for OwnerTransaction {
    type V = TxnView;

    closed spec fn view(&self) -> TxnView {
        TxnView {
            actor_id: self.actor_id,
            key: self.key@,
            issue: issue_view(self.issue),
            tasks: self.tasks@.map_values(|t: DeliveryTask| t@),
        }
    }
}

impl OwnerTransaction {
    #[verifier::type_invariant]
    spec fn inv(&self) -> bool {
        txn_wf(self@)
    }
}

/// What a claim attempt leads to.
pub enum NextAction {
    /// Run the command inside this transaction, then answer it.
    StartProcessing(OwnerTransaction),
    /// Hand back the answer saved for the key.
    ReturnSavedResponse(CachedResponse),
}

/// A locked task together with the content to send.
pub struct DeliveryJob {
    pub task: DeliveryTask,
    pub title: String,
    pub html_body: String,
    pub text_body: String,
}

impl View for DeliveryJob {
    type V = JobView;

    open spec fn view(&self) -> JobView {
        JobView {
            task: self.task@,
            title: self.title@,
            html_body: self.html_body@,
            text_body: self.text_body@,
        }
    }
}

pub open spec fn job_view(j: Option<DeliveryJob>) -> Option<JobView> {
    match j {
        Some(x) => Some(x@),
        None => None,
    }
}

/// Why a claim attempt could not go on.
#[derive(Debug, Clone, Copy, PartialEq, Eq, Structural)]
pub enum GatewayError {
    /// Another owner holds the key and has not answered yet: retry later.
    ConflictInProgress,
}

pub open spec fn claim_view(r: Result<NextAction, GatewayError>) -> ClaimView {
    match r {
        Ok(NextAction::StartProcessing(_)) => ClaimView::Owner,
        Ok(NextAction::ReturnSavedResponse(resp)) => ClaimView::Replay(resp@),
        Err(_) => ClaimView::InProgress,
    }
}

/// Relies on uuid::Uuid::new_v4, read as an integer by Uuid::as_u128: a
/// random identifier whose version field is 4 and whose variant bits are `10`.
#[verifier::external_body]
fn new_issue_id() -> (r: u128)
    ensures
        (r >> 76u128) & 0xfu128 == 4,
        (r >> 62u128) & 0x3u128 == 2,
{
    uuid::Uuid::new_v4().as_u128()
}

impl Store {
    /// The store's integrity constraints hold.
    pub open spec fn wf(&self) -> bool {
        store_wf(self@)
    }

    pub fn new() -> (r: Store)
        ensures
            r.wf(),
            r@ == (StoreView {
                records: Seq::empty(),
                issues: Seq::empty(),
                queue: Seq::empty(),
                subscribers: Seq::empty(),
            }),
    {
        let r = Store {
            records: Vec::new(),
            issues: Vec::new(),
            queue: Vec::new(),
            subscribers: Vec::new(),
        };
        assert(r@.records =~= Seq::empty());
        assert(r@.issues =~= Seq::empty());
        assert(r@.queue =~= Seq::empty());
        assert(r@.subscribers =~= Seq::empty());
        r
    }

    /// Position of the record of `(actor_id, key)`.
    fn find_record(&self, actor_id: u128, key: &String) -> (r: Option<usize>)
        requires
            self.wf(),
        ensures
            match r {
                Some(i) => i < self@.records.len() && is_record_of(
                    self@.records[i as int],
                    actor_id,
                    key@,
                ) && record_index(self@, actor_id, key@) == i,
                None => !claimed(self@, actor_id, key@),
            },
    {
        let mut i: usize = 0;
        while i < self.records.len()
            invariant
                0 <= i <= self.records@.len(),
                self.wf(),
                self@.records == self.records@.map_values(|r: IdempotencyRecord| r@),
                forall|j: int|
                    0 <= j < i ==> !is_record_of(#[trigger] self@.records[j], actor_id, key@),
            decreases self.records@.len() - i,
        {
            if self.records[i].actor_id == actor_id && self.records[i].key == *key {
                proof {
                    let s = self@;
                    assert(is_record_of(s.records[i as int], actor_id, key@));
                    let k = record_index(s, actor_id, key@);
                    assert(is_record_of(s.records[k], actor_id, key@));
                    if k != i {
                        assert(!is_record_of(s.records[k], s.records[i as int].actor_id, s.records[i as int].key));
                    }
                }
                return Some(i);
            }
            i = i + 1;
        }
        None
    }

    /// Claims `key` for `actor_id`, or reports what an earlier claim left:
    /// its saved response, or that its owner has not answered yet.
    /// A claim that exists already is never taken a second time.
    pub fn try_processing(&mut self, key: &IdempotencyKey, actor_id: u128, now: u64) -> (r: Result<
        NextAction,
        GatewayError,
    >)
        requires
            old(self).wf(),
        ensures
            final(self).wf(),
            (final(self)@, claim_view(r)) == claim_step(old(self)@, actor_id, key@, now),
            match r {
                Ok(NextAction::StartProcessing(t)) => t@ == fresh_txn(actor_id, key@),
                _ => true,
            },
    {
        let k = String::from_str(key.as_str());
        match self.find_record(actor_id, &k) {
            Some(i) => {
                match &self.records[i].response {
                    Some(resp) => Ok(NextAction::ReturnSavedResponse(resp.duplicate())),
                    None => Err(GatewayError::ConflictInProgress),
                }
            },
            None => {
                let k2 = k.clone();
                self.records.push(
                    IdempotencyRecord { actor_id, key: k, created_at: now, response: None },
                );
                let txn = OwnerTransaction { actor_id, key: k2, issue: None, tasks: Vec::new() };
                proof {
                    let s = self@;
                    let o = old(self)@;
                    let rec = RecordView { actor_id, key: key@, created_at: now, response: None };
                    assert(s.records =~= o.records.push(rec));
                    assert forall|a: int, b: int|
                        0 <= a < s.records.len() && 0 <= b < s.records.len() && a != b implies !is_record_of(
                            #[trigger] s.records[a],
                            (#[trigger] s.records[b]).actor_id,
                            s.records[b].key,
                        ) by {
                        if a < o.records.len() && b < o.records.len() {
                            assert(o.records[a] == s.records[a]);
                            assert(o.records[b] == s.records[b]);
                        } else if a < o.records.len() {
                            assert(o.records[a] == s.records[a]);
                        } else {
                            assert(o.records[b] == s.records[b]);
                        }
                    }
                    assert(txn@.tasks =~= Seq::<TaskView>::empty());
                }
                Ok(NextAction::StartProcessing(txn))
            },
        }
    }

    /// Abandons an owner's transaction: its writes vanish and its claim is
    /// released, so a retry of the command can claim the key afresh.
    pub fn rollback(&mut self, txn: OwnerTransaction)
        requires
            old(self).wf(),
        ensures
            final(self).wf(),
            final(self)@ == rollback_step(old(self)@, txn@.actor_id, txn@.key),
    {
        match self.find_record(txn.actor_id, &txn.key) {
            Some(i) => {
                if self.records[i].response.is_none() {
                    self.records.remove(i);
                    proof {
                        let s = self@;
                        let o = old(self)@;
                        assert(s.records =~= o.records.remove(i as int));
                        assert forall|a: int, b: int|
                            0 <= a < s.records.len() && 0 <= b < s.records.len() && a != b implies !is_record_of(
                                #[trigger] s.records[a],
                                (#[trigger] s.records[b]).actor_id,
                                s.records[b].key,
                            ) by {
                            let oa = if a < i { a } else { a + 1 };
                            let ob = if b < i { b } else { b + 1 };
                            assert(o.records[oa] == s.records[a]);
                            assert(o.records[ob] == s.records[b]);
                        }
                    }
                }
            },
            None => {},
        }
    }

    /// Whether an issue with this identifier exists.
    fn issue_id_taken(&self, id: u128) -> (r: bool)
        ensures
            r == issue_exists(self@.issues, id),
    {
        let mut i: usize = 0;
        while i < self.issues.len()
            invariant
                0 <= i <= self.issues@.len(),
                self@.issues == self.issues@.map_values(|x: Issue| x@),
                forall|j: int| 0 <= j < i ==> (#[trigger] self@.issues[j]).id != id,
            decreases self.issues@.len() - i,
        {
            if self.issues[i].id == id {
                assert(self@.issues[i as int].id == id);
                return true;
            }
            i = i + 1;
        }
        false
    }

    /// One task of `issue_id` for every confirmed subscriber, in table order.
    fn confirmed_tasks(&self, issue_id: u128) -> (r: Vec<DeliveryTask>)
        requires
            self.wf(),
        ensures
            r@.map_values(|t: DeliveryTask| t@) == tasks_for(
                issue_id,
                confirmed_emails(self@.subscribers),
            ),
            tasks_unique(r@.map_values(|t: DeliveryTask| t@)),
    {
        let ghost subs = self@.subscribers;
        let mut tasks: Vec<DeliveryTask> = Vec::new();
        let mut i: usize = 0;
        while i < self.subscribers.len()
            invariant
                0 <= i <= self.subscribers@.len(),
                self.wf(),
                subs == self@.subscribers,
                subs == self.subscribers@.map_values(|x: Subscriber| x@),
                tasks@.map_values(|t: DeliveryTask| t@) == tasks_for(
                    issue_id,
                    confirmed_emails(subs.subrange(0, i as int)),
                ),
                tasks_unique(tasks@.map_values(|t: DeliveryTask| t@)),
                forall|j: int|
                    0 <= j < tasks@.len() ==> exists|m: int|
                        0 <= m < i && (#[trigger] tasks@[j])@.recipient == (
                        #[trigger] subs[m]).email,
            decreases self.subscribers@.len() - i,
        {
            let ghost before = tasks@;
            assert(subs.subrange(0, i + 1).drop_last() =~= subs.subrange(0, i as int));
            if self.subscribers[i].confirmed {
                let t = DeliveryTask { issue_id, recipient: self.subscribers[i].email.clone() };
                tasks.push(t);
                proof {
                    let tv = tasks@.map_values(|t: DeliveryTask| t@);
                    assert(tv =~= before.map_values(|t: DeliveryTask| t@).push(
                        TaskView { issue_id, recipient: subs[i as int].email },
                    ));
                    assert(tv =~= tasks_for(issue_id, confirmed_emails(subs.subrange(0, i + 1))));
                    assert forall|a: int, b: int|
                        0 <= a < tv.len() && 0 <= b < tv.len() && a != b implies #[trigger] tv[a]
                            != #[trigger] tv[b] by {
                        if a < before.len() && b < before.len() {
                            assert(tv[a] == before.map_values(|t: DeliveryTask| t@)[a]);
                            assert(tv[b] == before.map_values(|t: DeliveryTask| t@)[b]);
                        } else if a < before.len() {
                            assert(tasks@[a] == before[a]);
                            let m = choose|m: int|
                                0 <= m < i && (#[trigger] before[a])@.recipient == (
                                #[trigger] subs[m]).email;
                            assert(subs[m].email != subs[i as int].email);
                        } else {
                            assert(tasks@[b] == before[b]);
                            let m = choose|m: int|
                                0 <= m < i && (#[trigger] before[b])@.recipient == (
                                #[trigger] subs[m]).email;
                            assert(subs[m].email != subs[i as int].email);
                        }
                    }
                    assert forall|j: int| 0 <= j < tasks@.len() implies exists|m: int|
                        0 <= m < i + 1 && (#[trigger] tasks@[j])@.recipient == (
                        #[trigger] subs[m]).email by {
                        if j < before.len() {
                            assert(tasks@[j] == before[j]);
                            let m = choose|m: int|
                                0 <= m < i && (#[trigger] before[j])@.recipient == (
                                #[trigger] subs[m]).email;
                            assert(subs[m] == subs[m]);
                        } else {
                            assert(subs[i as int] == subs[i as int]);
                        }
                    }
                }
            } else {
                assert(tasks@.map_values(|t: DeliveryTask| t@) =~= tasks_for(
                    issue_id,
                    confirmed_emails(subs.subrange(0, i + 1)),
                ));
            }
            i = i + 1;
        }
        assert(subs.subrange(0, subs.len() as int) =~= subs);
        tasks
    }

    /// Records a new issue inside the owner's transaction, with one delivery
    /// task per confirmed subscriber. Nothing becomes visible before commit.
    pub fn publish_issue(
        &self,
        txn: &mut OwnerTransaction,
        title: String,
        html_body: String,
        text_body: String,
        issue_id: u128,
        now: u64,
    ) -> (r: Result<u128, StoreError>)
        requires
            self.wf(),
        ensures
            match publish_step(
                self@,
                old(txn)@,
                IssueView {
                    id: issue_id,
                    title: title@,
                    html_body: html_body@,
                    text_body: text_body@,
                    published_at: now,
                },
            ) {
                Ok(t) => r == Ok::<u128, StoreError>(issue_id) && final(txn)@ == t,
                Err(e) => r == Err::<u128, StoreError>(e) && final(txn)@ == old(txn)@,
            },
    {
        if txn.issue.is_some() {
            return Err(StoreError::IssueAlreadyPublished);
        }
        if self.issue_id_taken(issue_id) {
            return Err(StoreError::DuplicateIssueId);
        }
        let tasks = self.confirmed_tasks(issue_id);
        proof {
            use_type_invariant(&*txn);
        }
        txn.issue = Some(Issue { id: issue_id, title, html_body, text_body, published_at: now });
        txn.tasks = tasks;
        Ok(issue_id)
    }

    /// Answers the owner's claim with `response` and commits the
    /// transaction: the response, the issue and its delivery tasks become
    /// visible together. On failure the whole transaction rolls back.
    pub fn save_response(&mut self, txn: OwnerTransaction, response: CachedResponse) -> (r: Result<
        CachedResponse,
        StoreError,
    >)
        requires
            old(self).wf(),
        ensures
            final(self).wf(),
            match commit_step(old(self)@, txn@, response@) {
                Ok(s) => r is Ok && r->Ok_0@ == response@ && final(self)@ == s,
                Err(e) => r == Err::<CachedResponse, StoreError>(e) && final(self)@
                    == rollback_step(old(self)@, txn@.actor_id, txn@.key),
            },
    {
        proof {
            use_type_invariant(&txn);
        }
        let ghost o = self@;
        let ghost tv = txn@;
        let i = match self.find_record(txn.actor_id, &txn.key) {
            Some(i) => i,
            None => return Err(StoreError::ClaimMissing),
        };
        if self.records[i].response.is_some() {
            return Err(StoreError::ClaimMissing);
        }
        let OwnerTransaction { actor_id, key, issue, tasks } = txn;
        let clash = match &issue {
            Some(iss) => self.issue_id_taken(iss.id),
            None => false,
        };
        if clash {
            self.rollback(OwnerTransaction { actor_id, key, issue: None, tasks: Vec::new() });
            return Err(StoreError::DuplicateIssueId);
        }
        let answer = response.duplicate();
        let mut rec = self.records.remove(i);
        rec.response = Some(response);
        self.records.insert(i, rec);
        assert(self@.records =~= o.records.update(
            i as int,
            RecordView { response: Some(answer@), ..o.records[i as int] },
        ));
        match issue {
            Some(iss) => {
                self.issues.push(iss);
            },
            None => {},
        }
        let mut j: usize = 0;
        while j < tasks.len()
            invariant
                0 <= j <= tasks@.len(),
                i < o.records.len(),
                tv.tasks == tasks@.map_values(|t: DeliveryTask| t@),
                txn_wf(tv),
                store_wf(o),
                !(tv.issue is Some && issue_exists(o.issues, tv.issue->0.id)),
                self@.records == o.records.update(
                    i as int,
                    RecordView { response: Some(answer@), ..o.records[i as int] },
                ),
                self@.subscribers == o.subscribers,
                self@.issues == match tv.issue {
                    Some(x) => o.issues.push(x),
                    None => o.issues,
                },
                self@.queue == o.queue + tv.tasks.subrange(0, j as int).map_values(
                    |task: TaskView| RowView { task, locked: false },
                ),
            decreases tasks@.len() - j,
        {
            let ghost before = self@.queue;
            let t = tasks[j].duplicate();
            assert(t@ == tv.tasks[j as int]);
            self.queue.push(QueueRow { task: t, locked: false });
            assert(self@.queue =~= before.push(RowView { task: tv.tasks[j as int], locked: false }));
            assert(self@.queue =~= o.queue + tv.tasks.subrange(0, j + 1).map_values(
                |task: TaskView| RowView { task, locked: false },
            ));
            j = j + 1;
        }
        assert(tv.tasks.subrange(0, tv.tasks.len() as int) =~= tv.tasks);
        proof {
            let s = self@;
            let added = tv.tasks.map_values(|task: TaskView| RowView { task, locked: false });
            assert(s.queue == o.queue + added);
            // records keep their keys
            assert forall|a: int, b: int|
                0 <= a < s.records.len() && 0 <= b < s.records.len() && a != b implies !is_record_of(
                    #[trigger] s.records[a],
                    (#[trigger] s.records[b]).actor_id,
                    s.records[b].key,
                ) by {
                assert(!is_record_of(o.records[a], o.records[b].actor_id, o.records[b].key));
            }
            // issue identifiers stay unique
            assert forall|a: int, b: int|
                0 <= a < s.issues.len() && 0 <= b < s.issues.len() && a != b implies (
                #[trigger] s.issues[a]).id != (#[trigger] s.issues[b]).id by {
                if a < o.issues.len() && b < o.issues.len() {
                    assert(o.issues[a] == s.issues[a]);
                    assert(o.issues[b] == s.issues[b]);
                } else if a < o.issues.len() {
                    assert(o.issues[a] == s.issues[a]);
                } else {
                    assert(o.issues[b] == s.issues[b]);
                }
            }
            // every row refers to an issue
            assert forall|a: int| 0 <= a < s.queue.len() implies issue_exists(
                s.issues,
                (#[trigger] s.queue[a]).task.issue_id,
            ) by {
                if a < o.queue.len() {
                    assert(s.queue[a] == o.queue[a]);
                    let k = choose|k: int|
                        0 <= k < o.issues.len() && (#[trigger] o.issues[k]).id
                            == o.queue[a].task.issue_id;
                    assert(s.issues[k] == o.issues[k]);
                } else {
                    let b = a - o.queue.len();
                    assert(s.queue[a] == added[b]);
                    assert(tv.tasks[b].issue_id == tv.issue->0.id);
                    assert(s.issues[o.issues.len() as int] == tv.issue->0);
                }
            }
            // rows stay unique
            let qt = queue_tasks(s.queue);
            let oq = queue_tasks(o.queue);
            assert forall|a: int, b: int|
                0 <= a < qt.len() && 0 <= b < qt.len() && a != b implies #[trigger] qt[a]
                    != #[trigger] qt[b] by {
                if a < o.queue.len() && b < o.queue.len() {
                    assert(qt[a] == oq[a]);
                    assert(qt[b] == oq[b]);
                } else if a >= o.queue.len() && b >= o.queue.len() {
                    assert(qt[a] == tv.tasks[a - o.queue.len()]);
                    assert(qt[b] == tv.tasks[b - o.queue.len()]);
                } else {
                    let (old_i, new_i) = if a < o.queue.len() { (a, b) } else { (b, a) };
                    assert(qt[old_i] == o.queue[old_i].task);
                    assert(qt[new_i] == tv.tasks[new_i - o.queue.len()]);
                    assert(tv.tasks[new_i - o.queue.len()].issue_id == tv.issue->0.id);
                    assert(issue_exists(o.issues, o.queue[old_i].task.issue_id));
                }
            }
        }
        Ok(answer)
    }

    /// Takes the first task that no worker holds, locks it, and returns it
    /// joined with its issue; `None` when every task is taken or none is left.
    pub fn dequeue_task(&mut self) -> (r: Option<DeliveryJob>)
        requires
            old(self).wf(),
        ensures
            final(self).wf(),
            (final(self)@, job_view(r)) == dequeue_step(old(self)@),
    {
        let ghost o = self@;
        let mut i: usize = 0;
        while i < self.queue.len() && self.queue[i].locked
            invariant
                0 <= i <= self.queue@.len(),
                self@ == o,
                forall|j: int| 0 <= j < i ==> (#[trigger] o.queue[j]).locked,
            decreases self.queue@.len() - i,
        {
            i = i + 1;
        }
        if i == self.queue.len() {
            assert(!has_unlocked(o.queue)) by {
                assert forall|j: int| 0 <= j < o.queue.len() implies (#[trigger] o.queue[j]).locked by {}
            }
            return None;
        }
        proof {
            assert(is_first_unlocked(o.queue, i as int));
            let k = first_unlocked(o.queue);
            assert(is_first_unlocked(o.queue, k));
            if k < i {
                assert(o.queue[k].locked);
            } else if k > i {
                assert(o.queue[i as int].locked);
            }
        }
        let issue_id = self.queue[i].task.issue_id;
        let mut j: usize = 0;
        while j < self.issues.len() && self.issues[j].id != issue_id
            invariant
                0 <= j <= self.issues@.len(),
                self@ == o,
                store_wf(o),
                forall|m: int| 0 <= m < j ==> (#[trigger] o.issues[m]).id != issue_id,
            decreases self.issues@.len() - j,
        {
            j = j + 1;
        }
        if j == self.issues.len() {
            proof {
                assert(issue_exists(o.issues, o.queue[i as int].task.issue_id));
                let m = choose|m: int|
                    0 <= m < o.issues.len() && (#[trigger] o.issues[m]).id == issue_id;
                assert(o.issues[m].id != issue_id);
            }
            return None;
        }
        proof {
            assert(o.issues[j as int].id == issue_id);
            let m = issue_index(o.issues, issue_id);
            assert(0 <= m < o.issues.len() && o.issues[m].id == issue_id);
            if m != j {
                assert(o.issues[m].id != o.issues[j as int].id);
            }
        }
        let job = DeliveryJob {
            task: self.queue[i].task.duplicate(),
            title: self.issues[j].title.clone(),
            html_body: self.issues[j].html_body.clone(),
            text_body: self.issues[j].text_body.clone(),
        };
        let row = self.queue.remove(i);
        self.queue.insert(i, QueueRow { task: row.task, locked: true });
        proof {
            let s = self@;
            assert(s.queue =~= o.queue.update(
                i as int,
                RowView { task: o.queue[i as int].task, locked: true },
            ));
            assert(queue_tasks(s.queue) =~= queue_tasks(o.queue));
            assert forall|a: int| 0 <= a < s.queue.len() implies issue_exists(
                s.issues,
                (#[trigger] s.queue[a]).task.issue_id,
            ) by {
                assert(s.queue[a].task == queue_tasks(s.queue)[a]);
                assert(o.queue[a].task == queue_tasks(o.queue)[a]);
                assert(issue_exists(o.issues, o.queue[a].task.issue_id));
            }
        }
        Some(job)
    }

    /// Settles a task taken by `dequeue_task`: a sent or discarded task's
    /// row is deleted; a failed one is released, untouched, for a retry.
    pub fn complete_task(&mut self, task: &DeliveryTask, result: DeliveryResult) -> (r: Result<
        ExecutionOutcome,
        StoreError,
    >)
        requires
            old(self).wf(),
        ensures
            final(self).wf(),
            match complete_step(old(self)@, task@, result) {
                Ok((s, outcome)) => r == Ok::<ExecutionOutcome, StoreError>(outcome)
                    && final(self)@ == s,
                Err(e) => r == Err::<ExecutionOutcome, StoreError>(e) && final(self)@
                    == old(self)@,
            },
    {
        let ghost o = self@;
        let mut i: usize = 0;
        while i < self.queue.len() && !(self.queue[i].task.issue_id == task.issue_id
            && self.queue[i].task.recipient == task.recipient)
            invariant
                0 <= i <= self.queue@.len(),
                self@ == o,
                forall|j: int| 0 <= j < i ==> (#[trigger] o.queue[j]).task != task@,
            decreases self.queue@.len() - i,
        {
            i = i + 1;
        }
        if i == self.queue.len() {
            return Err(StoreError::TaskMissing);
        }
        proof {
            assert(o.queue[i as int].task == task@);
            let k = task_index(o.queue, task@);
            assert(0 <= k < o.queue.len() && o.queue[k].task == task@);
            if k != i {
                assert(queue_tasks(o.queue)[k] == o.queue[k].task);
                assert(queue_tasks(o.queue)[i as int] == o.queue[i as int].task);
            }
        }
        let row = self.queue.remove(i);
        let outcome = match result {
            DeliveryResult::Failed => {
                self.queue.insert(i, QueueRow { task: row.task, locked: false });
                assert(self@.queue =~= o.queue.update(
                    i as int,
                    RowView { task: task@, locked: false },
                ));
                assert(queue_tasks(self@.queue) =~= queue_tasks(o.queue));
                ExecutionOutcome::TaskFailed
            },
            _ => {
                assert(self@.queue =~= o.queue.remove(i as int));
                assert(queue_tasks(self@.queue) =~= queue_tasks(o.queue).remove(i as int));
                ExecutionOutcome::TaskCompleted
            },
        };
        proof {
            let s = self@;
            let qt = queue_tasks(s.queue);
            let oq = queue_tasks(o.queue);
            assert forall|a: int, b: int|
                0 <= a < qt.len() && 0 <= b < qt.len() && a != b implies #[trigger] qt[a]
                    != #[trigger] qt[b] by {
                if result == DeliveryResult::Failed {
                    assert(qt[a] == oq[a]);
                    assert(qt[b] == oq[b]);
                } else {
                    let oa = if a < i { a } else { a + 1 };
                    let ob = if b < i { b } else { b + 1 };
                    assert(qt[a] == oq[oa]);
                    assert(qt[b] == oq[ob]);
                }
            }
            assert forall|a: int| 0 <= a < s.queue.len() implies issue_exists(
                s.issues,
                (#[trigger] s.queue[a]).task.issue_id,
            ) by {
                let oa = if result == DeliveryResult::Failed || a < i { a } else { a + 1 };
                assert(s.queue[a].task == qt[a]);
                assert(qt[a] == oq[oa]);
                assert(oq[oa] == o.queue[oa].task);
                assert(issue_exists(o.issues, o.queue[oa].task.issue_id));
            }
        }
        Ok(outcome)
    }

    /// Records a new issue under a freshly generated identifier; see
    /// `publish_issue`. On success the identifier is returned.
    pub fn publish(
        &self,
        txn: &mut OwnerTransaction,
        title: String,
        html_body: String,
        text_body: String,
        now: u64,
    ) -> (r: Result<u128, StoreError>)
        requires
            self.wf(),
        ensures
            match r {
                Ok(id) => publish_step(
                    self@,
                    old(txn)@,
                    IssueView {
                        id,
                        title: title@,
                        html_body: html_body@,
                        text_body: text_body@,
                        published_at: now,
                    },
                ) == Ok::<TxnView, StoreError>(final(txn)@),
                Err(_) => final(txn)@ == old(txn)@,
            },
            old(txn)@.issue is Some ==> r == Err::<u128, StoreError>(StoreError::IssueAlreadyPublished),
            old(txn)@.issue is None && r is Err ==> r == Err::<u128, StoreError>(
                StoreError::DuplicateIssueId,
            ),
            r == Err::<u128, StoreError>(StoreError::DuplicateIssueId) ==> self@.issues.len() > 0,
            old(txn)@.issue is None && self@.issues.len() == 0 ==> r is Ok,
    {
        let id = new_issue_id();
        self.publish_issue(txn, title, html_body, text_body, id, now)
    }

    /// Number of issues published.
    pub fn issue_count(&self) -> (r: usize)
        ensures
            r == self@.issues.len(),
    {
        self.issues.len()
    }

    /// Number of tasks still waiting for a successful delivery.
    pub fn pending_task_count(&self) -> (r: usize)
        ensures
            r == self@.queue.len(),
    {
        self.queue.len()
    }

    /// Number of keys ever claimed and not rolled back.
    pub fn claim_count(&self) -> (r: usize)
        ensures
            r == self@.records.len(),
    {
        self.records.len()
    }

    /// Marks the subscriber with this address as confirmed.
    pub fn confirm_subscriber(&mut self, email: &String) -> (r: Result<(), StoreError>)
        requires
            old(self).wf(),
        ensures
            final(self).wf(),
            match r {
                Ok(()) => exists|i: int|
                    0 <= i < old(self)@.subscribers.len() && (#[trigger] old(
                        self,
                    )@.subscribers[i]).email == email@ && final(self)@ == (StoreView {
                        subscribers: old(self)@.subscribers.update(
                            i,
                            SubscriberView { email: email@, confirmed: true },
                        ),
                        ..old(self)@
                    }),
                Err(e) => e == StoreError::UnknownSubscriber && final(self)@ == old(self)@,
            },
            r is Err <==> forall|i: int|
                0 <= i < old(self)@.subscribers.len() ==> (#[trigger] old(
                    self,
                )@.subscribers[i]).email != email@,
    {
        let i = match self.find_subscriber(email) {
            Some(i) => i,
            None => return Err(StoreError::UnknownSubscriber),
        };
        let ghost o = self@;
        let old_row = self.subscribers.remove(i);
        self.subscribers.insert(i, Subscriber { email: old_row.email, confirmed: true });
        proof {
            let s = self@;
            assert(s.subscribers =~= o.subscribers.update(
                i as int,
                SubscriberView { email: email@, confirmed: true },
            ));
            assert forall|a: int, b: int|
                0 <= a < s.subscribers.len() && 0 <= b < s.subscribers.len() && a != b implies (
                #[trigger] s.subscribers[a]).email != (#[trigger] s.subscribers[b]).email by {
                assert(s.subscribers[a].email == o.subscribers[a].email);
                assert(s.subscribers[b].email == o.subscribers[b].email);
            }
        }
        Ok(())
    }

    /// Position of the subscriber with this address.
    fn find_subscriber(&self, email: &String) -> (r: Option<usize>)
        ensures
            match r {
                Some(i) => i < self@.subscribers.len() && self@.subscribers[i as int].email
                    == email@,
                None => forall|j: int|
                    0 <= j < self@.subscribers.len() ==> (#[trigger] self@.subscribers[j]).email
                        != email@,
            },
    {
        let mut i: usize = 0;
        while i < self.subscribers.len()
            invariant
                0 <= i <= self.subscribers@.len(),
                self@.subscribers == self.subscribers@.map_values(|s: Subscriber| s@),
                forall|j: int| 0 <= j < i ==> (#[trigger] self@.subscribers[j]).email != email@,
            decreases self.subscribers@.len() - i,
        {
            if self.subscribers[i].email == *email {
                return Some(i);
            }
            i = i + 1;
        }
        None
    }

    /// Adds a subscriber; addresses are unique.
    pub fn add_subscriber(&mut self, email: String, confirmed: bool) -> (r: Result<(), StoreError>)
        requires
            old(self).wf(),
        ensures
            final(self).wf(),
            match r {
                Ok(()) => final(self)@ == (StoreView {
                    subscribers: old(self)@.subscribers.push(SubscriberView { email: email@, confirmed }),
                    ..old(self)@
                }),
                Err(e) => e == StoreError::DuplicateEmail && final(self)@ == old(self)@,
            },
            r is Err <==> exists|j: int|
                0 <= j < old(self)@.subscribers.len() && (#[trigger] old(self)@.subscribers[j]).email
                    == email@,
    {
        if self.find_subscriber(&email).is_some() {
            return Err(StoreError::DuplicateEmail);
        }
        self.subscribers.push(Subscriber { email, confirmed });
        assert(self@.subscribers =~= old(self)@.subscribers.push(SubscriberView { email: email@, confirmed }));
        assert(self@.records == old(self)@.records);
        proof {
            let subs = self@.subscribers;
            assert forall|i: int, j: int|
                0 <= i < subs.len() && 0 <= j < subs.len() && i != j implies (#[trigger] subs[i]).email
                    != (#[trigger] subs[j]).email by {
                if i < old(self)@.subscribers.len() && j < old(self)@.subscribers.len() {
                    assert(old(self)@.subscribers[i] == subs[i]);
                    assert(old(self)@.subscribers[j] == subs[j]);
                } else if i < old(self)@.subscribers.len() {
                    assert(old(self)@.subscribers[i] == subs[i]);
                } else {
                    assert(old(self)@.subscribers[j] == subs[j]);
                }
            }
        }
        Ok(())
    }
}

} // verus!
