//! The state of the relational store as mathematical data, and what each
//! operation of the gateway, the enqueuer and the worker does to it.

use vstd::prelude::*;
use crate::response::ResponseView;

verus! {

/// Failures of a store operation.
#[derive(Debug, Clone, Copy, PartialEq, Eq, Structural)]
pub enum StoreError {
    /// The transaction's claim on its key is gone or already answered.
    ClaimMissing,
    /// An issue with this identifier already exists.
    DuplicateIssueId,
    /// The transaction already holds an issue.
    IssueAlreadyPublished,
    /// A subscriber with this address already exists.
    DuplicateEmail,
    /// No subscriber has this address.
    UnknownSubscriber,
    /// No queued task matches.
    TaskMissing,
}

/// What one attempt of the worker loop reports.
#[derive(Debug, Clone, Copy, PartialEq, Eq, Structural)]
pub enum ExecutionOutcome {
    EmptyQueue,
    TaskCompleted,
    TaskFailed,
}

/// How the handling of one dequeued task ended.
#[derive(Debug, Clone, Copy, PartialEq, Eq, Structural)]
pub enum DeliveryResult {
    /// The email went out.
    Sent,
    /// Sending failed in a way worth retrying.
    Failed,
    /// The task can never succeed (its address is invalid) and is dropped.
    Discarded,
}

pub struct RecordView {
    pub actor_id: u128,
    pub key: Seq<char>,
    pub created_at: u64,
    pub response: Option<ResponseView>,
}

pub struct IssueView {
    pub id: u128,
    pub title: Seq<char>,
    pub html_body: Seq<char>,
    pub text_body: Seq<char>,
    pub published_at: u64,
}

pub struct TaskView {
    pub issue_id: u128,
    pub recipient: Seq<char>,
}

pub struct RowView {
    pub task: TaskView,
    pub locked: bool,
}

pub struct SubscriberView {
    pub email: Seq<char>,
    pub confirmed: bool,
}

pub struct StoreView {
    pub records: Seq<RecordView>,
    pub issues: Seq<IssueView>,
    pub queue: Seq<RowView>,
    pub subscribers: Seq<SubscriberView>,
}

/// The writes that an owner's open transaction holds until it commits.
pub struct TxnView {
    pub actor_id: u128,
    pub key: Seq<char>,
    pub issue: Option<IssueView>,
    pub tasks: Seq<TaskView>,
}

/// A dequeued task joined with the content of its issue.
pub struct JobView {
    pub task: TaskView,
    pub title: Seq<char>,
    pub html_body: Seq<char>,
    pub text_body: Seq<char>,
}

/// How a claim attempt ends.
pub enum ClaimView {
    /// The caller now owns the key and must run the command.
    Owner,
    /// The key was answered before: here is that answer.
    Replay(ResponseView),
    /// Another owner holds the key and has not answered yet.
    InProgress,
}

// ---------------------------------------------------------------- invariants

pub open spec fn is_record_of(r: RecordView, actor_id: u128, key: Seq<char>) -> bool {
    r.actor_id == actor_id && r.key == key
}

pub open spec fn records_unique(recs: Seq<RecordView>) -> bool {
    forall|i: int, j: int|
        0 <= i < recs.len() && 0 <= j < recs.len() && i != j ==> !is_record_of(
            #[trigger] recs[i],
            (#[trigger] recs[j]).actor_id,
            recs[j].key,
        )
}

pub open spec fn issues_unique(issues: Seq<IssueView>) -> bool {
    forall|i: int, j: int|
        0 <= i < issues.len() && 0 <= j < issues.len() && i != j ==> (#[trigger] issues[i]).id
            != (#[trigger] issues[j]).id
}

pub open spec fn tasks_unique(tasks: Seq<TaskView>) -> bool {
    forall|i: int, j: int|
        0 <= i < tasks.len() && 0 <= j < tasks.len() && i != j ==> #[trigger] tasks[i]
            != #[trigger] tasks[j]
}

pub open spec fn queue_tasks(q: Seq<RowView>) -> Seq<TaskView> {
    q.map_values(|r: RowView| r.task)
}

pub open spec fn emails_unique(subs: Seq<SubscriberView>) -> bool {
    forall|i: int, j: int|
        0 <= i < subs.len() && 0 <= j < subs.len() && i != j ==> (#[trigger] subs[i]).email
            != (#[trigger] subs[j]).email
}

pub open spec fn issue_exists(issues: Seq<IssueView>, id: u128) -> bool {
    exists|j: int| 0 <= j < issues.len() && (#[trigger] issues[j]).id == id
}

pub open spec fn rows_reference_issues(s: StoreView) -> bool {
    forall|i: int| 0 <= i < s.queue.len() ==> issue_exists(s.issues, (#[trigger] s.queue[i]).task.issue_id)
}

/// The store's integrity constraints: unique keys everywhere, and every
/// queue row refers to an existing issue.
pub open spec fn store_wf(s: StoreView) -> bool {
    &&& records_unique(s.records)
    &&& issues_unique(s.issues)
    &&& tasks_unique(queue_tasks(s.queue))
    &&& rows_reference_issues(s)
    &&& emails_unique(s.subscribers)
}

/// An open transaction's writes: tasks only beside an issue, all for it, none twice.
pub open spec fn txn_wf(t: TxnView) -> bool {
    &&& t.issue is None ==> t.tasks.len() == 0
    &&& forall|i: int| 0 <= i < t.tasks.len() ==> (#[trigger] t.tasks[i]).issue_id == t.issue->0.id
    &&& tasks_unique(t.tasks)
}

// ------------------------------------------------------------------- gateway

pub open spec fn claimed(s: StoreView, actor_id: u128, key: Seq<char>) -> bool {
    exists|i: int| 0 <= i < s.records.len() && is_record_of(#[trigger] s.records[i], actor_id, key)
}

pub open spec fn record_index(s: StoreView, actor_id: u128, key: Seq<char>) -> int {
    choose|i: int| 0 <= i < s.records.len() && is_record_of(#[trigger] s.records[i], actor_id, key)
}

pub open spec fn record_of(s: StoreView, actor_id: u128, key: Seq<char>) -> RecordView {
    s.records[record_index(s, actor_id, key)]
}

/// The claim is held by an owner that has not answered yet.
pub open spec fn pending(s: StoreView, actor_id: u128, key: Seq<char>) -> bool {
    claimed(s, actor_id, key) && record_of(s, actor_id, key).response is None
}

/// Insert-if-absent of the key's record; otherwise report what the record holds.
pub open spec fn claim_step(s: StoreView, actor_id: u128, key: Seq<char>, now: u64) -> (
    StoreView,
    ClaimView,
) {
    if !claimed(s, actor_id, key) {
        (
            StoreView {
                records: s.records.push(
                    RecordView { actor_id, key, created_at: now, response: None },
                ),
                ..s
            },
            ClaimView::Owner,
        )
    } else {
        match record_of(s, actor_id, key).response {
            Some(resp) => (s, ClaimView::Replay(resp)),
            None => (s, ClaimView::InProgress),
        }
    }
}

pub open spec fn fresh_txn(actor_id: u128, key: Seq<char>) -> TxnView {
    TxnView { actor_id, key, issue: None, tasks: Seq::empty() }
}

/// Abandoning an owner's transaction drops its unanswered claim.
pub open spec fn rollback_step(s: StoreView, actor_id: u128, key: Seq<char>) -> StoreView {
    if pending(s, actor_id, key) {
        StoreView { records: s.records.remove(record_index(s, actor_id, key)), ..s }
    } else {
        s
    }
}

/// Committing attaches the response to the claim and makes the issue and its
/// tasks visible, all at once; on failure the whole transaction rolls back.
pub open spec fn commit_step(s: StoreView, t: TxnView, resp: ResponseView) -> Result<
    StoreView,
    StoreError,
> {
    if !pending(s, t.actor_id, t.key) {
        Err(StoreError::ClaimMissing)
    } else if t.issue is Some && issue_exists(s.issues, t.issue->0.id) {
        Err(StoreError::DuplicateIssueId)
    } else {
        let i = record_index(s, t.actor_id, t.key);
        Ok(
            StoreView {
                records: s.records.update(i, RecordView { response: Some(resp), ..s.records[i] }),
                issues: match t.issue {
                    Some(issue) => s.issues.push(issue),
                    None => s.issues,
                },
                queue: s.queue + t.tasks.map_values(|task: TaskView| RowView { task, locked: false }),
                subscribers: s.subscribers,
            },
        )
    }
}

// ------------------------------------------------------------------ enqueuer

/// Addresses of the confirmed subscribers, in table order.
pub open spec fn confirmed_emails(subs: Seq<SubscriberView>) -> Seq<Seq<char>>
    decreases subs.len(),
{
    if subs.len() == 0 {
        Seq::empty()
    } else {
        let rest = confirmed_emails(subs.drop_last());
        if subs.last().confirmed {
            rest.push(subs.last().email)
        } else {
            rest
        }
    }
}

pub open spec fn tasks_for(issue_id: u128, emails: Seq<Seq<char>>) -> Seq<TaskView> {
    emails.map_values(|e: Seq<char>| TaskView { issue_id, recipient: e })
}

/// Recording an issue inside the owner's transaction, with one task per
/// confirmed subscriber.
pub open spec fn publish_step(s: StoreView, t: TxnView, issue: IssueView) -> Result<
    TxnView,
    StoreError,
> {
    if t.issue is Some {
        Err(StoreError::IssueAlreadyPublished)
    } else if issue_exists(s.issues, issue.id) {
        Err(StoreError::DuplicateIssueId)
    } else {
        Ok(
            TxnView {
                issue: Some(issue),
                tasks: tasks_for(issue.id, confirmed_emails(s.subscribers)),
                ..t
            },
        )
    }
}

// -------------------------------------------------------------------- worker

pub open spec fn is_first_unlocked(q: Seq<RowView>, i: int) -> bool {
    &&& 0 <= i < q.len()
    &&& !q[i].locked
    &&& forall|j: int| 0 <= j < i ==> (#[trigger] q[j]).locked
}

pub open spec fn has_unlocked(q: Seq<RowView>) -> bool {
    exists|i: int| 0 <= i < q.len() && !(#[trigger] q[i]).locked
}

pub open spec fn first_unlocked(q: Seq<RowView>) -> int {
    choose|i: int| is_first_unlocked(q, i)
}

pub open spec fn issue_index(issues: Seq<IssueView>, id: u128) -> int {
    choose|j: int| 0 <= j < issues.len() && (#[trigger] issues[j]).id == id
}

pub open spec fn job_of(task: TaskView, issue: IssueView) -> JobView {
    JobView {
        task,
        title: issue.title,
        html_body: issue.html_body,
        text_body: issue.text_body,
    }
}

/// Lock the first row that no worker holds, and hand it out with its issue.
pub open spec fn dequeue_step(s: StoreView) -> (StoreView, Option<JobView>) {
    if !has_unlocked(s.queue) {
        (s, None)
    } else {
        let i = first_unlocked(s.queue);
        let task = s.queue[i].task;
        (
            StoreView { queue: s.queue.update(i, RowView { task, locked: true }), ..s },
            Some(job_of(task, s.issues[issue_index(s.issues, task.issue_id)])),
        )
    }
}

pub open spec fn has_task(q: Seq<RowView>, task: TaskView) -> bool {
    exists|i: int| 0 <= i < q.len() && (#[trigger] q[i]).task == task
}

pub open spec fn task_index(q: Seq<RowView>, task: TaskView) -> int {
    choose|i: int| 0 <= i < q.len() && (#[trigger] q[i]).task == task
}

/// Delete the row once it is done with; release it for a retry otherwise.
pub open spec fn complete_step(s: StoreView, task: TaskView, result: DeliveryResult) -> Result<
    (StoreView, ExecutionOutcome),
    StoreError,
> {
    if !has_task(s.queue, task) {
        Err(StoreError::TaskMissing)
    } else {
        let i = task_index(s.queue, task);
        match result {
            DeliveryResult::Failed => Ok(
                (
                    StoreView { queue: s.queue.update(i, RowView { task, locked: false }), ..s },
                    ExecutionOutcome::TaskFailed,
                ),
            ),
            _ => Ok(
                (StoreView { queue: s.queue.remove(i), ..s }, ExecutionOutcome::TaskCompleted),
            ),
        }
    }
}

} // verus!
