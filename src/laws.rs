//! Properties of the protocol that hold across several operations.

use vstd::prelude::*;
use crate::model::{
    claim_step, claimed, commit_step, complete_step, confirmed_emails, dequeue_step, emails_unique,
    fresh_txn, has_task, txn_wf,
    first_unlocked, has_unlocked, record_of, is_first_unlocked, is_record_of, pending, publish_step, queue_tasks, record_index,
    records_unique, rollback_step,
    store_wf, task_index, tasks_for, tasks_unique, ClaimView, DeliveryResult, IssueView, RowView,
    StoreView, SubscriberView, TaskView, TxnView,
};
use crate::response::ResponseView;

verus! {

/// In a store with unique records, the record found for a key is the one at
/// any position that matches it.
proof fn lemma_record_index(s: StoreView, actor_id: u128, key: Seq<char>, i: int)
    requires
        records_unique(s.records),
        0 <= i < s.records.len(),
        is_record_of(s.records[i], actor_id, key),
    ensures
        claimed(s, actor_id, key),
        record_index(s, actor_id, key) == i,
{
    let k = record_index(s, actor_id, key);
    assert(is_record_of(s.records[k], actor_id, key));
    if k != i {
        assert(!is_record_of(s.records[k], s.records[i].actor_id, s.records[i].key));
    }
}

/// A key that has been claimed is never claimed again: a further attempt
/// changes nothing and does not become the owner.
pub proof fn lemma_claim_is_exclusive(s: StoreView, actor_id: u128, key: Seq<char>, now: u64)
    requires
        claimed(s, actor_id, key),
    ensures
        claim_step(s, actor_id, key, now).0 == s,
        claim_step(s, actor_id, key, now).1 != ClaimView::Owner,
{
}

/// Outcomes of `now.len()` claim attempts on one key, made one after another.
pub open spec fn owners_among(s: StoreView, actor_id: u128, key: Seq<char>, now: Seq<u64>) -> nat
    decreases now.len(),
{
    if now.len() == 0 {
        0
    } else {
        let (s1, c) = claim_step(s, actor_id, key, now[0]);
        (if c == ClaimView::Owner {
            1nat
        } else {
            0nat
        }) + owners_among(s1, actor_id, key, now.drop_first())
    }
}

/// However many times one key is submitted, at most one submission becomes
/// its owner and runs the command.
pub proof fn lemma_at_most_one_owner(s: StoreView, actor_id: u128, key: Seq<char>, now: Seq<u64>)
    ensures
        owners_among(s, actor_id, key, now) <= 1,
        claimed(s, actor_id, key) ==> owners_among(s, actor_id, key, now) == 0,
    decreases now.len(),
{
    if now.len() > 0 {
        let (s1, c) = claim_step(s, actor_id, key, now[0]);
        if !claimed(s, actor_id, key) {
            let n = s.records.len() as int;
            assert(is_record_of(s1.records[n], actor_id, key));
            assert(claimed(s1, actor_id, key));
        }
        lemma_at_most_one_owner(s1, actor_id, key, now.drop_first());
    }
}

/// The store after `now.len()` claim attempts on one key, one after another.
pub open spec fn after_claims(s: StoreView, actor_id: u128, key: Seq<char>, now: Seq<u64>) -> StoreView
    decreases now.len(),
{
    if now.len() == 0 {
        s
    } else {
        after_claims(claim_step(s, actor_id, key, now[0]).0, actor_id, key, now.drop_first())
    }
}

/// Attempts on a key that is claimed already change nothing.
proof fn lemma_claims_on_claimed_key(s: StoreView, actor_id: u128, key: Seq<char>, now: Seq<u64>)
    requires
        claimed(s, actor_id, key),
    ensures
        after_claims(s, actor_id, key, now) == s,
        owners_among(s, actor_id, key, now) == 0,
    decreases now.len(),
{
    lemma_at_most_one_owner(s, actor_id, key, now);
    if now.len() > 0 {
        lemma_claims_on_claimed_key(s, actor_id, key, now.drop_first());
    }
}

/// A publish command submitted under one key, its first submission run to
/// commit, and the key submitted any number of times more: the store holds
/// exactly one new issue and one queue row per confirmed subscriber, and
/// none of the later submissions becomes an owner or changes anything.
pub proof fn lemma_one_issue_per_key(
    s: StoreView,
    actor_id: u128,
    key: Seq<char>,
    now: u64,
    issue: IssueView,
    resp: ResponseView,
    later: Seq<u64>,
)
    requires
        !claimed(s, actor_id, key),
        publish_step(claim_step(s, actor_id, key, now).0, fresh_txn(actor_id, key), issue) is Ok,
        commit_step(
            claim_step(s, actor_id, key, now).0,
            publish_step(claim_step(s, actor_id, key, now).0, fresh_txn(actor_id, key), issue)->Ok_0,
            resp,
        ) is Ok,
    ensures
        claim_step(s, actor_id, key, now).1 == ClaimView::Owner,
        ({
            let s1 = claim_step(s, actor_id, key, now).0;
            let s2 = commit_step(s1, publish_step(s1, fresh_txn(actor_id, key), issue)->Ok_0, resp)->Ok_0;
            &&& s2.issues == s.issues.push(issue)
            &&& queue_tasks(s2.queue) == queue_tasks(s.queue) + tasks_for(
                issue.id,
                confirmed_emails(s.subscribers),
            )
            &&& owners_among(s2, actor_id, key, later) == 0
            &&& after_claims(s2, actor_id, key, later) == s2
        }),
{
    let s1 = claim_step(s, actor_id, key, now).0;
    let t = publish_step(s1, fresh_txn(actor_id, key), issue)->Ok_0;
    let s2 = commit_step(s1, t, resp)->Ok_0;
    assert(queue_tasks(s2.queue) =~= queue_tasks(s1.queue) + t.tasks);
    let i = record_index(s1, actor_id, key);
    assert(is_record_of(s2.records[i], actor_id, key));
    lemma_claims_on_claimed_key(s2, actor_id, key, later);
}

/// After the owner commits its response, every later submission of the key
/// is answered with exactly that response, and changes nothing.
pub proof fn lemma_replay_returns_saved_response(
    s: StoreView,
    t: TxnView,
    resp: ResponseView,
    now: u64,
)
    requires
        store_wf(s),
        commit_step(s, t, resp) is Ok,
    ensures
        claim_step(commit_step(s, t, resp)->Ok_0, t.actor_id, t.key, now) == (
            commit_step(s, t, resp)->Ok_0,
            ClaimView::Replay(resp),
        ),
{
    let s2 = commit_step(s, t, resp)->Ok_0;
    let i = record_index(s, t.actor_id, t.key);
    assert(is_record_of(s.records[i], t.actor_id, t.key));
    assert(is_record_of(s2.records[i], t.actor_id, t.key));
    assert(records_unique(s2.records)) by {
        assert forall|a: int, b: int|
            0 <= a < s2.records.len() && 0 <= b < s2.records.len() && a != b implies !is_record_of(
                #[trigger] s2.records[a],
                (#[trigger] s2.records[b]).actor_id,
                s2.records[b].key,
            ) by {
            assert(!is_record_of(s.records[a], s.records[b].actor_id, s.records[b].key));
        }
    }
    lemma_record_index(s2, t.actor_id, t.key, i);
}

/// Without confirmed subscribers nobody is confirmed.
proof fn lemma_no_confirmed(subs: Seq<SubscriberView>)
    requires
        forall|i: int| 0 <= i < subs.len() ==> !(#[trigger] subs[i]).confirmed,
    ensures
        confirmed_emails(subs).len() == 0,
    decreases subs.len(),
{
    if subs.len() > 0 {
        assert forall|i: int| 0 <= i < subs.drop_last().len() implies !(
        #[trigger] subs.drop_last()[i]).confirmed by {
            assert(subs.drop_last()[i] == subs[i]);
        }
        lemma_no_confirmed(subs.drop_last());
    }
}

/// With no confirmed subscriber, publishing still succeeds on a fresh
/// transaction and identifier, and its commit queues no delivery at all.
pub proof fn lemma_no_subscribers_no_deliveries(
    s: StoreView,
    t: TxnView,
    issue: IssueView,
    resp: ResponseView,
)
    requires
        store_wf(s),
        t.issue is None,
        !crate::model::issue_exists(s.issues, issue.id),
        pending(s, t.actor_id, t.key),
        forall|i: int| 0 <= i < s.subscribers.len() ==> !(#[trigger] s.subscribers[i]).confirmed,
    ensures
        publish_step(s, t, issue) is Ok,
        publish_step(s, t, issue)->Ok_0.tasks.len() == 0,
        commit_step(s, publish_step(s, t, issue)->Ok_0, resp) is Ok,
        commit_step(s, publish_step(s, t, issue)->Ok_0, resp)->Ok_0.queue == s.queue,
{
    lemma_no_confirmed(s.subscribers);
    let t2 = publish_step(s, t, issue)->Ok_0;
    let s2 = commit_step(s, t2, resp)->Ok_0;
    assert(t2.tasks.map_values(|task: TaskView| RowView { task, locked: false }) =~= Seq::empty());
    assert(s2.queue =~= s.queue);
}

/// A task whose row is gone is never handed out again, and no step of a
/// worker brings it back.
pub proof fn lemma_done_task_stays_done(s: StoreView, task: TaskView, other: TaskView, result: DeliveryResult)
    requires
        !has_task(s.queue, task),
    ensures
        dequeue_step(s).1 is Some ==> dequeue_step(s).1->0.task != task,
        !has_task(dequeue_step(s).0.queue, task),
        complete_step(s, other, result) is Ok ==> !has_task(
            complete_step(s, other, result)->Ok_0.0.queue,
            task,
        ),
{
    if has_unlocked(s.queue) {
        let i = first_unlocked(s.queue);
        let q = dequeue_step(s).0.queue;
        assert(is_first_unlocked(s.queue, i)) by {
            let w = choose|w: int| 0 <= w < s.queue.len() && !(#[trigger] s.queue[w]).locked;
            lemma_first_unlocked_exists(s.queue, w);
        }
        assert(s.queue[i].task != task);
        assert forall|j: int| 0 <= j < q.len() implies (#[trigger] q[j]).task != task by {
            assert(q[j].task == s.queue[j].task);
        }
    }
    if complete_step(s, other, result) is Ok {
        let q = complete_step(s, other, result)->Ok_0.0.queue;
        let i = task_index(s.queue, other);
        assert forall|j: int| 0 <= j < q.len() implies (#[trigger] q[j]).task != task by {
            if result == DeliveryResult::Failed {
                assert(q[j].task == s.queue[j].task);
            } else if j < i {
                assert(q[j] == s.queue[j]);
            } else {
                assert(q[j] == s.queue[j + 1]);
            }
        }
    }
}

/// If some row is free, there is a first free row.
proof fn lemma_first_unlocked_exists(q: Seq<RowView>, w: int)
    requires
        0 <= w < q.len(),
        !q[w].locked,
    ensures
        exists|i: int| is_first_unlocked(q, i),
    decreases w,
{
    if forall|j: int| 0 <= j < w ==> (#[trigger] q[j]).locked {
        assert(is_first_unlocked(q, w));
    } else {
        let v = choose|j: int| 0 <= j < w && !(#[trigger] q[j]).locked;
        lemma_first_unlocked_exists(q, v);
    }
}

/// When the send to one recipient fails and the send to another succeeds,
/// the failed task stays queued and free for the next attempt of any worker,
/// while the delivered one is gone and is never handed out again.
pub proof fn lemma_failure_is_isolated(s: StoreView, failed: TaskView, sent: TaskView)
    requires
        store_wf(s),
        has_task(s.queue, failed),
        has_task(s.queue, sent),
        failed != sent,
    ensures
        complete_step(s, failed, DeliveryResult::Failed) is Ok,
        ({
            let s1 = complete_step(s, failed, DeliveryResult::Failed)->Ok_0.0;
            &&& complete_step(s1, sent, DeliveryResult::Sent) is Ok
            &&& {
                let s2 = complete_step(s1, sent, DeliveryResult::Sent)->Ok_0.0;
                &&& has_task(s2.queue, failed)
                &&& !s2.queue[task_index(s2.queue, failed)].locked
                &&& !has_task(s2.queue, sent)
            }
        }),
{
    let i = task_index(s.queue, failed);
    let s1 = complete_step(s, failed, DeliveryResult::Failed)->Ok_0.0;
    let js = task_index(s.queue, sent);
    assert(s1.queue[js].task == sent);
    assert(tasks_unique(queue_tasks(s1.queue))) by {
        assert(queue_tasks(s1.queue) =~= queue_tasks(s.queue));
    }
    let j = task_index(s1.queue, sent);
    let s2 = complete_step(s1, sent, DeliveryResult::Sent)->Ok_0.0;
    assert(s1.queue[i].task == failed);
    assert(i != j) by {
        assert(s1.queue[j].task == sent);
    }
    let k = if i < j { i } else { i - 1 };
    assert(s2.queue[k] == s1.queue[i]);
    assert(has_task(s2.queue, failed));
    let m = task_index(s2.queue, failed);
    assert(queue_tasks(s2.queue) =~= queue_tasks(s1.queue).remove(j));
    if m != k {
        let qt = queue_tasks(s2.queue);
        assert(qt[m] == s2.queue[m].task);
        assert(qt[k] == s2.queue[k].task);
        let om = if m < j { m } else { m + 1 };
        let ok = if k < j { k } else { k + 1 };
        assert(queue_tasks(s1.queue)[om] == qt[m]);
        assert(queue_tasks(s1.queue)[ok] == qt[k]);
    }
    assert forall|x: int| 0 <= x < s2.queue.len() implies (#[trigger] s2.queue[x]).task != sent by {
        let ox = if x < j { x } else { x + 1 };
        assert(s2.queue[x] == s1.queue[ox]);
        assert(queue_tasks(s1.queue)[ox] == s1.queue[ox].task);
        assert(queue_tasks(s1.queue)[j] == s1.queue[j].task);
    }
}

/// An owner that fails before committing leaves no trace: rolling back its
/// transaction restores the store as it was before the claim, so a retry of
/// the request can claim the key afresh.
pub proof fn lemma_rollback_leaves_no_trace(s: StoreView, actor_id: u128, key: Seq<char>, now: u64)
    requires
        store_wf(s),
        !claimed(s, actor_id, key),
    ensures
        rollback_step(claim_step(s, actor_id, key, now).0, actor_id, key) == s,
{
    let s1 = claim_step(s, actor_id, key, now).0;
    let n = s.records.len() as int;
    assert(records_unique(s1.records)) by {
        assert forall|a: int, b: int|
            0 <= a < s1.records.len() && 0 <= b < s1.records.len() && a != b implies !is_record_of(
                #[trigger] s1.records[a],
                (#[trigger] s1.records[b]).actor_id,
                s1.records[b].key,
            ) by {
            if a < n && b < n {
                assert(s1.records[a] == s.records[a]);
                assert(s1.records[b] == s.records[b]);
            } else if a < n {
                assert(s1.records[a] == s.records[a]);
            } else {
                assert(s1.records[b] == s.records[b]);
            }
        }
    }
    lemma_record_index(s1, actor_id, key, n);
    assert(s1.records.remove(n) =~= s.records);
}

/// Two workers polling one after the other never receive the same task:
/// the first one's row stays locked until it settles it.
pub proof fn lemma_workers_take_distinct_tasks(s: StoreView)
    requires
        store_wf(s),
        dequeue_step(s).1 is Some,
        dequeue_step(dequeue_step(s).0).1 is Some,
    ensures
        dequeue_step(s).1->0.task != dequeue_step(dequeue_step(s).0).1->0.task,
{
    let s1 = dequeue_step(s).0;
    let w = choose|w: int| 0 <= w < s.queue.len() && !(#[trigger] s.queue[w]).locked;
    lemma_first_unlocked_exists(s.queue, w);
    let i = first_unlocked(s.queue);
    assert(s1.queue[i].locked);
    let w1 = choose|w: int| 0 <= w < s1.queue.len() && !(#[trigger] s1.queue[w]).locked;
    lemma_first_unlocked_exists(s1.queue, w1);
    let j = first_unlocked(s1.queue);
    assert(i != j);
    assert(s1.queue[j].task == s.queue[j].task);
    let qt = queue_tasks(s.queue);
    assert(qt[i] == s.queue[i].task);
    assert(qt[j] == s.queue[j].task);
}

/// The worker loop when every send succeeds, for at most `fuel` attempts:
/// the final store and the tasks delivered, in order.
pub open spec fn deliver_all(s: StoreView, fuel: nat) -> (StoreView, Seq<TaskView>)
    decreases fuel,
{
    if fuel == 0 {
        (s, Seq::empty())
    } else {
        match dequeue_step(s) {
            (_, None) => (s, Seq::empty()),
            (s1, Some(job)) => match complete_step(s1, job.task, DeliveryResult::Sent) {
                Ok((s2, _)) => {
                    let (s3, rest) = deliver_all(s2, (fuel - 1) as nat);
                    (s3, seq![job.task] + rest)
                },
                Err(_) => (s1, Seq::empty()),
            },
        }
    }
}

pub open spec fn all_free(q: Seq<RowView>) -> bool {
    forall|i: int| 0 <= i < q.len() ==> !(#[trigger] q[i]).locked
}

/// With no worker holding a row, a run of the loop in which every send
/// succeeds delivers each queued task once, in queue order, and empties the
/// queue.
pub proof fn lemma_idle_queue_delivered_once(s: StoreView, fuel: nat)
    requires
        store_wf(s),
        all_free(s.queue),
        fuel >= s.queue.len(),
    ensures
        deliver_all(s, fuel) == (StoreView { queue: Seq::empty(), ..s }, queue_tasks(s.queue)),
    decreases fuel,
{
    let q = s.queue;
    if q.len() == 0 {
        assert(!has_unlocked(q));
        assert(queue_tasks(q) =~= Seq::empty());
        assert(q =~= Seq::empty());
        if fuel > 0 {
            assert(dequeue_step(s).1 is None);
        }
    } else {
        assert(is_first_unlocked(q, 0));
        assert(has_unlocked(q));
        let i = first_unlocked(q);
        if i != 0 {
            assert(q[0].locked);
        }
        let t = q[0].task;
        let s1 = dequeue_step(s).0;
        assert(s1.queue == q.update(0, RowView { task: t, locked: true }));
        assert(queue_tasks(s1.queue) =~= queue_tasks(q));
        assert(s1.queue[0].task == t);
        assert(has_task(s1.queue, t));
        let k = task_index(s1.queue, t);
        if k != 0 {
            assert(queue_tasks(q)[k] == s1.queue[k].task);
            assert(queue_tasks(q)[0] == t);
        }
        let s2 = complete_step(s1, t, DeliveryResult::Sent)->Ok_0.0;
        assert(s2.queue =~= q.drop_first());
        let qt = queue_tasks(q);
        let q2 = queue_tasks(s2.queue);
        assert(q2 =~= qt.drop_first());
        assert(store_wf(s2)) by {
            assert forall|a: int, b: int|
                0 <= a < q2.len() && 0 <= b < q2.len() && a != b implies #[trigger] q2[a]
                    != #[trigger] q2[b] by {
                assert(q2[a] == qt[a + 1]);
                assert(q2[b] == qt[b + 1]);
            }
            assert forall|a: int| 0 <= a < s2.queue.len() implies crate::model::issue_exists(
                s2.issues,
                (#[trigger] s2.queue[a]).task.issue_id,
            ) by {
                assert(s2.queue[a] == q[a + 1]);
            }
        }
        assert(all_free(s2.queue)) by {
            assert forall|a: int| 0 <= a < s2.queue.len() implies !(#[trigger] s2.queue[a]).locked by {
                assert(s2.queue[a] == q[a + 1]);
            }
        }
        lemma_idle_queue_delivered_once(s2, (fuel - 1) as nat);
        assert(seq![t] + q2 =~= qt);
        assert(StoreView { queue: Seq::empty(), ..s2 } == StoreView { queue: Seq::empty(), ..s });
    }
}

/// Settling a task keeps the store's integrity constraints.
proof fn lemma_complete_keeps_wf(s: StoreView, task: TaskView, result: DeliveryResult)
    requires
        store_wf(s),
        has_task(s.queue, task),
    ensures
        store_wf(complete_step(s, task, result)->Ok_0.0),
{
    let s2 = complete_step(s, task, result)->Ok_0.0;
    let i = task_index(s.queue, task);
    let qt = queue_tasks(s.queue);
    let q2 = queue_tasks(s2.queue);
    let shift = |a: int| if result == DeliveryResult::Failed || a < i { a } else { a + 1 };
    assert forall|a: int| 0 <= a < s2.queue.len() implies (#[trigger] s2.queue[a]).task == s.queue[shift(a)].task by {}
    assert forall|a: int, b: int|
        0 <= a < q2.len() && 0 <= b < q2.len() && a != b implies #[trigger] q2[a]
            != #[trigger] q2[b] by {
        assert(q2[a] == s2.queue[a].task);
        assert(q2[b] == s2.queue[b].task);
        assert(qt[shift(a)] == s.queue[shift(a)].task);
        assert(qt[shift(b)] == s.queue[shift(b)].task);
    }
    assert forall|a: int| 0 <= a < s2.queue.len() implies crate::model::issue_exists(
        s2.issues,
        (#[trigger] s2.queue[a]).task.issue_id,
    ) by {
        assert(crate::model::issue_exists(s.issues, s.queue[shift(a)].task.issue_id));
    }
}

/// When the send to one recipient fails and the send to another succeeds,
/// and no other worker holds a row, running the worker loop again with
/// every send succeeding delivers the first recipient's task exactly once
/// and the second one's not at all.
pub proof fn lemma_rerun_after_partial_failure(s: StoreView, failed: TaskView, sent: TaskView, fuel: nat)
    requires
        store_wf(s),
        has_task(s.queue, failed),
        has_task(s.queue, sent),
        failed != sent,
        forall|i: int|
            0 <= i < s.queue.len() && (#[trigger] s.queue[i]).task != failed && s.queue[i].task
                != sent ==> !s.queue[i].locked,
        fuel >= s.queue.len(),
    ensures
        ({
            let s1 = complete_step(s, failed, DeliveryResult::Failed)->Ok_0.0;
            let s2 = complete_step(s1, sent, DeliveryResult::Sent)->Ok_0.0;
            let delivered = deliver_all(s2, fuel).1;
            &&& exists|i: int|
                0 <= i < delivered.len() && delivered[i] == failed && forall|j: int|
                    0 <= j < delivered.len() && j != i ==> #[trigger] delivered[j] != failed
            &&& forall|j: int| 0 <= j < delivered.len() ==> #[trigger] delivered[j] != sent
        }),
{
    lemma_failure_is_isolated(s, failed, sent);
    let s1 = complete_step(s, failed, DeliveryResult::Failed)->Ok_0.0;
    lemma_complete_keeps_wf(s, failed, DeliveryResult::Failed);
    let fi = task_index(s.queue, failed);
    let js = task_index(s.queue, sent);
    assert(s1.queue[js].task == sent);
    lemma_complete_keeps_wf(s1, sent, DeliveryResult::Sent);
    let s2 = complete_step(s1, sent, DeliveryResult::Sent)->Ok_0.0;
    let j = task_index(s1.queue, sent);
    assert(all_free(s1.queue.remove(j))) by {
        assert forall|a: int| 0 <= a < s1.queue.len() - 1 implies !(#[trigger] s1.queue.remove(j)[a]).locked by {
            let oa = if a < j { a } else { a + 1 };
            assert(s1.queue.remove(j)[a] == s1.queue[oa]);
            if oa != fi {
                assert(s1.queue[oa] == s.queue[oa]);
                if s.queue[oa].task == failed {
                    let qt = queue_tasks(s.queue);
                    assert(qt[oa] == s.queue[oa].task);
                    assert(qt[fi] == s.queue[fi].task);
                }
                if s.queue[oa].task == sent {
                    let q1 = queue_tasks(s1.queue);
                    assert(q1[oa] == s1.queue[oa].task);
                    assert(q1[j] == s1.queue[j].task);
                }
            }
        }
    }
    assert(s2.queue == s1.queue.remove(j));
    lemma_idle_queue_delivered_once(s2, fuel);
    let delivered = deliver_all(s2, fuel).1;
    assert(delivered == queue_tasks(s2.queue));
    let m = task_index(s2.queue, failed);
    assert(delivered[m] == failed);
    assert forall|x: int| 0 <= x < delivered.len() && x != m implies #[trigger] delivered[x] != failed by {
        assert(delivered[x] == s2.queue[x].task);
    }
    assert forall|x: int| 0 <= x < delivered.len() implies #[trigger] delivered[x] != sent by {
        assert(delivered[x] == s2.queue[x].task);
    }
}

/// The confirmed addresses are addresses of subscribers, none twice.
proof fn lemma_confirmed_emails_distinct(subs: Seq<SubscriberView>)
    requires
        emails_unique(subs),
    ensures
        forall|a: int, b: int|
            0 <= a < confirmed_emails(subs).len() && 0 <= b < confirmed_emails(subs).len() && a
                != b ==> #[trigger] confirmed_emails(subs)[a] != #[trigger] confirmed_emails(
                subs,
            )[b],
        forall|a: int|
            0 <= a < confirmed_emails(subs).len() ==> exists|m: int|
                0 <= m < subs.len() && (#[trigger] confirmed_emails(subs)[a]) == (
                #[trigger] subs[m]).email,
    decreases subs.len(),
{
    if subs.len() > 0 {
        let init = subs.drop_last();
        assert(emails_unique(init)) by {
            assert forall|a: int, b: int|
                0 <= a < init.len() && 0 <= b < init.len() && a != b implies (
                #[trigger] init[a]).email != (#[trigger] init[b]).email by {
                assert(init[a] == subs[a]);
                assert(init[b] == subs[b]);
            }
        }
        lemma_confirmed_emails_distinct(init);
        let rest = confirmed_emails(init);
        let all = confirmed_emails(subs);
        let last = subs.len() - 1;
        assert forall|a: int|
            0 <= a < rest.len() implies exists|m: int|
                0 <= m < last && (#[trigger] rest[a]) == (#[trigger] subs[m]).email by {
            let m = choose|m: int| 0 <= m < init.len() && (#[trigger] rest[a]) == (#[trigger] init[m]).email;
            assert(init[m] == subs[m]);
        }
        if subs.last().confirmed {
            assert(all == rest.push(subs[last].email));
            assert forall|a: int, b: int|
                0 <= a < all.len() && 0 <= b < all.len() && a != b implies #[trigger] all[a]
                    != #[trigger] all[b] by {
                if a < rest.len() && b < rest.len() {
                    assert(all[a] == rest[a]);
                    assert(all[b] == rest[b]);
                } else if a < rest.len() {
                    let m = choose|m: int| 0 <= m < last && (#[trigger] rest[a]) == (#[trigger] subs[m]).email;
                    assert(subs[m].email != subs[last].email);
                } else {
                    let m = choose|m: int| 0 <= m < last && (#[trigger] rest[b]) == (#[trigger] subs[m]).email;
                    assert(subs[m].email != subs[last].email);
                }
            }
            assert forall|a: int| 0 <= a < all.len() implies exists|m: int|
                0 <= m < subs.len() && (#[trigger] all[a]) == (#[trigger] subs[m]).email by {
                if a < rest.len() {
                    let m = choose|m: int| 0 <= m < last && (#[trigger] rest[a]) == (#[trigger] subs[m]).email;
                    assert(all[a] == subs[m].email);
                } else {
                    assert(all[a] == subs[last].email);
                }
            }
        } else {
            assert forall|a: int| 0 <= a < all.len() implies exists|m: int|
                0 <= m < subs.len() && (#[trigger] all[a]) == (#[trigger] subs[m]).email by {
                let m = choose|m: int| 0 <= m < last && (#[trigger] rest[a]) == (#[trigger] subs[m]).email;
                assert(all[a] == subs[m].email);
            }
        }
    }
}

/// A published transaction's tasks belong to its issue, none twice.
proof fn lemma_publish_txn_wf(s: StoreView, t: TxnView, issue: IssueView)
    requires
        store_wf(s),
        publish_step(s, t, issue) is Ok,
    ensures
        txn_wf(publish_step(s, t, issue)->Ok_0),
{
    lemma_confirmed_emails_distinct(s.subscribers);
    let t2 = publish_step(s, t, issue)->Ok_0;
    let es = confirmed_emails(s.subscribers);
    assert forall|a: int, b: int|
        0 <= a < t2.tasks.len() && 0 <= b < t2.tasks.len() && a != b implies #[trigger] t2.tasks[a]
            != #[trigger] t2.tasks[b] by {
        assert(t2.tasks[a].recipient == es[a]);
        assert(t2.tasks[b].recipient == es[b]);
    }
}

/// Claiming keeps the store's integrity constraints.
proof fn lemma_claim_keeps_wf(s: StoreView, actor_id: u128, key: Seq<char>, now: u64)
    requires
        store_wf(s),
    ensures
        store_wf(claim_step(s, actor_id, key, now).0),
{
    if !claimed(s, actor_id, key) {
        let s1 = claim_step(s, actor_id, key, now).0;
        let n = s.records.len() as int;
        assert forall|a: int, b: int|
            0 <= a < s1.records.len() && 0 <= b < s1.records.len() && a != b implies !is_record_of(
                #[trigger] s1.records[a],
                (#[trigger] s1.records[b]).actor_id,
                s1.records[b].key,
            ) by {
            if a < n && b < n {
                assert(s1.records[a] == s.records[a]);
                assert(s1.records[b] == s.records[b]);
            } else if a < n {
                assert(s1.records[a] == s.records[a]);
            } else {
                assert(s1.records[b] == s.records[b]);
            }
        }
    }
}

/// Committing keeps the store's integrity constraints.
proof fn lemma_commit_keeps_wf(s: StoreView, t: TxnView, resp: ResponseView)
    requires
        store_wf(s),
        txn_wf(t),
        commit_step(s, t, resp) is Ok,
    ensures
        store_wf(commit_step(s, t, resp)->Ok_0),
{
    let s2 = commit_step(s, t, resp)->Ok_0;
    let added = t.tasks.map_values(|task: TaskView| RowView { task, locked: false });
    assert forall|a: int, b: int|
        0 <= a < s2.records.len() && 0 <= b < s2.records.len() && a != b implies !is_record_of(
            #[trigger] s2.records[a],
            (#[trigger] s2.records[b]).actor_id,
            s2.records[b].key,
        ) by {
        assert(!is_record_of(s.records[a], s.records[b].actor_id, s.records[b].key));
    }
    assert forall|a: int, b: int|
        0 <= a < s2.issues.len() && 0 <= b < s2.issues.len() && a != b implies (
        #[trigger] s2.issues[a]).id != (#[trigger] s2.issues[b]).id by {
        if a < s.issues.len() && b < s.issues.len() {
            assert(s.issues[a] == s2.issues[a]);
            assert(s.issues[b] == s2.issues[b]);
        } else if a < s.issues.len() {
            assert(s.issues[a] == s2.issues[a]);
        } else {
            assert(s.issues[b] == s2.issues[b]);
        }
    }
    assert forall|a: int| 0 <= a < s2.queue.len() implies crate::model::issue_exists(
        s2.issues,
        (#[trigger] s2.queue[a]).task.issue_id,
    ) by {
        if a < s.queue.len() {
            assert(s2.queue[a] == s.queue[a]);
            let k = choose|k: int|
                0 <= k < s.issues.len() && (#[trigger] s.issues[k]).id == s.queue[a].task.issue_id;
            assert(s2.issues[k] == s.issues[k]);
        } else {
            let b = a - s.queue.len();
            assert(s2.queue[a] == added[b]);
            assert(t.tasks[b].issue_id == t.issue->0.id);
            assert(s2.issues[s.issues.len() as int] == t.issue->0);
        }
    }
    let qt = queue_tasks(s2.queue);
    let oq = queue_tasks(s.queue);
    assert forall|a: int, b: int|
        0 <= a < qt.len() && 0 <= b < qt.len() && a != b implies #[trigger] qt[a]
            != #[trigger] qt[b] by {
        if a < s.queue.len() && b < s.queue.len() {
            assert(qt[a] == oq[a]);
            assert(qt[b] == oq[b]);
        } else if a >= s.queue.len() && b >= s.queue.len() {
            assert(qt[a] == t.tasks[a - s.queue.len()]);
            assert(qt[b] == t.tasks[b - s.queue.len()]);
        } else {
            let (old_i, new_i) = if a < s.queue.len() { (a, b) } else { (b, a) };
            assert(qt[old_i] == s.queue[old_i].task);
            assert(qt[new_i] == t.tasks[new_i - s.queue.len()]);
            assert(crate::model::issue_exists(s.issues, s.queue[old_i].task.issue_id));
        }
    }
}

/// Publishing through one key, from a queue that no worker is busy with:
/// once the owner has committed, a run of the worker loop in which every
/// send succeeds sends the issue to each confirmed subscriber exactly once,
/// and any number of later submissions of the key leave nothing more to send.
pub proof fn lemma_publish_delivers_once_per_subscriber(
    s: StoreView,
    actor_id: u128,
    key: Seq<char>,
    now: u64,
    issue: IssueView,
    resp: ResponseView,
    later: Seq<u64>,
    fuel: nat,
)
    requires
        store_wf(s),
        s.queue.len() == 0,
        !claimed(s, actor_id, key),
        publish_step(claim_step(s, actor_id, key, now).0, fresh_txn(actor_id, key), issue) is Ok,
        commit_step(
            claim_step(s, actor_id, key, now).0,
            publish_step(claim_step(s, actor_id, key, now).0, fresh_txn(actor_id, key), issue)->Ok_0,
            resp,
        ) is Ok,
        fuel >= confirmed_emails(s.subscribers).len(),
    ensures
        ({
            let s1 = claim_step(s, actor_id, key, now).0;
            let s2 = commit_step(s1, publish_step(s1, fresh_txn(actor_id, key), issue)->Ok_0, resp)->Ok_0;
            let (s3, delivered) = deliver_all(s2, fuel);
            &&& delivered == tasks_for(issue.id, confirmed_emails(s.subscribers))
            &&& after_claims(s3, actor_id, key, later) == s3
            &&& owners_among(s3, actor_id, key, later) == 0
            &&& deliver_all(s3, fuel).1.len() == 0
        }),
{
    let s1 = claim_step(s, actor_id, key, now).0;
    let t = publish_step(s1, fresh_txn(actor_id, key), issue)->Ok_0;
    let s2 = commit_step(s1, t, resp)->Ok_0;
    lemma_one_issue_per_key(s, actor_id, key, now, issue, resp, later);
    lemma_claim_keeps_wf(s, actor_id, key, now);
    lemma_publish_txn_wf(s1, fresh_txn(actor_id, key), issue);
    lemma_commit_keeps_wf(s1, t, resp);
    assert(s2.queue =~= t.tasks.map_values(|task: TaskView| RowView { task, locked: false }));
    assert(all_free(s2.queue));
    assert(queue_tasks(s.queue) =~= Seq::empty());
    assert(queue_tasks(s2.queue) =~= tasks_for(issue.id, confirmed_emails(s.subscribers)));
    lemma_idle_queue_delivered_once(s2, fuel);
    let s3 = deliver_all(s2, fuel).0;
    assert(s3 == StoreView { queue: Seq::empty(), ..s2 });
    let i = record_index(s1, actor_id, key);
    assert(is_record_of(s3.records[i], actor_id, key));
    lemma_claims_on_claimed_key(s3, actor_id, key, later);
    assert(store_wf(s3)) by {
        assert(queue_tasks(s3.queue) =~= Seq::empty());
    }
    assert(all_free(s3.queue));
    lemma_idle_queue_delivered_once(s3, fuel);
    assert(queue_tasks(s3.queue) =~= Seq::empty());
}

/// A duplicate submission that arrives while the owner's transaction is open
/// is told to retry and changes nothing; once the owner has committed, the
/// retry is answered with exactly the owner's response.
pub proof fn lemma_waiting_duplicate_gets_owner_reply(
    s: StoreView,
    actor_id: u128,
    key: Seq<char>,
    now: u64,
    retry_at: u64,
    issue: IssueView,
    resp: ResponseView,
)
    requires
        store_wf(s),
        !claimed(s, actor_id, key),
        publish_step(claim_step(s, actor_id, key, now).0, fresh_txn(actor_id, key), issue) is Ok,
        commit_step(
            claim_step(s, actor_id, key, now).0,
            publish_step(claim_step(s, actor_id, key, now).0, fresh_txn(actor_id, key), issue)->Ok_0,
            resp,
        ) is Ok,
    ensures
        ({
            let s1 = claim_step(s, actor_id, key, now).0;
            let s2 = commit_step(s1, publish_step(s1, fresh_txn(actor_id, key), issue)->Ok_0, resp)->Ok_0;
            &&& claim_step(s1, actor_id, key, retry_at) == (s1, ClaimView::InProgress)
            &&& claim_step(s2, actor_id, key, retry_at) == (s2, ClaimView::Replay(resp))
        }),
{
    let s1 = claim_step(s, actor_id, key, now).0;
    let t = publish_step(s1, fresh_txn(actor_id, key), issue)->Ok_0;
    lemma_claim_keeps_wf(s, actor_id, key, now);
    let n = s.records.len() as int;
    assert(is_record_of(s1.records[n], actor_id, key));
    lemma_record_index(s1, actor_id, key, n);
    lemma_replay_returns_saved_response(s1, t, resp, retry_at);
}

/// The claim of `(actor_id, key)` has been answered with `resp`.
pub open spec fn answered(s: StoreView, actor_id: u128, key: Seq<char>, resp: ResponseView) -> bool {
    claimed(s, actor_id, key) && record_of(s, actor_id, key).response == Some(resp)
}

/// In a store with unique records, a record stays the answer for its key
/// when it keeps its position and the records stay unique.
proof fn lemma_answered_at(s: StoreView, actor_id: u128, key: Seq<char>, resp: ResponseView, i: int)
    requires
        records_unique(s.records),
        0 <= i < s.records.len(),
        is_record_of(s.records[i], actor_id, key),
        s.records[i].response == Some(resp),
    ensures
        answered(s, actor_id, key, resp),
{
    lemma_record_index(s, actor_id, key, i);
}

/// An answered claim is permanent: whatever other step runs in between, in
/// any interleaving of submissions, owners and workers (another claim, a
/// commit, a rollback, a dequeue or a settled task), the key keeps its
/// saved response, so it is never processed again.
pub proof fn lemma_answered_claim_is_permanent(
    s: StoreView,
    actor_id: u128,
    key: Seq<char>,
    resp: ResponseView,
    other_actor: u128,
    other_key: Seq<char>,
    now: u64,
    t: TxnView,
    other_resp: ResponseView,
    task: TaskView,
    result: DeliveryResult,
)
    requires
        store_wf(s),
        txn_wf(t),
        answered(s, actor_id, key, resp),
    ensures
        answered(claim_step(s, other_actor, other_key, now).0, actor_id, key, resp),
        commit_step(s, t, other_resp) is Ok ==> answered(
            commit_step(s, t, other_resp)->Ok_0,
            actor_id,
            key,
            resp,
        ),
        answered(rollback_step(s, other_actor, other_key), actor_id, key, resp),
        answered(dequeue_step(s).0, actor_id, key, resp),
        complete_step(s, task, result) is Ok ==> answered(
            complete_step(s, task, result)->Ok_0.0,
            actor_id,
            key,
            resp,
        ),
{
    let i = record_index(s, actor_id, key);
    assert(is_record_of(s.records[i], actor_id, key));
    // another claim
    let c = claim_step(s, other_actor, other_key, now).0;
    lemma_claim_keeps_wf(s, other_actor, other_key, now);
    if !claimed(s, other_actor, other_key) {
        assert(c.records[i] == s.records[i]);
    }
    lemma_answered_at(c, actor_id, key, resp, i);
    // a commit
    if commit_step(s, t, other_resp) is Ok {
        let c2 = commit_step(s, t, other_resp)->Ok_0;
        lemma_commit_keeps_wf(s, t, other_resp);
        let j = record_index(s, t.actor_id, t.key);
        assert(is_record_of(s.records[j], t.actor_id, t.key));
        assert(j != i) by {
            if j == i {
                assert(s.records[j].response is None);
            }
        }
        assert(c2.records[i] == s.records[i]);
        lemma_answered_at(c2, actor_id, key, resp, i);
    }
    // a rollback
    let r = rollback_step(s, other_actor, other_key);
    if pending(s, other_actor, other_key) {
        let j = record_index(s, other_actor, other_key);
        assert(is_record_of(s.records[j], other_actor, other_key));
        assert(j != i) by {
            if j == i {
                assert(s.records[j].response is None);
            }
        }
        let i2 = if i < j { i } else { i - 1 };
        assert(r.records[i2] == s.records[i]);
        assert(records_unique(r.records)) by {
            assert forall|a: int, b: int|
                0 <= a < r.records.len() && 0 <= b < r.records.len() && a != b implies !is_record_of(
                    #[trigger] r.records[a],
                    (#[trigger] r.records[b]).actor_id,
                    r.records[b].key,
                ) by {
                let oa = if a < j { a } else { a + 1 };
                let ob = if b < j { b } else { b + 1 };
                assert(r.records[a] == s.records[oa]);
                assert(r.records[b] == s.records[ob]);
            }
        }
        lemma_answered_at(r, actor_id, key, resp, i2);
    }
    // worker steps leave the records alone
    assert(dequeue_step(s).0.records == s.records);
}

} // verus!
