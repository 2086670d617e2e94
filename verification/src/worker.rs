//! One region's worker, per cycle: claim a batch of tasks (its own
//! unacknowledged deliveries first, then new ones), probe every claimed
//! site concurrently, persist each outcome as a tick, and acknowledge
//! the whole batch by delivery id.
//!
//! The probes themselves are I/O and run outside the library, between
//! [`claim_batch`] and [`complete_cycle`]; the retry decisions they
//! follow are the state machine in [`crate::probe`].

use crate::models::CheckResult;
use crate::queue::{CheckTask, ClaimMode, TaskModel, TaskQueue};
use crate::store::Store;
use vstd::prelude::*;

verus! {

/// The delivery ids of a batch of claimed tasks, in order.
pub open spec fn task_ids(ts: Seq<TaskModel>) -> Seq<u64> {
    ts.map_values(|t: TaskModel| t.delivery_id)
}

impl TaskQueue {
    /// Claims a batch of up to `count` tasks for the worker: entries it
    /// claimed earlier but never acknowledged come first (crash
    /// recovery), and only a worker with nothing pending takes new
    /// entries. An empty batch means there is nothing to do.
    pub fn claim_batch(&mut self, region_id: &str, worker_id: &str, count: usize) -> (tasks: Vec<
        CheckTask,
    >)
        requires
            old(self)@.wf(),
        ensures
            final(self)@.wf(),
            ({
                let q1 = old(self)@.with_group(region_id@);
                let pending = q1.read_pending_tasks(region_id@, worker_id@, count as int);
                if pending.len() > 0 {
                    final(self)@ == q1 && tasks.deep_view() == pending
                } else {
                    final(self)@ == q1.after_read_new(region_id@, worker_id@, count as int)
                        && tasks.deep_view() == q1.read_new_tasks(
                        region_id@,
                        worker_id@,
                        count as int,
                    )
                }
            }),
    {
        let tasks = self.x_read_group(region_id, worker_id, ClaimMode::Pending, count);
        proof {
            crate::queue::lemma_ensure_group_idempotent(old(self)@, region_id@);
        }
        if tasks.len() > 0 {
            return tasks;
        }
        self.x_read_group(region_id, worker_id, ClaimMode::NewMessages, count)
    }
}

/// Finishes a worker cycle: persists every probe outcome of the claimed
/// batch as a tick row, in order, then acknowledges the entire batch by
/// delivery id — regardless of individual outcomes, an explicit
/// trade-off that favors low operational noise over exactly-once
/// persistence. Returns how many deliveries the queue acknowledged.
pub fn complete_cycle(
    queue: &mut TaskQueue,
    store: &mut Store,
    region_id: &str,
    tasks: &Vec<CheckTask>,
    results: &Vec<CheckResult>,
) -> (acked: u64)
    requires
        old(queue)@.wf(),
        results@.len() == tasks@.len(),
    ensures
        final(queue)@.wf(),
        final(store).users == old(store).users,
        final(store).websites == old(store).websites,
        final(store).ticks.deep_view().len() == old(store).ticks.deep_view().len()
            + results@.len(),
        forall|j: int|
            0 <= j < old(store).ticks.deep_view().len() ==> final(store).ticks.deep_view()[j]
                == old(store).ticks.deep_view()[j],
        forall|k: int|
            0 <= k < results@.len() ==> {
                let t = #[trigger] final(store).ticks.deep_view()[old(
                    store,
                ).ticks.deep_view().len() + k];
                t.website_id == results.deep_view()[k].site_id && t.region_id
                    == results.deep_view()[k].region_id && t.status == results.deep_view()[k].status
                    && t.response_time == results.deep_view()[k].response_time_ms
            },
        !old(queue)@.has_group(region_id@) ==> final(queue)@ == old(queue)@ && acked == 0,
        old(queue)@.has_group(region_id@) ==> ({
            let gi = old(queue)@.group_idx(region_id@);
            let g = old(queue)@.groups[gi];
            let kept = g.pending.filter(
                |p: crate::queue::PendingModel|
                    !task_ids(tasks.deep_view()).contains(p.delivery_id),
            );
            final(queue)@ == crate::queue::QueueModel {
                entries: old(queue)@.entries,
                groups: old(queue)@.groups.update(
                    gi,
                    crate::queue::GroupModel { name: g.name, cursor: g.cursor, pending: kept },
                ),
            } && acked as int == g.pending.len() - kept.len()
        }),
{
    let n = results.len();
    for k in 0..n
        invariant
            n == results@.len(),
            queue@ == old(queue)@,
            store.users == old(store).users,
            store.websites == old(store).websites,
            store.ticks.deep_view().len() == old(store).ticks.deep_view().len() + k,
            forall|j: int|
                0 <= j < old(store).ticks.deep_view().len() ==> store.ticks.deep_view()[j] == old(
                    store,
                ).ticks.deep_view()[j],
            forall|a: int|
                0 <= a < k ==> {
                    let t = #[trigger] store.ticks.deep_view()[old(store).ticks.deep_view().len()
                        + a];
                    t.website_id == results.deep_view()[a].site_id && t.region_id
                        == results.deep_view()[a].region_id && t.status
                        == results.deep_view()[a].status && t.response_time
                        == results.deep_view()[a].response_time_ms
                },
    {
        let ghost pre = store.ticks.deep_view();
        let site_id = results[k].site_id.clone();
        let region = results[k].region_id.clone();
        let rt = results[k].response_time_ms;
        let status = results[k].status;
        let _ = store.create_website_tick(site_id, region, rt, status);
        proof {
            assert forall|a: int| 0 <= a < k + 1 implies {
                let t = #[trigger] store.ticks.deep_view()[old(store).ticks.deep_view().len() + a];
                t.website_id == results.deep_view()[a].site_id && t.region_id
                    == results.deep_view()[a].region_id && t.status == results.deep_view()[a].status
                    && t.response_time == results.deep_view()[a].response_time_ms
            } by {
                if a < k {
                    assert(store.ticks.deep_view()[old(store).ticks.deep_view().len() + a]
                        == pre[old(store).ticks.deep_view().len() + a]);
                }
            }
        }
    }
    let mut ids: Vec<u64> = Vec::new();
    let tn = tasks.len();
    for k in 0..tn
        invariant
            tn == tasks@.len(),
            queue@ == old(queue)@,
            ids@.len() == k,
            forall|a: int| 0 <= a < k ==> ids@[a] == tasks.deep_view()[a].delivery_id,
    {
        ids.push(tasks[k].delivery_id);
    }
    proof {
        assert(ids@ =~= task_ids(tasks.deep_view()));
    }
    queue.x_ack_bulk(region_id, &ids)
}

} // verus!
