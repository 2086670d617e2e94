//! The task queue: an append-only, replayable log of check tasks with
//! named consumer groups.
//!
//! Each consumer group tracks a delivery cursor into the log and a pending
//! set of entries that were delivered to a member but never acknowledged.
//! Delivery is at-least-once: an entry stays pending, and is redelivered on
//! a pending-mode read, unless and until it is acknowledged.
//!
//! Delivery ids are assigned at append time and are monotonic within the
//! log; in this model the id of an entry is its position in the log.

use vstd::prelude::*;

verus! {

broadcast use vstd::seq_lib::group_seq_lib_default;

use crate::seq_util::lemma_filter_push;
use vstd::math::min;

/// Payload the scheduler appends: the site's url (`website`) and its store
/// id (`id`). `redis_id` is unused on append and kept empty.
#[derive(Debug)]
pub struct WebsiteEvent {
    pub website: String,
    pub id: String,
    pub redis_id: String,
}

/// One claimed queue entry: the payload plus the delivery id under which
/// the claim must be acknowledged.
#[derive(Debug)]
pub struct CheckTask {
    pub url: String,
    pub site_id: String,
    pub delivery_id: u64,
}

/// Mathematical value of a [`CheckTask`].
#[verifier::ext_equal]
pub struct TaskModel {
    pub url: Seq<char>,
    pub site_id: Seq<char>,
    pub delivery_id: u64,
}

impl View for CheckTask {
    type V = TaskModel;

    open spec fn view(&self) -> TaskModel {
        TaskModel { url: self.url@, site_id: self.site_id@, delivery_id: self.delivery_id }
    }
}

impl DeepView for CheckTask {
    type V = TaskModel;

    open spec fn deep_view(&self) -> TaskModel {
        self.view()
    }
}

/// One entry of the log.
pub struct QueueEntry {
    pub delivery_id: u64,
    pub url: String,
    pub site_id: String,
}

/// Mathematical value of a [`QueueEntry`].
#[verifier::ext_equal]
pub struct EntryModel {
    pub delivery_id: u64,
    pub url: Seq<char>,
    pub site_id: Seq<char>,
}

impl View for QueueEntry {
    type V = EntryModel;

    open spec fn view(&self) -> EntryModel {
        EntryModel { delivery_id: self.delivery_id, url: self.url@, site_id: self.site_id@ }
    }
}

/// A delivered-but-unacknowledged entry of one consumer group, owned by
/// the member it was delivered to.
pub struct PendingEntry {
    pub delivery_id: u64,
    pub member: String,
}

/// Mathematical value of a [`PendingEntry`].
#[verifier::ext_equal]
pub struct PendingModel {
    pub delivery_id: u64,
    pub member: Seq<char>,
}

impl View for PendingEntry {
    type V = PendingModel;

    open spec fn view(&self) -> PendingModel {
        PendingModel { delivery_id: self.delivery_id, member: self.member@ }
    }
}

impl DeepView for PendingEntry {
    type V = PendingModel;

    open spec fn deep_view(&self) -> PendingModel {
        self.view()
    }
}

/// A named consumer group: its delivery cursor and its pending set.
pub struct ConsumerGroup {
    pub name: String,
    pub cursor: u64,
    pub pending: Vec<PendingEntry>,
}

/// Mathematical value of a [`ConsumerGroup`].
#[verifier::ext_equal]
pub struct GroupModel {
    pub name: Seq<char>,
    pub cursor: u64,
    pub pending: Seq<PendingModel>,
}

impl View for ConsumerGroup {
    type V = GroupModel;

    open spec fn view(&self) -> GroupModel {
        GroupModel {
            name: self.name@,
            cursor: self.cursor,
            pending: self.pending@.map_values(|p: PendingEntry| p@),
        }
    }
}

/// The queue: the log of entries and the consumer groups over it.
pub struct TaskQueue {
    pub entries: Vec<QueueEntry>,
    pub groups: Vec<ConsumerGroup>,
}

/// Mathematical value of a [`TaskQueue`].
#[verifier::ext_equal]
pub struct QueueModel {
    pub entries: Seq<EntryModel>,
    pub groups: Seq<GroupModel>,
}

impl View for TaskQueue {
    type V = QueueModel;

    open spec fn view(&self) -> QueueModel {
        QueueModel {
            entries: self.entries@.map_values(|e: QueueEntry| e@),
            groups: self.groups@.map_values(|g: ConsumerGroup| g@),
        }
    }
}

impl GroupModel {
    /// Cursor within the log, pending ids already delivered (below the
    /// cursor) and held in strictly increasing id order.
    pub open spec fn wf(self, n_entries: int) -> bool {
        &&& self.cursor <= n_entries
        &&& forall|i: int|
            0 <= i < self.pending.len() ==> (#[trigger] self.pending[i]).delivery_id < self.cursor
        &&& forall|i: int, j: int|
            0 <= i < j < self.pending.len() ==> self.pending[i].delivery_id
                < self.pending[j].delivery_id
    }
}

impl QueueModel {
    /// Entry ids are their positions in the log, group names are unique,
    /// and every group is well formed against the log.
    pub open spec fn wf(self) -> bool {
        &&& forall|i: int|
            0 <= i < self.entries.len() ==> (#[trigger] self.entries[i]).delivery_id == i as u64
        &&& forall|i: int, j: int|
            0 <= i < j < self.groups.len() ==> self.groups[i].name != self.groups[j].name
        &&& forall|i: int|
            0 <= i < self.groups.len() ==> (#[trigger] self.groups[i]).wf(self.entries.len() as int)
    }

    pub open spec fn has_group(self, name: Seq<char>) -> bool {
        exists|i: int| 0 <= i < self.groups.len() && self.groups[i].name == name
    }

    pub open spec fn group_idx(self, name: Seq<char>) -> int {
        choose|i: int| 0 <= i < self.groups.len() && self.groups[i].name == name
    }

    pub open spec fn group(self, name: Seq<char>) -> GroupModel {
        self.groups[self.group_idx(name)]
    }

    /// The queue after `ensure_group_exists(name)`: unchanged if the group
    /// is present, else extended with a fresh group whose cursor is the
    /// start of the log.
    pub open spec fn with_group(self, name: Seq<char>) -> QueueModel {
        if self.has_group(name) {
            self
        } else {
            QueueModel {
                entries: self.entries,
                groups: self.groups.push(
                    GroupModel { name: name, cursor: 0, pending: Seq::empty() },
                ),
            }
        }
    }

    /// The task a delivery id stands for.
    pub open spec fn task_at(self, id: u64) -> TaskModel {
        TaskModel {
            url: self.entries[id as int].url,
            site_id: self.entries[id as int].site_id,
            delivery_id: id,
        }
    }

    /// Ids pending for `member` in group `name`, oldest first.
    pub open spec fn pending_ids(self, name: Seq<char>, member: Seq<char>) -> Seq<u64> {
        sel_ids(self.group(name).pending, member)
    }

    /// What a pending-mode read hands back: the member's own pending
    /// entries, oldest first, capped at `count`. The queue is unchanged.
    pub open spec fn read_pending_tasks(
        self,
        name: Seq<char>,
        member: Seq<char>,
        count: int,
    ) -> Seq<TaskModel> {
        let ids = self.pending_ids(name, member);
        Seq::new(min(count, ids.len() as int) as nat, |k: int| self.task_at(ids[k]))
    }

    /// How many entries a new-mode read delivers: everything past the
    /// group's cursor, capped at `count`.
    pub open spec fn new_claim_count(self, name: Seq<char>, count: int) -> int {
        min(count, self.entries.len() - self.group(name).cursor)
    }

    /// What a new-mode read hands back: the next entries past the group's
    /// cursor, in log order.
    pub open spec fn read_new_tasks(
        self,
        name: Seq<char>,
        member: Seq<char>,
        count: int,
    ) -> Seq<TaskModel> {
        let start = self.group(name).cursor as int;
        Seq::new(
            self.new_claim_count(name, count) as nat,
            |k: int| self.task_at((start + k) as u64),
        )
    }

    /// The queue after a new-mode read: the group's cursor advances past
    /// the delivered entries and each of them becomes pending for
    /// `member`; nothing else changes.
    pub open spec fn after_read_new(
        self,
        name: Seq<char>,
        member: Seq<char>,
        count: int,
    ) -> QueueModel {
        let gi = self.group_idx(name);
        let g = self.groups[gi];
        let start = g.cursor as int;
        let n = self.new_claim_count(name, count);
        let delivered = Seq::new(
            n as nat,
            |k: int| PendingModel { delivery_id: (start + k) as u64, member: member },
        );
        QueueModel {
            entries: self.entries,
            groups: self.groups.update(
                gi,
                GroupModel {
                    name: g.name,
                    cursor: (start + n) as u64,
                    pending: g.pending + delivered,
                },
            ),
        }
    }
}

/// The delivery ids among `pending` that belong to `member`, in order.
pub open spec fn sel_ids(pending: Seq<PendingModel>, member: Seq<char>) -> Seq<u64> {
    pending.filter(|p: PendingModel| p.member == member).map_values(
        |p: PendingModel| p.delivery_id,
    )
}

/// Unfolds one step of `sel_ids` at the pushed end.
pub proof fn lemma_sel_ids_push(s: Seq<PendingModel>, p: PendingModel, member: Seq<char>)
    ensures
        sel_ids(s.push(p), member) == if p.member == member {
            sel_ids(s, member).push(p.delivery_id)
        } else {
            sel_ids(s, member)
        },
{
    let pred = |q: PendingModel| q.member == member;
    lemma_filter_push(s, p, pred);
    if p.member == member {
        assert(sel_ids(s.push(p), member) =~= sel_ids(s, member).push(p.delivery_id));
    } else {
        assert(sel_ids(s.push(p), member) =~= sel_ids(s, member));
    }
}

/// When group names are unique the group index is determined by the name.
pub proof fn lemma_group_idx_determined(q: QueueModel, name: Seq<char>, i: int)
    requires
        forall|a: int, b: int| 0 <= a < b < q.groups.len() ==> q.groups[a].name != q.groups[b].name,
        0 <= i < q.groups.len(),
        q.groups[i].name == name,
    ensures
        q.has_group(name),
        q.group_idx(name) == i,
        q.group(name) == q.groups[i],
{
    assert(q.has_group(name));
    let j = q.group_idx(name);
    if i < j {
        assert(q.groups[i].name != q.groups[j].name);
    } else if j < i {
        assert(q.groups[j].name != q.groups[i].name);
    }
}

impl TaskQueue {
    /// A queue with an empty log and no consumer groups.
    pub fn new() -> (q: TaskQueue)
        ensures
            q@.entries == Seq::<EntryModel>::empty(),
            q@.groups == Seq::<GroupModel>::empty(),
            q@.wf(),
    {
        let q = TaskQueue { entries: Vec::new(), groups: Vec::new() };
        proof {
            assert(q@.entries =~= Seq::<EntryModel>::empty());
            assert(q@.groups =~= Seq::<GroupModel>::empty());
        }
        q
    }

    /// Creates the consumer group if it is absent, starting at the
    /// beginning of the log; a group that already exists is left exactly
    /// as it is, cursor and pending set included.
    pub fn ensure_group_exists(&mut self, group_name: &str)
        requires
            old(self)@.wf(),
        ensures
            final(self)@ == old(self)@.with_group(group_name@),
            final(self)@.wf(),
    {
        let name: String = group_name.to_owned();
        let n = self.groups.len();
        for i in 0..n
            invariant
                n == self.groups@.len(),
                self@ == old(self)@,
                self@.wf(),
                name@ == group_name@,
                forall|j: int| 0 <= j < i ==> self@.groups[j].name != name@,
        {
            if self.groups[i].name == name {
                proof {
                    lemma_group_idx_determined(self@, name@, i as int);
                }
                return ;
            }
        }
        let fresh = ConsumerGroup { name: name, cursor: 0, pending: Vec::new() };
        proof {
            assert(!old(self)@.has_group(group_name@));
        }
        self.groups.push(fresh);
        proof {
            assert(self@.groups =~~= old(self)@.with_group(group_name@).groups);
            assert(self@ =~~= old(self)@.with_group(group_name@));
            let q2 = self@;
            assert forall|i: int| 0 <= i < q2.groups.len() implies (#[trigger] q2.groups[i]).wf(
                q2.entries.len() as int,
            ) by {
                if i < q2.groups.len() - 1 {
                    assert(old(self)@.groups[i].wf(old(self)@.entries.len() as int));
                }
            }
        }
    }
}

impl TaskQueue {
    /// Appends one entry per event, in order, and returns the assigned
    /// delivery ids: consecutive, unique, and ordered after everything
    /// already in the log. No appended entry is ever lost and no consumer
    /// group is touched.
    pub fn x_add_bulk(&mut self, events: Vec<WebsiteEvent>) -> (ids: Vec<u64>)
        requires
            old(self)@.wf(),
        ensures
            final(self)@.wf(),
            final(self)@.groups == old(self)@.groups,
            final(self)@.entries.len() == old(self)@.entries.len() + events@.len(),
            forall|j: int|
                0 <= j < old(self)@.entries.len() ==> final(self)@.entries[j] == old(
                    self,
                )@.entries[j],
            ids@.len() == events@.len(),
            forall|k: int|
                0 <= k < events@.len() ==> #[trigger] ids@[k] == old(self)@.entries.len() + k,
            forall|k: int|
                0 <= k < events@.len() ==> {
                    let e = #[trigger] final(self)@.entries[old(self)@.entries.len() + k];
                    e.url == events@[k].website@ && e.site_id == events@[k].id@
                },
    {
        let mut ids: Vec<u64> = Vec::new();
        let n = events.len();
        for i in 0..n
            invariant
                n == events@.len(),
                self@.wf(),
                self@.groups == old(self)@.groups,
                self@.entries.len() == old(self)@.entries.len() + i,
                forall|j: int|
                    0 <= j < old(self)@.entries.len() ==> self@.entries[j] == old(
                        self,
                    )@.entries[j],
                ids@.len() == i,
                forall|k: int| 0 <= k < i ==> #[trigger] ids@[k] == old(self)@.entries.len() + k,
                forall|k: int|
                    0 <= k < i ==> {
                        let e = #[trigger] self@.entries[old(self)@.entries.len() + k];
                        e.url == events@[k].website@ && e.site_id == events@[k].id@
                    },
        {
            let id = self.entries.len() as u64;
            let entry = QueueEntry {
                delivery_id: id,
                url: events[i].website.clone(),
                site_id: events[i].id.clone(),
            };
            let ghost pre = self@;
            self.entries.push(entry);
            ids.push(id);
            proof {
                let q1 = old(self)@;
                let q2 = self@;
                assert(q2.entries =~= pre.entries.push(entry@));
                assert(q2.entries[q1.entries.len() + i as int] == entry@);
                assert(entry@.url == events@[i as int].website@);
                assert(entry@.site_id == events@[i as int].id@);
                assert forall|a: int| 0 <= a < q2.entries.len() implies (#[trigger] q2.entries[a]).delivery_id
                    == a as u64 by {
                    if a < q2.entries.len() - 1 {
                        assert(q2.entries[a] == pre.entries[a]);
                        assert(pre.entries[a].delivery_id == a as u64);
                    }
                }
                assert forall|a: int| 0 <= a < q2.groups.len() implies (#[trigger] q2.groups[a]).wf(
                    q2.entries.len() as int,
                ) by {
                    assert(q2.groups[a] == pre.groups[a]);
                    assert(pre.groups[a].wf(pre.entries.len() as int));
                }
                assert forall|k: int|
                    0 <= k < i + 1 implies {
                    let e = #[trigger] q2.entries[q1.entries.len() + k];
                    e.url == events@[k].website@ && e.site_id == events@[k].id@
                } by {
                    if k < i as int {
                        assert(q2.entries[q1.entries.len() + k] == pre.entries[q1.entries.len()
                            + k]);
                    }
                }
            }
        }
        ids
    }
}

/// The two read modes of a consumer-group read: redeliver the member's
/// own unacknowledged entries, or deliver entries never claimed by anyone
/// in the group.
pub enum ClaimMode {
    Pending,
    NewMessages,
}

impl TaskQueue {
    /// Index of the named group.
    fn find_group_idx(&self, name: &str) -> (gi: usize)
        requires
            self@.wf(),
            self@.has_group(name@),
        ensures
            gi < self@.groups.len(),
            gi == self@.group_idx(name@),
            self@.groups[gi as int].name == name@,
    {
        let owned: String = name.to_owned();
        let n = self.groups.len();
        for i in 0..n
            invariant
                n == self@.groups.len(),
                self@.wf(),
                self@.has_group(name@),
                owned@ == name@,
                forall|j: int| 0 <= j < i ==> self@.groups[j].name != name@,
        {
            if self.groups[i].name == owned {
                proof {
                    lemma_group_idx_determined(self@, name@, i as int);
                }
                return i;
            }
        }
        proof {
            let w = self@.group_idx(name@);
            assert(self@.groups[w].name == name@);
            assert(false);
        }
        0
    }

    /// Reads a batch of up to `count` tasks for `worker_id`, a member of
    /// `consumer_group` (created if absent). `Pending` mode redelivers the
    /// member's own claimed-but-unacknowledged entries and leaves the
    /// queue as it is; `NewMessages` mode delivers entries past the
    /// group's cursor and records each as pending for the member. An
    /// empty result is a normal outcome, not a failure.
    pub fn x_read_group(
        &mut self,
        consumer_group: &str,
        worker_id: &str,
        mode: ClaimMode,
        count: usize,
    ) -> (tasks: Vec<CheckTask>)
        requires
            old(self)@.wf(),
        ensures
            final(self)@.wf(),
            ({
                let q1 = old(self)@.with_group(consumer_group@);
                match mode {
                    ClaimMode::Pending => final(self)@ == q1 && tasks.deep_view()
                        == q1.read_pending_tasks(consumer_group@, worker_id@, count as int),
                    ClaimMode::NewMessages => final(self)@ == q1.after_read_new(
                        consumer_group@,
                        worker_id@,
                        count as int,
                    ) && tasks.deep_view() == q1.read_new_tasks(
                        consumer_group@,
                        worker_id@,
                        count as int,
                    ),
                }
            }),
    {
        self.ensure_group_exists(consumer_group);
        proof {
            lemma_ensure_group_idempotent(old(self)@, consumer_group@);
        }
        let ghost q1 = self@;
        let gi = self.find_group_idx(consumer_group);
        let member: String = worker_id.to_owned();
        let mut tasks: Vec<CheckTask> = Vec::new();
        match mode {
            ClaimMode::Pending => {
                let total_entries = self.entries.len();
                proof {
                    assert(q1.entries.len() == total_entries as nat);
                    reveal_with_fuel(Seq::filter, 1);
                    let pend = q1.groups[gi as int].pending;
                    assert(pend.take(0) =~= Seq::<PendingModel>::empty());
                    assert(sel_ids(pend.take(0), member@) =~= Seq::<u64>::empty());
                    assert(tasks.deep_view() =~= Seq::<TaskModel>::empty());
                }
                let np = self.groups[gi].pending.len();
                for j in 0..np
                    invariant
                        self@ == q1,
                        q1.wf(),
                        gi < q1.groups.len(),
                        gi == q1.group_idx(consumer_group@),
                        np == q1.groups[gi as int].pending.len(),
                        q1.entries.len() <= usize::MAX,
                        member@ == worker_id@,
                        tasks.deep_view() == ({
                            let ids = sel_ids(
                                q1.groups[gi as int].pending.take(j as int),
                                member@,
                            );
                            Seq::new(
                                min(count as int, ids.len() as int) as nat,
                                |k: int| q1.task_at(ids[k]),
                            )
                        }),
                {
                    let ghost pend = q1.groups[gi as int].pending;
                    let ghost ids_pre = sel_ids(pend.take(j as int), member@);
                    let p_id = self.groups[gi].pending[j].delivery_id;
                    let matches_member = self.groups[gi].pending[j].member == member;
                    proof {
                        assert(pend.take(j + 1) =~= pend.take(j as int).push(pend[j as int]));
                        lemma_sel_ids_push(pend.take(j as int), pend[j as int], member@);
                        assert(pend[j as int].delivery_id < q1.groups[gi as int].cursor);
                    }
                    proof {
                        assert(tasks.deep_view() == Seq::new(
                            min(count as int, ids_pre.len() as int) as nat,
                            |k: int| q1.task_at(ids_pre[k]),
                        ));
                        assert(tasks.deep_view().len() == min(
                            count as int,
                            ids_pre.len() as int,
                        ));
                        assert(tasks@.len() == tasks.deep_view().len());
                    }
                    if matches_member && tasks.len() < count {
                        let idx = p_id as usize;
                        let url = self.entries[idx].url.clone();
                        let site_id = self.entries[idx].site_id.clone();
                        let ghost tasks_pre = tasks.deep_view();
                        let task = CheckTask { url, site_id, delivery_id: p_id };
                        proof {
                            assert(task@ =~~= q1.task_at(p_id));
                        }
                        tasks.push(task);
                        proof {
                            let ids_post = sel_ids(pend.take(j + 1), member@);
                            assert(ids_post =~= ids_pre.push(p_id));
                            assert(tasks.deep_view() =~~= tasks_pre.push(task@));
                            assert(tasks.deep_view() =~~= Seq::new(
                                min(count as int, ids_post.len() as int) as nat,
                                |k: int| q1.task_at(ids_post[k]),
                            ));
                        }
                    } else {
                        proof {
                            let ids_post = sel_ids(pend.take(j + 1), member@);
                            if pend[j as int].member == member@ {
                                assert(ids_post =~= ids_pre.push(p_id));
                                assert(ids_pre.len() >= count);
                                assert(tasks.deep_view() =~~= Seq::new(
                                    min(count as int, ids_post.len() as int) as nat,
                                    |k: int| q1.task_at(ids_post[k]),
                                ));
                            } else {
                                assert(ids_post == ids_pre);
                            }
                        }
                    }
                }
                proof {
                    let pend = q1.groups[gi as int].pending;
                    assert(pend.take(np as int) =~= pend);
                    assert(q1.group(consumer_group@) == q1.groups[gi as int]);
                    assert(tasks.deep_view() == q1.read_pending_tasks(
                        consumer_group@,
                        worker_id@,
                        count as int,
                    ));
                }
                tasks
            },
            ClaimMode::NewMessages => {
                let start64 = self.groups[gi].cursor;
                let start = start64 as usize;
                let avail = self.entries.len() - start;
                let n = if count < avail {
                    count
                } else {
                    avail
                };
                proof {
                    assert(n as int == q1.new_claim_count(consumer_group@, count as int));
                    assert(q1.entries.len() == self.entries@.len());
                    assert(tasks.deep_view() =~= Seq::new(
                        0 as nat,
                        |a: int| q1.task_at((start + a) as u64),
                    ));
                }
                let mut delivered: Vec<PendingEntry> = Vec::new();
                proof {
                    assert(delivered.deep_view() =~= Seq::new(
                        0 as nat,
                        |a: int| PendingModel { delivery_id: (start + a) as u64, member: member@ },
                    ));
                }
                for k in 0..n
                    invariant
                        self@ == q1,
                        q1.wf(),
                        gi < q1.groups.len(),
                        gi == q1.group_idx(consumer_group@),
                        start as u64 == q1.groups[gi as int].cursor,
                        start + n <= q1.entries.len(),
                        q1.entries.len() <= usize::MAX,
                        member@ == worker_id@,
                        tasks.deep_view() == Seq::new(
                            k as nat,
                            |a: int| q1.task_at((start + a) as u64),
                        ),
                        delivered.deep_view() == Seq::new(
                            k as nat,
                            |a: int| PendingModel {
                                delivery_id: (start + a) as u64,
                                member: member@,
                            },
                        ),
                {
                    let url = self.entries[start + k].url.clone();
                    let site_id = self.entries[start + k].site_id.clone();
                    let delivery_id = self.entries[start + k].delivery_id;
                    let ghost tasks_pre = tasks.deep_view();
                    let ghost del_pre = delivered.deep_view();
                    let task = CheckTask { url, site_id, delivery_id };
                    let pe = PendingEntry { delivery_id, member: member.clone() };
                    proof {
                        assert(q1.entries[start + k].delivery_id == (start + k) as u64);
                        assert(task@ =~~= q1.task_at((start + k) as u64));
                    }
                    tasks.push(task);
                    delivered.push(pe);
                    proof {
                        assert(tasks.deep_view() =~~= tasks_pre.push(task@));
                        assert(tasks.deep_view() =~~= Seq::new(
                            (k + 1) as nat,
                            |a: int| q1.task_at((start + a) as u64),
                        ));
                        assert(delivered.deep_view() =~~= del_pre.push(pe@));
                        assert(delivered.deep_view() =~~= Seq::new(
                            (k + 1) as nat,
                            |a: int| PendingModel {
                                delivery_id: (start + a) as u64,
                                member: member@,
                            },
                        ));
                    }
                }
                let ghost delivered_model = delivered.deep_view();
                self.groups[gi].pending.append(&mut delivered);
                self.groups[gi].cursor = (start + n) as u64;
                proof {
                    assert(self@.groups[gi as int].pending =~~= q1.groups[gi as int].pending
                        + delivered_model);
                }
                proof {
                    let q2 = q1.after_read_new(consumer_group@, worker_id@, count as int);
                    assert(self@.groups =~~= q2.groups);
                    assert(self@ =~~= q2);
                    assert(tasks.deep_view() == q1.read_new_tasks(
                        consumer_group@,
                        worker_id@,
                        count as int,
                    ));
                    let gm = self@.groups[gi as int];
                    assert forall|a: int| 0 <= a < gm.pending.len() implies (
                    #[trigger] gm.pending[a]).delivery_id < gm.cursor by {
                        if a < q1.groups[gi as int].pending.len() {
                            assert(q1.groups[gi as int].pending[a].delivery_id < q1.groups[gi
                                as int].cursor);
                        }
                    }
                    assert forall|a: int, b: int| 0 <= a < b < gm.pending.len() implies gm.pending[a].delivery_id
                        < gm.pending[b].delivery_id by {
                        let old_len = q1.groups[gi as int].pending.len();
                        if b < old_len {
                            assert(q1.groups[gi as int].pending[a].delivery_id < q1.groups[gi
                                as int].pending[b].delivery_id);
                        } else if a < old_len {
                            assert(q1.groups[gi as int].pending[a].delivery_id < q1.groups[gi
                                as int].cursor);
                        }
                    }
                    assert forall|a: int| 0 <= a < self@.groups.len() implies (
                    #[trigger] self@.groups[a]).wf(self@.entries.len() as int) by {
                        if a != gi as int {
                            assert(self@.groups[a] == q1.groups[a]);
                            assert(q1.groups[a].wf(q1.entries.len() as int));
                        }
                    }
                    assert forall|a: int, b: int| 0 <= a < b < self@.groups.len() implies self@.groups[a].name
                        != self@.groups[b].name by {
                        assert(q1.groups[a].name != q1.groups[b].name);
                        assert(self@.groups[a].name == q1.groups[a].name);
                        assert(self@.groups[b].name == q1.groups[b].name);
                    }
                }
                tasks
            },
        }
    }
}

impl TaskQueue {
    /// Index of the named group, if it exists.
    fn try_find_group_idx(&self, name: &str) -> (r: Option<usize>)
        requires
            self@.wf(),
        ensures
            match r {
                Some(gi) => gi < self@.groups.len() && self@.has_group(name@) && gi
                    == self@.group_idx(name@),
                None => !self@.has_group(name@),
            },
    {
        let owned: String = name.to_owned();
        let n = self.groups.len();
        for i in 0..n
            invariant
                n == self@.groups.len(),
                self@.wf(),
                owned@ == name@,
                forall|j: int| 0 <= j < i ==> self@.groups[j].name != name@,
        {
            if self.groups[i].name == owned {
                proof {
                    lemma_group_idx_determined(self@, name@, i as int);
                }
                return Some(i);
            }
        }
        None
    }

    /// Acknowledges the given delivery ids in the group: each is removed
    /// from the group's pending set, wherever it was pending, and the
    /// number of entries actually removed is returned. Unknown ids and an
    /// empty list are no-ops; so is a group that does not exist.
    pub fn x_ack_bulk(&mut self, consumer_group: &str, message_ids: &Vec<u64>) -> (n: u64)
        requires
            old(self)@.wf(),
        ensures
            final(self)@.wf(),
            !old(self)@.has_group(consumer_group@) ==> final(self)@ == old(self)@ && n == 0,
            old(self)@.has_group(consumer_group@) ==> ({
                let gi = old(self)@.group_idx(consumer_group@);
                let g = old(self)@.groups[gi];
                let kept = g.pending.filter(
                    |p: PendingModel| !message_ids@.contains(p.delivery_id),
                );
                final(self)@ == QueueModel {
                    entries: old(self)@.entries,
                    groups: old(self)@.groups.update(
                        gi,
                        GroupModel { name: g.name, cursor: g.cursor, pending: kept },
                    ),
                } && n as int == g.pending.len() - kept.len()
            }),
    {
        let gi = match self.try_find_group_idx(consumer_group) {
            Some(gi) => gi,
            None => {
                return 0;
            },
        };
        let ghost q1 = self@;
        let ghost pred = |p: PendingModel| !message_ids@.contains(p.delivery_id);
        let ghost pend = q1.groups[gi as int].pending;
        let old_len = self.groups[gi].pending.len();
        let mut kept: Vec<PendingEntry> = Vec::new();
        proof {
            reveal_with_fuel(Seq::filter, 1);
            assert(pend.take(0) =~= Seq::<PendingModel>::empty());
            assert(kept.deep_view() =~= pend.take(0).filter(pred));
        }
        for j in 0..old_len
            invariant
                self@ == q1,
                q1.wf(),
                gi < q1.groups.len(),
                gi == q1.group_idx(consumer_group@),
                pend == q1.groups[gi as int].pending,
                pred == (|p: PendingModel| !message_ids@.contains(p.delivery_id)),
                old_len == pend.len(),
                kept.deep_view() == pend.take(j as int).filter(pred),
        {
            let did = self.groups[gi].pending[j].delivery_id;
            let keep_it = !contains_id(message_ids, did);
            proof {
                assert(pend.take(j + 1) =~= pend.take(j as int).push(pend[j as int]));
                lemma_filter_push(pend.take(j as int), pend[j as int], pred);
            }
            if keep_it {
                let mem = self.groups[gi].pending[j].member.clone();
                let ghost kept_pre = kept.deep_view();
                let pe = PendingEntry { delivery_id: did, member: mem };
                kept.push(pe);
                proof {
                    assert(pe@ =~~= pend[j as int]);
                    assert(kept.deep_view() =~~= kept_pre.push(pend[j as int]));
                    assert(kept.deep_view() =~~= pend.take(j + 1).filter(pred));
                }
            } else {
                proof {
                    assert(!pred(pend[j as int]));
                    assert(kept.deep_view() =~~= pend.take(j + 1).filter(pred));
                }
            }
        }
        proof {
            assert(pend.take(old_len as int) =~= pend);
            assert(kept.deep_view() == pend.filter(pred));
            assert(pend.filter(pred).len() <= pend.len());
            assert(kept@.len() == kept.deep_view().len());
        }
        let new_len = kept.len();
        let removed = (old_len - new_len) as u64;
        self.groups[gi].pending = kept;
        proof {
            let g = q1.groups[gi as int];
            let target = QueueModel {
                entries: q1.entries,
                groups: q1.groups.update(
                    gi as int,
                    GroupModel { name: g.name, cursor: g.cursor, pending: pend.filter(pred) },
                ),
            };
            assert(self@.groups =~~= target.groups);
            assert(self@ =~~= target);
            lemma_filter_keeps_pending_wf(pend, pred, g.cursor);
            assert forall|a: int| 0 <= a < self@.groups.len() implies (#[trigger] self@.groups[a]).wf(
                self@.entries.len() as int,
            ) by {
                if a != gi as int {
                    assert(self@.groups[a] == q1.groups[a]);
                }
                assert(q1.groups[a].wf(q1.entries.len() as int));
            }
            assert forall|a: int, b: int| 0 <= a < b < self@.groups.len() implies self@.groups[a].name
                != self@.groups[b].name by {
                assert(q1.groups[a].name != q1.groups[b].name);
            }
        }
        removed
    }
}

/// True iff `x` occurs among `ids`.
fn contains_id(ids: &Vec<u64>, x: u64) -> (r: bool)
    ensures
        r == ids@.contains(x),
{
    let n = ids.len();
    for i in 0..n
        invariant
            n == ids@.len(),
            forall|j: int| 0 <= j < i ==> ids@[j] != x,
    {
        if ids[i] == x {
            return true;
        }
    }
    proof {
        assert(!ids@.contains(x));
    }
    false
}

/// Filtering a well-formed pending set keeps it well formed: the kept
/// entries stay below the cursor bound and in strictly increasing id
/// order, and no kept id exceeds the sequence's last id.
pub proof fn lemma_filter_keeps_pending_wf(
    s: Seq<PendingModel>,
    pred: spec_fn(PendingModel) -> bool,
    bound: u64,
)
    requires
        forall|i: int| 0 <= i < s.len() ==> (#[trigger] s[i]).delivery_id < bound,
        forall|i: int, j: int| 0 <= i < j < s.len() ==> s[i].delivery_id < s[j].delivery_id,
    ensures
        forall|i: int|
            0 <= i < s.filter(pred).len() ==> (#[trigger] s.filter(pred)[i]).delivery_id < bound,
        forall|i: int, j: int|
            0 <= i < j < s.filter(pred).len() ==> s.filter(pred)[i].delivery_id < s.filter(
                pred,
            )[j].delivery_id,
        s.filter(pred).len() > 0 ==> s.len() > 0 && s.filter(pred).last().delivery_id
            <= s.last().delivery_id,
    decreases s.len(),
{
    reveal_with_fuel(Seq::filter, 1);
    if s.len() == 0 {
        assert(s.filter(pred) =~= s);
    } else {
        let dl = s.drop_last();
        lemma_filter_keeps_pending_wf(dl, pred, bound);
        assert forall|i: int| 0 <= i < dl.len() implies (#[trigger] dl[i]).delivery_id
            < s.last().delivery_id by {
            assert(s[i].delivery_id < s[s.len() - 1].delivery_id);
        }
        if pred(s.last()) {
            assert(s.filter(pred) == dl.filter(pred).push(s.last()));
        } else {
            assert(s.filter(pred) == dl.filter(pred));
        }
    }
}

/// Creating a consumer group is idempotent: a second creation changes
/// nothing, and in particular never resets an existing group's delivery
/// cursor or pending set.
pub proof fn lemma_ensure_group_idempotent(q: QueueModel, name: Seq<char>)
    requires
        q.wf(),
    ensures
        q.with_group(name).with_group(name) == q.with_group(name),
        q.has_group(name) ==> q.with_group(name).group(name) == q.group(name),
        !q.has_group(name) ==> q.with_group(name).group(name) == (GroupModel {
            name: name,
            cursor: 0,
            pending: Seq::empty(),
        }),
{
    let q1 = q.with_group(name);
    if q.has_group(name) {
        assert(q1 == q);
    } else {
        let i = q.groups.len() as int;
        assert(q1.groups[i].name == name);
        assert(q1.has_group(name));
        assert(q1.with_group(name) == q1);
        assert forall|a: int, b: int| 0 <= a < b < q1.groups.len() implies q1.groups[a].name
            != q1.groups[b].name by {
            if b < i {
                assert(q.groups[a].name != q.groups[b].name);
            } else {
                assert(!q.has_group(name));
                if q.groups[a].name == name {
                    assert(q.has_group(name));
                }
            }
        }
        assert forall|a: int| 0 <= a < q1.groups.len() implies (#[trigger] q1.groups[a]).wf(
            q1.entries.len() as int,
        ) by {
            if a < i {
                assert(q.groups[a].wf(q.entries.len() as int));
            }
        }
        assert(q1.wf());
        lemma_group_idx_determined(q1, name, i);
    }
}

/// In a sequence of pending entries that all belong to `member`, the
/// selected ids are exactly all the ids, in order.
pub proof fn lemma_sel_ids_all_member(s: Seq<PendingModel>, member: Seq<char>)
    requires
        forall|i: int| 0 <= i < s.len() ==> (#[trigger] s[i]).member == member,
    ensures
        sel_ids(s, member) == Seq::new(s.len(), |i: int| s[i].delivery_id),
    decreases s.len(),
{
    reveal_with_fuel(Seq::filter, 1);
    let pred = |p: PendingModel| p.member == member;
    if s.len() == 0 {
        assert(s.filter(pred) =~= s);
        assert(sel_ids(s, member) =~= Seq::new(s.len(), |i: int| s[i].delivery_id));
    } else {
        let dl = s.drop_last();
        lemma_sel_ids_all_member(dl, member);
        assert(s[s.len() - 1].member == member);
        assert(s.filter(pred) == dl.filter(pred).push(s.last()));
        assert(sel_ids(s, member) =~= sel_ids(dl, member).push(s.last().delivery_id));
        assert(sel_ids(s, member) =~= Seq::new(s.len(), |i: int| s[i].delivery_id));
    }
}

/// At-least-once delivery: the tasks a new-mode read hands to a member
/// become that member's pending entries, so if the member crashes before
/// acknowledging any of them, a pending-mode read for the same member
/// redelivers exactly those tasks, in the same order.
pub proof fn lemma_at_least_once(q: QueueModel, name: Seq<char>, member: Seq<char>, count: int)
    requires
        q.wf(),
        q.has_group(name),
        q.pending_ids(name, member).len() == 0,
        0 <= count,
    ensures
        q.after_read_new(name, member, count).read_pending_tasks(name, member, count)
            == q.read_new_tasks(name, member, count),
{
    let gi = q.group_idx(name);
    let g = q.groups[gi];
    let start = g.cursor as int;
    let n = q.new_claim_count(name, count);
    let delivered = Seq::new(
        n as nat,
        |k: int| PendingModel { delivery_id: (start + k) as u64, member: member },
    );
    let q2 = q.after_read_new(name, member, count);
    assert forall|a: int, b: int| 0 <= a < b < q2.groups.len() implies q2.groups[a].name
        != q2.groups[b].name by {
        assert(q.groups[a].name != q.groups[b].name);
    }
    lemma_group_idx_determined(q2, name, gi);
    let g2 = q2.group(name);
    assert(g2.pending == g.pending + delivered);
    let pred = |p: PendingModel| p.member == member;
    assert(g2.pending.filter(pred) == g.pending.filter(pred) + delivered.filter(pred));
    assert(sel_ids(g2.pending, member) =~= sel_ids(g.pending, member) + sel_ids(
        delivered,
        member,
    ));
    assert(sel_ids(g.pending, member) =~= Seq::<u64>::empty());
    lemma_sel_ids_all_member(delivered, member);
    let ids = q2.pending_ids(name, member);
    assert(ids =~= Seq::new(n as nat, |k: int| (start + k) as u64));
    assert(ids.len() == n);
    assert(min(count, ids.len() as int) == n);
    assert(q2.entries == q.entries);
    assert(q2.read_pending_tasks(name, member, count) =~~= q.read_new_tasks(name, member, count));
}

} // verus!
