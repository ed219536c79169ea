//! Task rows: create, fetch, update, delete.

use vstd::prelude::*;

use crate::date::Date;
use crate::models::{
    AddTask, AddTaskVw, LinkVw, OrderByEnum, QueryTaskPayload, Task, TaskStatusEnum, TaskVw,
    UpdateTask, UpdateTaskVw,
};
use crate::seqs::{lemma_filter_all, lemma_filter_pairs, lemma_filter_push};
use crate::store::{
    has_link, has_task, lemma_max_task_id, lemma_task_at, max_task_id, task_of, tasks_wf, Store,
};
use crate::strings::{contains_text, lemma_seq_char_le_total, seq_char_le, str_contains, str_le};
use crate::Error;

verus! {

/// The row that creating `task` appends: a fresh id, both timestamps set
/// to the creation date.
pub open spec fn new_task_row(tasks: Seq<TaskVw>, task: AddTaskVw) -> TaskVw {
    TaskVw {
        id: (max_task_id(tasks) + 1) as i64,
        title: task.title,
        info: task.info,
        deadline: task.deadline,
        status: task.status,
        updated_at: task.created_at,
        created_at: task.created_at,
    }
}

/// The row that restoring `task` under a fixed `id` appends.
pub open spec fn restored_task_row(id: i64, task: AddTaskVw, updated_at: Date) -> TaskVw {
    TaskVw {
        id,
        title: task.title,
        info: task.info,
        deadline: task.deadline,
        status: task.status,
        updated_at,
        created_at: task.created_at,
    }
}

/// The task table after applying `u` to the row carrying `id` (unchanged
/// when no row carries it).
pub open spec fn apply_update(tasks: Seq<TaskVw>, id: i64, u: UpdateTaskVw, now: Date) -> Seq<
    TaskVw,
> {
    tasks.map_values(
        |t: TaskVw|
            if t.id == id {
                u.applied_to(t, now)
            } else {
                t
            },
    )
}

impl Store {
    /// Fetches the task carrying `id`, if any.
    pub fn get_task(&self, id: i64) -> (r: Option<Task>)
        requires
            self.wf(),
        ensures
            r is Some <==> has_task(self@.tasks, id),
            r matches Some(t) ==> t@ == task_of(self@.tasks, id) && t.id == id,
    {
        let mut i: usize = 0;
        while i < self.tasks.len()
            invariant
                self.wf(),
                i <= self.tasks.len(),
                forall|k: int| 0 <= k < i ==> (#[trigger] self@.tasks[k]).id != id,
            decreases self.tasks.len() - i,
        {
            if self.tasks[i].id == id {
                proof {
                    lemma_task_at(self@.tasks, id, i as int);
                }
                return Some(self.tasks[i].duplicate());
            }
            i = i + 1;
        }
        None
    }

    /// The greatest task id in use.
    pub(crate) fn max_id_exec(&self) -> (m: i64)
        ensures
            m as int == max_task_id(self@.tasks),
            m >= 0,
    {
        let mut m: i64 = 0;
        let mut i: usize = 0;
        while i < self.tasks.len()
            invariant
                i <= self.tasks.len(),
                m as int == max_task_id(self@.tasks.take(i as int)),
                m >= 0,
            decreases self.tasks.len() - i,
        {
            proof {
                assert(self@.tasks.take(i + 1).drop_last() =~= self@.tasks.take(i as int));
                assert(self@.tasks.take(i + 1).last() == self@.tasks[i as int]);
            }
            if self.tasks[i].id > m {
                m = self.tasks[i].id;
            }
            i = i + 1;
        }
        proof {
            assert(self@.tasks.take(self.tasks@.len() as int) =~= self@.tasks);
        }
        m
    }

    /// Creates a task: assigns the next free id and sets both timestamps
    /// to the supplied creation date. The `categories` field plays no part
    /// here; assignments are separate rows.
    pub fn create_task(&mut self, task: AddTask) -> (t: Task)
        requires
            old(self).wf(),
            max_task_id(old(self)@.tasks) < i64::MAX,
        ensures
            t@ == new_task_row(old(self)@.tasks, task@),
            final(self)@.tasks == old(self)@.tasks.push(t@),
            final(self)@.links == old(self)@.links,
            final(self)@.actions == old(self)@.actions,
            final(self).wf(),
    {
        let id = self.max_id_exec() + 1;
        let t = Task {
            id,
            title: task.title,
            info: task.info,
            deadline: task.deadline,
            status: task.status,
            updated_at: task.created_at,
            created_at: task.created_at,
        };
        let out = t.duplicate();
        proof {
            lemma_max_task_id(self@.tasks);
        }
        self.tasks.push(t);
        proof {
            assert(self@.tasks =~= old(self)@.tasks.push(out@));
            assert(tasks_wf(self@.tasks));
        }
        out
    }

    /// Restores a task under its original `id` (used only when a deletion
    /// is undone), with an explicitly supplied `updated_at`.
    pub fn create_task_with_id(&mut self, id: i64, task: AddTask, updated_at: Date) -> (r: Result<
        Task,
        Error,
    >)
        requires
            old(self).wf(),
            1 <= id,
        ensures
            has_task(old(self)@.tasks, id) ==> (r == Err::<Task, Error>(
                Error::DuplicateTask { id },
            ) && final(self)@ == old(self)@),
            !has_task(old(self)@.tasks, id) ==> (r matches Ok(t) && t@ == restored_task_row(
                id,
                task@,
                updated_at,
            ) && final(self)@.tasks == old(self)@.tasks.push(t@)
                && final(self)@.links == old(self)@.links
                && final(self)@.actions == old(self)@.actions && final(self).wf()),
    {
        if self.get_task(id).is_some() {
            return Err(Error::DuplicateTask { id });
        }
        let t = Task {
            id,
            title: task.title,
            info: task.info,
            deadline: task.deadline,
            status: task.status,
            updated_at,
            created_at: task.created_at,
        };
        let out = t.duplicate();
        self.tasks.push(t);
        proof {
            assert(self@.tasks =~= old(self)@.tasks.push(out@));
            assert(tasks_wf(self@.tasks)) by {
                assert(forall|i: int|
                    0 <= i < old(self)@.tasks.len() ==> (#[trigger] old(self)@.tasks[i]).id != id);
            }
        }
        Ok(out)
    }

    /// Applies a partial update to the task carrying `id` and stamps it
    /// with `now`. Supplying zero fields is refused and changes nothing;
    /// a missing id leaves the table unchanged.
    pub fn update_task(&mut self, id: i64, new_task: UpdateTask, now: Date) -> (r: Result<
        (),
        Error,
    >)
        requires
            old(self).wf(),
        ensures
            new_task@.supplied_fields() == 0 ==> (r == Err::<(), Error>(Error::NoChange)
                && final(self)@ == old(self)@),
            new_task@.supplied_fields() > 0 ==> (r is Ok && final(self)@.tasks == apply_update(
                old(self)@.tasks,
                id,
                new_task@,
                now,
            ) && final(self)@.links == old(self)@.links
                && final(self)@.actions == old(self)@.actions && final(self).wf()),
    {
        let ghost u = new_task@;
        let UpdateTask { title: ut, info: ui, deadline: ud, status: us, created_at: uc } =
            new_task;
        if ut.is_none() && ui.is_none() && ud.is_none() && us.is_none() && uc.is_none() {
            return Err(Error::NoChange);
        }
        proof {
            assert(u.supplied_fields() > 0);
        }
        let ghost target = apply_update(old(self)@.tasks, id, u, now);
        let mut i: usize = 0;
        while i < self.tasks.len()
            invariant
                self.wf(),
                self == old(self),
                i <= self.tasks.len(),
                u == new_task@,
                u.supplied_fields() > 0,
                target == apply_update(old(self)@.tasks, id, u, now),
                ut.deep_view() == u.title,
                ui.deep_view() == u.info,
                ud == u.deadline,
                us == u.status,
                uc == u.created_at,
                forall|k: int| 0 <= k < i ==> (#[trigger] old(self)@.tasks[k]).id != id,
            decreases self.tasks.len() - i,
        {
            if self.tasks[i].id == id {
                let cur = self.tasks[i].duplicate();
                proof {
                    assert(cur@ == old(self)@.tasks[i as int]);
                }
                let ghost cur0 = cur@;
                let newt = Task {
                    id: cur.id,
                    title: match ut {
                        Some(x) => x,
                        None => cur.title,
                    },
                    info: match ui {
                        Some(x) => x,
                        None => cur.info,
                    },
                    deadline: match ud {
                        Some(x) => x,
                        None => cur.deadline,
                    },
                    status: match us {
                        Some(x) => x,
                        None => cur.status,
                    },
                    created_at: match uc {
                        Some(x) => x,
                        None => cur.created_at,
                    },
                    updated_at: now,
                };
                proof {
                    assert(newt@ == u.applied_to(cur0, now));
                }
                self.tasks.set(i, newt);
                proof {
                    assert(target.len() == old(self)@.tasks.len());
                    assert forall|k: int| 0 <= k < target.len() implies self@.tasks[k]
                        == target[k] by {
                        if k != i {
                            assert(0 <= k < old(self)@.tasks.len());
                            assert(old(self)@.tasks[i as int].id == id);
                            if k > i {
                                assert(old(self)@.tasks[i as int].id != old(self)@.tasks[k].id);
                            }
                            assert(old(self)@.tasks[k].id != id);
                        }
                    }
                    assert(self@.tasks =~= target);
                    assert(tasks_wf(self@.tasks)) by {
                        assert(forall|k: int|
                            0 <= k < self@.tasks.len() ==> (#[trigger] self@.tasks[k]).id == old(
                                self,
                            )@.tasks[k].id);
                    }
                }
                return Ok(());
            }
            i = i + 1;
        }
        proof {
            assert(self@.tasks =~= target);
        }
        Ok(())
    }

    /// Deletes every archived task row and reports how many there were.
    /// Housekeeping: not recorded in the ledger.
    pub fn delete_archived(&mut self) -> (r: i64)
        requires
            old(self).wf(),
            old(self)@.tasks.len() <= i64::MAX,
        ensures
            r as int == old(self)@.tasks.filter(
                |t: TaskVw| t.status == TaskStatusEnum::Archived,
            ).len(),
            final(self)@.tasks == old(self)@.tasks.filter(
                |t: TaskVw| t.status != TaskStatusEnum::Archived,
            ),
            final(self)@.links == old(self)@.links,
            final(self)@.actions == old(self)@.actions,
            final(self).wf(),
    {
        let ghost keep = |t: TaskVw| t.status != TaskStatusEnum::Archived;
        let ghost gone = |t: TaskVw| t.status == TaskStatusEnum::Archived;
        let mut kept: Vec<Task> = Vec::new();
        let mut count: usize = 0;
        let mut i: usize = 0;
        while i < self.tasks.len()
            invariant
                self.wf(),
                self == old(self),
                self@.tasks.len() <= i64::MAX,
                i <= self.tasks.len(),
                keep == (|t: TaskVw| t.status != TaskStatusEnum::Archived),
                gone == (|t: TaskVw| t.status == TaskStatusEnum::Archived),
                kept.deep_view() == self@.tasks.take(i as int).filter(keep),
                count as int == self@.tasks.take(i as int).filter(gone).len(),
                count <= i,
            decreases self.tasks.len() - i,
        {
            proof {
                lemma_filter_push(self@.tasks, i as int, keep);
                lemma_filter_push(self@.tasks, i as int, gone);
            }
            if matches!(self.tasks[i].status, TaskStatusEnum::Archived) {
                count = count + 1;
            } else {
                kept.push(self.tasks[i].duplicate());
            }
            proof {
                assert(kept.deep_view() =~= self@.tasks.take(i + 1).filter(keep));
            }
            i = i + 1;
        }
        proof {
            assert(self@.tasks.take(self.tasks@.len() as int) =~= self@.tasks);
            lemma_filter_pairs(self@.tasks, keep, |a: TaskVw, b: TaskVw| a.id != b.id);
            lemma_filter_all(self@.tasks, keep, |t: TaskVw| 1 <= t.id);
            self@.tasks.lemma_filter_len(gone);
        }
        self.tasks = kept;
        count as i64
    }

    /// Archives every completed task and reports how many there were.
    /// Housekeeping: not recorded in the ledger.
    pub fn archive_tasks(&mut self) -> (r: i64)
        requires
            old(self).wf(),
            old(self)@.tasks.len() <= i64::MAX,
        ensures
            r as int == old(self)@.tasks.filter(
                |t: TaskVw| t.status == TaskStatusEnum::Done,
            ).len(),
            final(self)@.tasks == old(self)@.tasks.map_values(
                |t: TaskVw| if t.status == TaskStatusEnum::Done {
                    TaskVw { status: TaskStatusEnum::Archived, ..t }
                } else {
                    t
                },
            ),
            final(self)@.links == old(self)@.links,
            final(self)@.actions == old(self)@.actions,
            final(self).wf(),
    {
        let ghost done = |t: TaskVw| t.status == TaskStatusEnum::Done;
        let ghost target = old(self)@.tasks.map_values(
            |t: TaskVw|
                if t.status == TaskStatusEnum::Done {
                    TaskVw { status: TaskStatusEnum::Archived, ..t }
                } else {
                    t
                },
        );
        let mut out: Vec<Task> = Vec::new();
        let mut count: usize = 0;
        let mut i: usize = 0;
        while i < self.tasks.len()
            invariant
                self.wf(),
                self == old(self),
                self@.tasks.len() <= i64::MAX,
                i <= self.tasks.len(),
                done == (|t: TaskVw| t.status == TaskStatusEnum::Done),
                target == old(self)@.tasks.map_values(
                    |t: TaskVw|
                        if t.status == TaskStatusEnum::Done {
                            TaskVw { status: TaskStatusEnum::Archived, ..t }
                        } else {
                            t
                        },
                ),
                out.deep_view() == target.take(i as int),
                count as int == self@.tasks.take(i as int).filter(done).len(),
                count <= i,
            decreases self.tasks.len() - i,
        {
            proof {
                lemma_filter_push(self@.tasks, i as int, done);
            }
            let ghost outprev = out.deep_view();
            let row = self.tasks[i].duplicate();
            proof {
                assert(row@ == self@.tasks[i as int]);
            }
            let ghost row0 = row@;
            let newt = if matches!(row.status, TaskStatusEnum::Done) {
                count = count + 1;
                Task { status: TaskStatusEnum::Archived, ..row }
            } else {
                row
            };
            proof {
                assert(newt@ == target[i as int]);
            }
            out.push(newt);
            proof {
                assert(target.len() == old(self)@.tasks.len());
                assert(out.deep_view().len() == out@.len());
                assert(outprev.len() == i as int);
                assert(out.deep_view().len() == i + 1);
                assert forall|k: int| 0 <= k < out.deep_view().len() implies out.deep_view()[k]
                    == target.take(i + 1)[k] by {
                    if k < outprev.len() {
                        assert(out.deep_view()[k] == outprev[k]);
                        assert(outprev[k] == target.take(i as int)[k]);
                    } else {
                        assert(out.deep_view()[k] == target[i as int]);
                    }
                }
                assert(out.deep_view() =~= target.take(i + 1));
            }
            i = i + 1;
        }
        proof {
            assert(self@.tasks.take(self.tasks@.len() as int) =~= self@.tasks);
            assert(target.take(target.len() as int) =~= target);
            assert(tasks_wf(target)) by {
                assert(forall|k: int|
                    0 <= k < target.len() ==> (#[trigger] target[k]).id == old(
                        self,
                    )@.tasks[k].id);
            }
        }
        self.tasks = out;
        count as i64
    }

    /// Deletes the row carrying `task`'s id, if present.
    pub fn delete_task(&mut self, task: &Task)
        requires
            old(self).wf(),
        ensures
            final(self)@.tasks == old(self)@.tasks.filter(|t: TaskVw| t.id != task.id),
            final(self)@.links == old(self)@.links,
            final(self)@.actions == old(self)@.actions,
            final(self).wf(),
    {
        let ghost pred = |t: TaskVw| t.id != task.id;
        let mut kept: Vec<Task> = Vec::new();
        let mut i: usize = 0;
        while i < self.tasks.len()
            invariant
                self.wf(),
                self == old(self),
                i <= self.tasks.len(),
                kept.deep_view() == self@.tasks.take(i as int).filter(pred),
                pred == (|t: TaskVw| t.id != task.id),
            decreases self.tasks.len() - i,
        {
            proof {
                lemma_filter_push(self@.tasks, i as int, pred);
            }
            if self.tasks[i].id != task.id {
                kept.push(self.tasks[i].duplicate());
                proof {
                    assert(kept.deep_view() =~= self@.tasks.take(i + 1).filter(pred));
                }
            } else {
                proof {
                    assert(kept.deep_view() =~= self@.tasks.take(i + 1).filter(pred));
                }
            }
            i = i + 1;
        }
        proof {
            assert(self@.tasks.take(self.tasks@.len() as int) =~= self@.tasks);
            lemma_filter_pairs(self@.tasks, pred, |a: TaskVw, b: TaskVw| a.id != b.id);
            lemma_filter_all(self@.tasks, pred, |t: TaskVw| 1 <= t.id);
        }
        self.tasks = kept;
    }
}


/// The single sort key a query honors.
///
/// When several sort flags are supplied only the first of creation date,
/// update date, deadline and title takes effect; a deliberate choice where
/// the storage layer would otherwise leave the composition unspecified.
#[derive(Debug, Clone, Copy, PartialEq, Eq, Structural)]
pub enum SortField {
    CreatedAt,
    UpdatedAt,
    Deadline,
    Title,
}

/// Absent deadlines sort before every date.
pub open spec fn opt_date_le(a: Option<Date>, b: Option<Date>) -> bool {
    match (a, b) {
        (Option::None, _) => true,
        (Option::Some(_), Option::None) => false,
        (Option::Some(x), Option::Some(y)) => x.le_spec(y),
    }
}

/// The order a sort field puts on two tasks, ascending.
pub open spec fn field_le(f: SortField, a: TaskVw, b: TaskVw) -> bool {
    match f {
        SortField::CreatedAt => a.created_at.le_spec(b.created_at),
        SortField::UpdatedAt => a.updated_at.le_spec(b.updated_at),
        SortField::Deadline => opt_date_le(a.deadline, b.deadline),
        SortField::Title => seq_char_le(a.title, b.title),
    }
}

/// The order a sort key and direction put on two tasks.
pub open spec fn task_le(f: SortField, dir: OrderByEnum, a: TaskVw, b: TaskVw) -> bool {
    match dir {
        OrderByEnum::Asc => field_le(f, a, b),
        OrderByEnum::Desc => field_le(f, b, a),
    }
}

/// The sort key a query payload names, if any.
pub open spec fn chosen_sort(q: QueryTaskPayload) -> Option<(SortField, OrderByEnum)> {
    if q.sort_created_at is Some {
        Some((SortField::CreatedAt, q.sort_created_at->0))
    } else if q.sort_updated_at is Some {
        Some((SortField::UpdatedAt, q.sort_updated_at->0))
    } else if q.sort_deadline is Some {
        Some((SortField::Deadline, q.sort_deadline->0))
    } else if q.sort_title is Some {
        Some((SortField::Title, q.sort_title->0))
    } else {
        None
    }
}

/// Whether `txt` occurs in the task's title or info: the text index the
/// store maintains over both columns.
pub open spec fn text_match(t: TaskVw, txt: Seq<char>) -> bool {
    contains_text(t.title, txt) || (t.info matches Some(i) && contains_text(i, txt))
}

/// Whether the task carries at least one of the named categories.
pub open spec fn in_categories(id: i64, cats: Seq<Seq<char>>, links: Seq<LinkVw>) -> bool {
    exists|k: int| 0 <= k < cats.len() && has_link(links, id, #[trigger] cats[k])
}

/// Whether a task passes every filter of the query.
pub open spec fn matches_query(t: TaskVw, links: Seq<LinkVw>, q: QueryTaskPayload) -> bool {
    &&& (q.status matches Some(st) ==> t.status == st)
    &&& (q.text matches Some(txt) ==> text_match(t, txt@))
    &&& (q.categories matches Some(cats) ==> in_categories(t.id, cats.deep_view(), links))
}

/// The rows that pass every filter of the query, in table order.
pub open spec fn query_filter(
    tasks: Seq<TaskVw>,
    links: Seq<LinkVw>,
    q: QueryTaskPayload,
) -> Seq<TaskVw> {
    tasks.filter(|t: TaskVw| matches_query(t, links, q))
}

/// At most the first `limit` rows.
pub open spec fn take_limit(s: Seq<TaskVw>, limit: u64) -> Seq<TaskVw> {
    if s.len() <= limit {
        s
    } else {
        s.take(limit as int)
    }
}

/// Sorted under the query's key: every earlier row is at most every later
/// one.
pub open spec fn sorted_tasks(s: Seq<TaskVw>, f: SortField, dir: OrderByEnum) -> bool {
    forall|i: int, j: int| 0 <= i < j < s.len() ==> task_le(f, dir, #[trigger] s[i], #[trigger] s[j])
}

/// The order of any sort key relates every two tasks one way or the
/// other.
pub proof fn lemma_task_le_total(f: SortField, dir: OrderByEnum, a: TaskVw, b: TaskVw)
    ensures
        task_le(f, dir, a, b) || task_le(f, dir, b, a),
{
    if f is Title {
        lemma_seq_char_le_total(a.title, b.title);
    }
}

/// The order of any sort key is transitive.
pub proof fn lemma_task_le_trans(f: SortField, dir: OrderByEnum, a: TaskVw, b: TaskVw, c: TaskVw)
    requires
        task_le(f, dir, a, b),
        task_le(f, dir, b, c),
    ensures
        task_le(f, dir, a, c),
{
    if f is Title {
        match dir {
            OrderByEnum::Asc => crate::strings::lemma_seq_char_le_trans(
                a.title,
                b.title,
                c.title,
            ),
            OrderByEnum::Desc => crate::strings::lemma_seq_char_le_trans(
                c.title,
                b.title,
                a.title,
            ),
        }
    }
}

impl Store {
    /// Whether a task passes every filter of the query.
    fn matches_exec(&self, t: &Task, payload: &QueryTaskPayload) -> (r: bool)
        ensures
            r == matches_query(t@, self@.links, *payload),
    {
        match &payload.status {
            Some(st) => {
                if !(*st == t.status) {
                    return false;
                }
            },
            None => {},
        }
        match &payload.text {
            Some(tx) => {
                let in_title = str_contains(t.title.as_str(), tx.as_str());
                let in_info = match &t.info {
                    Some(i) => str_contains(i.as_str(), tx.as_str()),
                    None => false,
                };
                if !(in_title || in_info) {
                    return false;
                }
            },
            None => {},
        }
        match &payload.categories {
            Some(cats) => {
                let mut k: usize = 0;
                while k < cats.len()
                    invariant
                        k <= cats.len(),
                        payload.status matches Some(st) ==> t@.status == st,
                        payload.text matches Some(txt) ==> text_match(t@, txt@),
                        payload.categories == Some(*cats),
                        forall|p: int|
                            0 <= p < k ==> !has_link(
                                self@.links,
                                t.id,
                                #[trigger] cats.deep_view()[p],
                            ),
                    decreases cats.len() - k,
                {
                    proof {
                        assert(cats.deep_view()[k as int] == cats@[k as int]@);
                    }
                    if self.link_exists(t.id, cats[k].as_str()) {
                        proof {
                            assert(has_link(self@.links, t.id, cats.deep_view()[k as int]));
                            assert(in_categories(t.id, cats.deep_view(), self@.links));
                            assert(matches_query(t@, self@.links, *payload));
                        }
                        return true;
                    }
                    k = k + 1;
                }
                return false;
            },
            None => {},
        }
        true
    }

    /// Queries tasks: status, category and free-text filters, then one
    /// sort key, then the row limit. Equal keys leave the relative order
    /// unspecified.
    pub fn query_tasks(&self, payload: QueryTaskPayload) -> (r: Vec<Task>)
        requires
            self.wf(),
        ensures
            chosen_sort(payload) is None ==> r.deep_view() == take_limit(
                query_filter(self@.tasks, self@.links, payload),
                payload.limit,
            ),
            chosen_sort(payload) matches Some(sd) ==> (exists|full: Seq<TaskVw>|
                full.to_multiset() == query_filter(
                    self@.tasks,
                    self@.links,
                    payload,
                ).to_multiset() && sorted_tasks(full, sd.0, sd.1) && r.deep_view() == take_limit(
                    full,
                    payload.limit,
                )),
    {
        let ghost q = payload;
        let ghost pred = |t: TaskVw| matches_query(t, self@.links, q);
        let mut found: Vec<Task> = Vec::new();
        let mut i: usize = 0;
        while i < self.tasks.len()
            invariant
                self.wf(),
                q == payload,
                pred == (|t: TaskVw| matches_query(t, self@.links, q)),
                i <= self.tasks.len(),
                found.deep_view() == self@.tasks.take(i as int).filter(pred),
            decreases self.tasks.len() - i,
        {
            proof {
                lemma_filter_push(self@.tasks, i as int, pred);
                assert(self@.tasks[i as int] == self.tasks@[i as int]@);
            }
            let ghost fprev = found.deep_view();
            if self.matches_exec(&self.tasks[i], &payload) {
                found.push(self.tasks[i].duplicate());
                proof {
                    assert forall|k: int| 0 <= k < found.deep_view().len() implies found.deep_view()[k]
                        == self@.tasks.take(i + 1).filter(pred)[k] by {
                        if k < fprev.len() {
                            assert(found.deep_view()[k] == fprev[k]);
                        }
                    }
                    assert(found.deep_view() =~= self@.tasks.take(i + 1).filter(pred));
                }
            } else {
                proof {
                    assert(found.deep_view() =~= self@.tasks.take(i + 1).filter(pred));
                }
            }
            i = i + 1;
        }
        proof {
            assert(self@.tasks.take(self.tasks@.len() as int) =~= self@.tasks);
            assert(found.deep_view() == query_filter(self@.tasks, self@.links, payload));
        }
        let sorted = match sort_key_exec(&payload) {
            None => found,
            Some((f, dir)) => sort_tasks(found, f, dir),
        };
        let mut r = sorted;
        let ghost full = r.deep_view();
        proof {
            assert(full.take(full.len() as int) =~= full);
        }
        while r.len() as u64 > payload.limit
            invariant
                r.deep_view() == full.take(r.deep_view().len() as int),
                full.len() >= r.deep_view().len(),
                full.len() > payload.limit ==> r.deep_view().len() >= payload.limit,
                full.len() <= payload.limit ==> r.deep_view().len() == full.len(),
            decreases r.len(),
        {
            let ghost before = r.deep_view();
            r.pop();
            proof {
                assert(r.deep_view() =~= before.drop_last());
                assert(r.deep_view() =~= full.take(r.deep_view().len() as int));
            }
        }
        proof {
            if full.len() <= payload.limit {
                assert(r.deep_view().len() == full.len());
                assert(r.deep_view() =~= full);
            } else {
                assert(r.deep_view().len() == payload.limit as int);
            }
            assert(r.deep_view() == take_limit(full, payload.limit));
        }
        r
    }
}

/// The sort key a query payload names, if any.
fn sort_key_exec(payload: &QueryTaskPayload) -> (r: Option<(SortField, OrderByEnum)>)
    ensures
        r == chosen_sort(*payload),
{
    if let Some(d) = payload.sort_created_at {
        Some((SortField::CreatedAt, d))
    } else if let Some(d) = payload.sort_updated_at {
        Some((SortField::UpdatedAt, d))
    } else if let Some(d) = payload.sort_deadline {
        Some((SortField::Deadline, d))
    } else if let Some(d) = payload.sort_title {
        Some((SortField::Title, d))
    } else {
        None
    }
}

/// The order a sort key and direction put on two tasks.
fn task_le_exec(f: SortField, dir: OrderByEnum, a: &Task, b: &Task) -> (r: bool)
    ensures
        r == task_le(f, dir, a@, b@),
{
    let (x, y) = match dir {
        OrderByEnum::Asc => (a, b),
        OrderByEnum::Desc => (b, a),
    };
    match f {
        SortField::CreatedAt => x.created_at.le(&y.created_at),
        SortField::UpdatedAt => x.updated_at.le(&y.updated_at),
        SortField::Deadline => match (&x.deadline, &y.deadline) {
            (None, _) => true,
            (Some(_), None) => false,
            (Some(dx), Some(dy)) => dx.le(dy),
        },
        SortField::Title => str_le(x.title.as_str(), y.title.as_str()),
    }
}

/// Moving one row from the working table to the output keeps the joint
/// contents.
proof fn proof_multiset_helper(wprev: Seq<TaskVw>, oprev: Seq<TaskVw>, xv: TaskVw, mi: int)
    requires
        0 <= mi < wprev.len(),
        wprev[mi] == xv,
    ensures
        wprev.contains(xv),
        wprev.to_multiset().count(xv) > 0,
        oprev.push(xv).to_multiset() == oprev.to_multiset().insert(xv),
        wprev.remove(mi).to_multiset() == wprev.to_multiset().remove(xv),
        oprev.push(xv).to_multiset().add(wprev.remove(mi).to_multiset()) =~= oprev.to_multiset().add(
            wprev.to_multiset(),
        ),
{
    broadcast use vstd::seq_lib::group_to_multiset_ensures;
    broadcast use vstd::multiset::group_multiset_axioms;

    assert(wprev.contains(xv));
    assert(oprev.push(xv).to_multiset() =~= oprev.to_multiset().insert(xv));
    assert(wprev.remove(mi).to_multiset() =~= wprev.to_multiset().remove(xv));
}

/// Sorts tasks under the chosen key by repeatedly extracting a least
/// element; the result holds the same rows, sorted.
fn sort_tasks(v: Vec<Task>, f: SortField, dir: OrderByEnum) -> (r: Vec<Task>)
    ensures
        r.deep_view().to_multiset() == v.deep_view().to_multiset(),
        sorted_tasks(r.deep_view(), f, dir),
{
    broadcast use vstd::seq_lib::group_to_multiset_ensures;
    broadcast use vstd::multiset::group_multiset_axioms;

    let ghost orig = v.deep_view();
    let mut work = v;
    let mut out: Vec<Task> = Vec::new();
    while work.len() > 0
        invariant
            out.deep_view().to_multiset().add(work.deep_view().to_multiset())
                == orig.to_multiset(),
            sorted_tasks(out.deep_view(), f, dir),
            forall|p: int, s: int|
                0 <= p < out.deep_view().len() && 0 <= s < work.deep_view().len() ==> task_le(
                    f,
                    dir,
                    #[trigger] out.deep_view()[p],
                    #[trigger] work.deep_view()[s],
                ),
        decreases work.len(),
    {
        let mut mi: usize = 0;
        let mut j: usize = 1;
        proof {
            lemma_task_le_total(f, dir, work.deep_view()[0], work.deep_view()[0]);
        }
        while j < work.len()
            invariant
                work.len() > 0,
                mi < j <= work.len(),
                forall|k: int|
                    0 <= k < j ==> task_le(
                        f,
                        dir,
                        work.deep_view()[mi as int],
                        #[trigger] work.deep_view()[k],
                    ),
            decreases work.len() - j,
        {
            proof {
                lemma_task_le_total(f, dir, work.deep_view()[mi as int], work.deep_view()[j as int]);
            }
            if task_le_exec(f, dir, &work[j], &work[mi]) {
                let ghost old_mi = mi as int;
                mi = j;
                proof {
                    assert forall|k: int| 0 <= k < j + 1 implies task_le(
                        f,
                        dir,
                        work.deep_view()[mi as int],
                        #[trigger] work.deep_view()[k],
                    ) by {
                        if k < j {
                            assert(task_le(f, dir, work.deep_view()[old_mi], work.deep_view()[k]));
                            lemma_task_le_trans(
                                f,
                                dir,
                                work.deep_view()[j as int],
                                work.deep_view()[old_mi],
                                work.deep_view()[k],
                            );
                        } else {
                            lemma_task_le_total(
                                f,
                                dir,
                                work.deep_view()[k],
                                work.deep_view()[k],
                            );
                        }
                    }
                }
            } else {
                proof {
                    lemma_task_le_total(f, dir, work.deep_view()[j as int], work.deep_view()[mi as int]);
                }
            }
            j = j + 1;
        }
        proof {
            lemma_task_le_total(f, dir, work.deep_view()[mi as int], work.deep_view()[mi as int]);
        }
        let ghost wprev = work.deep_view();
        let ghost oprev = out.deep_view();
        let x = work.remove(mi);
        let ghost xv = x.deep_view();
        out.push(x);
        proof {
            assert(work.deep_view() =~= wprev.remove(mi as int));
            assert(out.deep_view() =~= oprev.push(xv));
            assert(xv == wprev[mi as int]);
            proof_multiset_helper(wprev, oprev, xv, mi as int);
            assert(wprev.contains(xv));
            assert(wprev.to_multiset().count(xv) > 0);
            assert(out.deep_view().to_multiset().add(work.deep_view().to_multiset()) =~= orig.to_multiset());
            assert forall|p: int, s: int|
                0 <= p < out.deep_view().len() && 0 <= s < work.deep_view().len() implies task_le(
                f,
                dir,
                #[trigger] out.deep_view()[p],
                #[trigger] work.deep_view()[s],
            ) by {
                let src = if s < mi as int { s } else { s + 1 };
                assert(work.deep_view()[s] == wprev[src]);
                if p < oprev.len() {
                    assert(out.deep_view()[p] == oprev[p]);
                } else {
                    assert(out.deep_view()[p] == xv);
                    assert(task_le(f, dir, wprev[mi as int], wprev[src]));
                }
            }
            assert forall|p: int, s: int|
                0 <= p < s < out.deep_view().len() implies task_le(
                f,
                dir,
                #[trigger] out.deep_view()[p],
                #[trigger] out.deep_view()[s],
            ) by {
                if s < oprev.len() {
                    assert(out.deep_view()[p] == oprev[p] && out.deep_view()[s] == oprev[s]);
                } else {
                    assert(out.deep_view()[s] == xv);
                    assert(out.deep_view()[p] == oprev[p]);
                    assert(task_le(f, dir, oprev[p], wprev[mi as int]));
                }
            }
        }
    }
    proof {
        assert(work.deep_view() =~= Seq::<TaskVw>::empty());
        assert(out.deep_view().to_multiset().add(work.deep_view().to_multiset()) =~= out.deep_view().to_multiset());
    }
    out
}

} // verus!
