//! The relational store: three tables held in memory, with the row
//! discipline the schema enforces (unique task ids, unique assignment
//! pairs, strictly increasing ledger ids).

use vstd::prelude::*;

use crate::models::{ActionVw, LinkVw, RecordVw, TaskVw};

verus! {

/// The mathematical model of a store: each table as a sequence of rows.
pub struct StoreV {
    pub tasks: Seq<TaskVw>,
    pub links: Seq<LinkVw>,
    pub actions: Seq<RecordVw>,
}

/// Whether two assignment rows name the same (task id, category) pair.
pub open spec fn link_dup(a: LinkVw, b: LinkVw) -> bool {
    a.task_id == b.task_id && a.category == b.category
}

/// Task rows carry unique, positive ids.
pub open spec fn tasks_wf(tasks: Seq<TaskVw>) -> bool {
    &&& forall|i: int, j: int|
        0 <= i < j < tasks.len() ==> (#[trigger] tasks[i]).id != (#[trigger] tasks[j]).id
    &&& forall|i: int| 0 <= i < tasks.len() ==> 1 <= (#[trigger] tasks[i]).id
}

/// Assignment rows name distinct (task id, category) pairs.
pub open spec fn links_wf(links: Seq<LinkVw>) -> bool {
    forall|i: int, j: int|
        0 <= i < j < links.len() ==> !link_dup(#[trigger] links[i], #[trigger] links[j])
}

/// Ledger rows carry strictly increasing, positive ids.
pub open spec fn actions_wf(actions: Seq<RecordVw>) -> bool {
    &&& forall|i: int, j: int|
        0 <= i < j < actions.len() ==> (#[trigger] actions[i]).id < (#[trigger] actions[j]).id
    &&& forall|i: int| 0 <= i < actions.len() ==> 1 <= (#[trigger] actions[i]).id
}

impl StoreV {
    /// The row discipline of the whole store.
    pub open spec fn wf(self) -> bool {
        tasks_wf(self.tasks) && links_wf(self.links) && actions_wf(self.actions)
    }
}

/// Whether some task row carries `id`.
pub open spec fn has_task(tasks: Seq<TaskVw>, id: i64) -> bool {
    exists|i: int| 0 <= i < tasks.len() && (#[trigger] tasks[i]).id == id
}

/// The task row carrying `id` (unique under [`tasks_wf`]).
pub open spec fn task_of(tasks: Seq<TaskVw>, id: i64) -> TaskVw {
    tasks[choose|i: int| 0 <= i < tasks.len() && (#[trigger] tasks[i]).id == id]
}

/// Under [`tasks_wf`], a row with a matching id is the row [`task_of`]
/// names.
pub proof fn lemma_task_at(tasks: Seq<TaskVw>, id: i64, i: int)
    requires
        tasks_wf(tasks),
        0 <= i < tasks.len(),
        tasks[i].id == id,
    ensures
        has_task(tasks, id),
        task_of(tasks, id) == tasks[i],
{
    assert(has_task(tasks, id));
    let j = choose|j: int| 0 <= j < tasks.len() && (#[trigger] tasks[j]).id == id;
    if i != j {
        assert(tasks[i].id != tasks[j].id);
    }
}

/// Whether `category` is assigned to `task_id`.
pub open spec fn has_link(links: Seq<LinkVw>, task_id: i64, category: Seq<char>) -> bool {
    exists|i: int|
        0 <= i < links.len() && (#[trigger] links[i]).task_id == task_id && links[i].category
            == category
}

/// The greatest task id in use, 0 when there are no tasks.
pub open spec fn max_task_id(tasks: Seq<TaskVw>) -> int
    decreases tasks.len(),
{
    if tasks.len() == 0 {
        0
    } else {
        let m = max_task_id(tasks.drop_last());
        if tasks.last().id > m {
            tasks.last().id as int
        } else {
            m
        }
    }
}

/// Every task id is at most [`max_task_id`].
pub proof fn lemma_max_task_id(tasks: Seq<TaskVw>)
    ensures
        forall|i: int| 0 <= i < tasks.len() ==> (#[trigger] tasks[i]).id <= max_task_id(tasks),
        max_task_id(tasks) >= 0,
    decreases tasks.len(),
{
    if tasks.len() > 0 {
        lemma_max_task_id(tasks.drop_last());
        assert forall|i: int| 0 <= i < tasks.len() implies (#[trigger] tasks[i]).id
            <= max_task_id(tasks) by {
            if i < tasks.len() - 1 {
                assert(tasks.drop_last()[i] == tasks[i]);
                assert(tasks.drop_last()[i].id <= max_task_id(tasks.drop_last()));
            }
        }
    }
}

/// The id the ledger assigns to its next record.
pub open spec fn next_action_id(actions: Seq<RecordVw>) -> int {
    if actions.len() == 0 {
        1
    } else {
        actions.last().id + 1
    }
}

/// Every ledger id is below [`next_action_id`].
pub proof fn lemma_next_action_id(actions: Seq<RecordVw>)
    requires
        actions_wf(actions),
    ensures
        forall|i: int|
            0 <= i < actions.len() ==> (#[trigger] actions[i]).id < next_action_id(actions),
{
    if actions.len() > 0 {
        assert(forall|i: int|
            0 <= i < actions.len() - 1 ==> (#[trigger] actions[i]).id < actions[actions.len()
                - 1].id);
    }
}

/// The ledger with every restored record discarded.
pub open spec fn unrestored(actions: Seq<RecordVw>) -> Seq<RecordVw> {
    actions.filter(|a: RecordVw| !a.restored)
}

/// The record an undo targets: the unrestored record with the greatest id.
pub open spec fn undo_target_spec(actions: Seq<RecordVw>) -> Option<RecordVw>
    decreases actions.len(),
{
    if actions.len() == 0 {
        None
    } else if !actions.last().restored {
        Some(actions.last())
    } else {
        undo_target_spec(actions.drop_last())
    }
}

/// The record a redo targets: the restored record with the least id.
pub open spec fn redo_target_spec(actions: Seq<RecordVw>) -> Option<RecordVw>
    decreases actions.len(),
{
    if actions.len() == 0 {
        None
    } else if actions[0].restored {
        Some(actions[0])
    } else {
        redo_target_spec(actions.skip(1))
    }
}

/// The ledger after overwriting the content and flag of the record with
/// this `id` (unchanged when no record carries it).
pub open spec fn replace_action(
    actions: Seq<RecordVw>,
    id: i64,
    act: ActionVw,
    restored: bool,
) -> Seq<RecordVw> {
    actions.map_values(
        |a: RecordVw|
            if a.id == id {
                RecordVw { id: a.id, action: act, restored, created_at: a.created_at }
            } else {
                a
            },
    )
}

/// The tasks, task/category assignments and the action ledger, as one
/// in-memory store. All operations keep [`StoreV::wf`].
#[derive(Debug)]
pub struct Store {
    pub tasks: Vec<crate::models::Task>,
    pub links: Vec<crate::models::TaskCategory>,
    pub actions: Vec<crate::models::Action>,
}

impl View for Store {
    type V = StoreV;

    open spec fn view(&self) -> StoreV {
        StoreV {
            tasks: self.tasks.deep_view(),
            links: self.links.deep_view(),
            actions: self.actions.deep_view(),
        }
    }
}

impl Store {
    /// The row discipline, lifted to the executable store.
    pub open spec fn wf(&self) -> bool {
        self@.wf()
    }

    /// An empty store.
    pub fn new() -> (s: Store)
        ensures
            s@.tasks.len() == 0,
            s@.links.len() == 0,
            s@.actions.len() == 0,
            s.wf(),
    {
        Store { tasks: Vec::new(), links: Vec::new(), actions: Vec::new() }
    }
}

} // verus!
