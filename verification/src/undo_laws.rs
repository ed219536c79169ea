//! The undo laws: each accepted request, undone immediately, restores
//! the entity tables exactly.

use vstd::prelude::*;

use crate::category_repository::{
    batch_cats_ok, batch_ids_ok, batch_rename_conflict, categories_of, id_pairs, link_pairs,
    rename_all_links, rename_link, task_ids_of,
};
use crate::date::Date;
use crate::laws::{
    apply_op, lemma_fresh_record_is_target, lemma_categories_of_distinct, redo_step, undo_step, lemma_contains_add, lemma_contains_push,
    lemma_filter_contains_iff, lemma_filter_identity, lemma_filter_none, lemma_has_link_iff,
    lemma_id_pairs_of, lemma_link_pairs_of, lemma_task_ids_distinct, op_sound, ref_ok,
    same_elems, undo_reverses, Op,
};
use crate::models::{ActionTypeEnum, ActionVw, AddTaskVw, LinkVw, RecordVw, TaskVw, UpdateTaskVw};
use crate::repositories::{cats_or_empty, full_update, replay, replay_entity, task_payload};
use crate::store::{has_link, has_task, redo_target_spec, task_of, undo_target_spec, unrestored, StoreV};
use crate::task_repository::{apply_update, new_task_row, restored_task_row};

verus! {

/// Removing a pair no other row carries takes back exactly the pushed
/// row.
proof fn kernel_remove_fresh_link(links: Seq<LinkVw>, l: LinkVw)
    requires
        forall|i: int|
            0 <= i < links.len() ==> !((#[trigger] links[i]).task_id == l.task_id
                && links[i].category == l.category),
    ensures
        (links.push(l)).filter(
            |x: LinkVw| !(x.task_id == l.task_id && x.category == l.category),
        ) == links,
{
    let lpred = |x: LinkVw| !(x.task_id == l.task_id && x.category == l.category);
    assert(links.push(l) =~= links + seq![l]);
    Seq::filter_distributes_over_add(links, seq![l], lpred);
    lemma_filter_identity(links, lpred);
    assert(forall|i: int| 0 <= i < seq![l].len() ==> !lpred(#[trigger] seq![l][i]));
    lemma_filter_none(seq![l], lpred);
    assert((links.push(l)).filter(lpred) =~= links);
}


/// Removing a fresh task id takes back exactly the pushed row.
proof fn kernel_remove_fresh_task(tasks: Seq<TaskVw>, t: TaskVw)
    requires
        forall|i: int| 0 <= i < tasks.len() ==> (#[trigger] tasks[i]).id != t.id,
    ensures
        (tasks.push(t)).filter(|x: TaskVw| x.id != t.id) == tasks,
{
    let tpred = |x: TaskVw| x.id != t.id;
    assert(tasks.push(t) =~= tasks + seq![t]);
    Seq::filter_distributes_over_add(tasks, seq![t], tpred);
    lemma_filter_identity(tasks, tpred);
    assert(forall|i: int| 0 <= i < seq![t].len() ==> !tpred(#[trigger] seq![t][i]));
    lemma_filter_none(seq![t], tpred);
    assert((tasks.push(t)).filter(tpred) =~= tasks);
}

/// Removing the rows of a fresh task id takes back exactly the appended
/// pairs.
proof fn kernel_remove_fresh_pairs(links: Seq<LinkVw>, pairs: Seq<LinkVw>, tid: i64)
    requires
        forall|i: int| 0 <= i < links.len() ==> (#[trigger] links[i]).task_id != tid,
        forall|i: int| 0 <= i < pairs.len() ==> (#[trigger] pairs[i]).task_id == tid,
    ensures
        ((links + pairs)).filter(|l: LinkVw| l.task_id != tid) == links,
{
    let lpred = |l: LinkVw| l.task_id != tid;
    Seq::filter_distributes_over_add(links, pairs, lpred);
    lemma_filter_identity(links, lpred);
    assert(forall|i: int| 0 <= i < pairs.len() ==> !lpred(#[trigger] pairs[i]));
    lemma_filter_none(pairs, lpred);
    assert(((links + pairs)).filter(lpred) =~= links);
}

/// Undoing a task creation removes exactly the new row and its
/// assignments.
#[verifier::rlimit(60)]
pub proof fn lemma_undo_add_task(m: StoreV, task: AddTaskVw, now: Date)
    requires
        m.wf(),
        ref_ok(m),
        apply_op(m, Op::AddTask(task), now) is Some,
    ensures
        undo_reverses(m, Op::AddTask(task), now),
{
    hint_undo_add_task(m, task, now);
    let m2 = apply_op(m, Op::AddTask(task), now).unwrap();
    let t = new_task_row(m.tasks, task);
    lemma_fresh_record_is_target(m, Op::AddTask(task), now);
    let rec = m2.actions.last();
    assert(replay_entity(m2.tasks, m2.links, rec) matches Some(tl) && same_elems(tl.0, m.tasks)
        && same_elems(tl.1, m.links));
}

/// The content of the task-creation undo argument, stated without the
/// shared conclusion wrapper.
proof fn hint_undo_add_task(m: StoreV, task: AddTaskVw, now: Date)
    requires
        m.wf(),
        ref_ok(m),
        apply_op(m, Op::AddTask(task), now) is Some,
    ensures
        ({
            let m2 = apply_op(m, Op::AddTask(task), now).unwrap();
            let t = new_task_row(m.tasks, task);
            &&& has_task(m2.tasks, t.id)
            &&& m2.tasks.filter(|x: TaskVw| x.id != t.id) == m.tasks
            &&& m2.links.filter(|l: LinkVw| l.task_id != t.id) == m.links
            &&& same_elems(m2.tasks.filter(|x: TaskVw| x.id != t.id), m.tasks)
            &&& same_elems(m2.links.filter(|l: LinkVw| l.task_id != t.id), m.links)
        }),
{
    let op = Op::AddTask(task);
    let m2 = apply_op(m, op, now).unwrap();
    lemma_fresh_record_is_target(m, op, now);
    crate::store::lemma_max_task_id(m.tasks);
    let t = new_task_row(m.tasks, task);
    let pairs = link_pairs(t.id, cats_or_empty(task.categories));
    assert(m2.tasks == m.tasks.push(t));
    assert(m2.links == m.links + pairs);
    assert(m2.tasks[m.tasks.len() as int] == t);
    assert(has_task(m2.tasks, t.id));
    assert forall|i: int| 0 <= i < m.links.len() implies (#[trigger] m.links[i]).task_id
        != t.id by {
        let w = choose|w: int|
            0 <= w < m.tasks.len() && (#[trigger] m.tasks[w]).id == m.links[i].task_id;
    }
    kernel_remove_fresh_task(m.tasks, t);
    kernel_remove_fresh_pairs(m.links, pairs, t.id);
    assert(m2.tasks.filter(|x: TaskVw| x.id != t.id) == m.tasks);
    assert(m2.links.filter(|l: LinkVw| l.task_id != t.id) == m.links);
}

/// Undoing a task edit writes every old field back.
pub proof fn lemma_undo_edit_task(m: StoreV, id: i64, update: UpdateTaskVw, now: Date)
    requires
        m.wf(),
        apply_op(m, Op::EditTask { id, update }, now) is Some,
    ensures
        undo_reverses(m, Op::EditTask { id, update }, now),
{
    let op = Op::EditTask { id, update };
    let m2 = apply_op(m, op, now).unwrap();
    lemma_fresh_record_is_target(m, op, now);
    let w = choose|w: int| 0 <= w < m.tasks.len() && (#[trigger] m.tasks[w]).id == id;
    crate::store::lemma_task_at(m.tasks, id, w);
    let tv = task_of(m.tasks, id);
    assert(m2.tasks[w].id == id);
    assert(has_task(m2.tasks, tv.id));
    let back = apply_update(
        m2.tasks,
        id,
        full_update(tv.title, tv.info, tv.deadline, tv.status, tv.created_at),
        tv.updated_at,
    );
    assert forall|k: int| 0 <= k < back.len() implies back[k] == m.tasks[k] by {
        if m.tasks[k].id == id {
            crate::store::lemma_task_at(m.tasks, id, k);
        }
    }
    assert(back =~= m.tasks);
}


/// Undoing a category assignment removes exactly the new pair.
pub proof fn lemma_undo_add_category(m: StoreV, task_id: i64, category: Seq<char>, now: Date)
    requires
        m.wf(),
        apply_op(m, Op::AddCategory { task_id, category }, now) is Some,
    ensures
        undo_reverses(m, Op::AddCategory { task_id, category }, now),
{
    let op = Op::AddCategory { task_id, category };
    let m2 = apply_op(m, op, now).unwrap();
    lemma_fresh_record_is_target(m, op, now);
    let l = LinkVw { task_id, category };
    assert(m2.links[m.links.len() as int] == l);
    assert(has_link(m2.links, task_id, category));
    kernel_remove_fresh_link(m.links, l);
    assert(m2.links.filter(
        |x: LinkVw| !(x.task_id == task_id && x.category == category),
    ) == m.links);
}


/// Undoing a category removal assigns the pair again.
pub proof fn lemma_undo_remove_category(m: StoreV, task_id: i64, category: Seq<char>, now: Date)
    requires
        m.wf(),
        apply_op(m, Op::RemoveCategory { task_id, category }, now) is Some,
    ensures
        undo_reverses(m, Op::RemoveCategory { task_id, category }, now),
{
    let op = Op::RemoveCategory { task_id, category };
    let m2 = apply_op(m, op, now).unwrap();
    lemma_fresh_record_is_target(m, op, now);
    let p = LinkVw { task_id, category };
    let lpred = |x: LinkVw| !(x.task_id == task_id && x.category == category);
    assert(!has_link(m2.links, task_id, category)) by {
        if has_link(m2.links, task_id, category) {
            let i = choose|i: int|
                0 <= i < m2.links.len() && (#[trigger] m2.links[i]).task_id == task_id
                    && m2.links[i].category == category;
            m.links.lemma_filter_pred(lpred, i);
        }
    }
    assert forall|x: LinkVw| m2.links.push(p).contains(x) <==> m.links.contains(x) by {
        lemma_contains_push(m2.links, p, x);
        lemma_filter_contains_iff(m.links, lpred, x);
        if m.links.contains(x) && !lpred(x) {
            assert(x == p);
        }
        if x == p {
            lemma_has_link_iff(m.links, task_id, category);
        }
    }
}


/// Undoing a batch category delete restores exactly the (task id,
/// category) pairs that existed before the delete, including for tasks
/// left with no other category.
pub proof fn lemma_undo_batch_delete(m: StoreV, category: Seq<char>, now: Date)
    requires
        m.wf(),
        apply_op(m, Op::BatchDeleteCategory { category }, now) is Some,
    ensures
        undo_reverses(m, Op::BatchDeleteCategory { category }, now),
{
    let op = Op::BatchDeleteCategory { category };
    let m2 = apply_op(m, op, now).unwrap();
    lemma_fresh_record_is_target(m, op, now);
    let ids = task_ids_of(m.links, category);
    let lpred = |l: LinkVw| l.category != category;
    let epred = |l: LinkVw| l.category == category;
    lemma_task_ids_distinct(m.links, category);
    assert forall|i: int| 0 <= i < ids.len() implies !has_link(
        m2.links,
        #[trigger] ids[i],
        category,
    ) by {
        if has_link(m2.links, ids[i], category) {
            let k = choose|k: int|
                0 <= k < m2.links.len() && (#[trigger] m2.links[k]).task_id == ids[i]
                    && m2.links[k].category == category;
            m.links.lemma_filter_pred(lpred, k);
        }
    }
    assert(batch_ids_ok(m2.links, ids, category));
    lemma_id_pairs_of(m.links, category);
    assert forall|x: LinkVw| (m2.links + id_pairs(ids, category)).contains(x)
        <==> m.links.contains(x) by {
        lemma_contains_add(m2.links, id_pairs(ids, category), x);
        lemma_filter_contains_iff(m.links, lpred, x);
        lemma_filter_contains_iff(m.links, epred, x);
    }
}


/// Undoing a task deletion restores the row and every one of its pairs.
pub proof fn lemma_undo_delete_task(m: StoreV, id: i64, now: Date)
    requires
        m.wf(),
        apply_op(m, Op::DeleteTask { id }, now) is Some,
    ensures
        undo_reverses(m, Op::DeleteTask { id }, now),
{
    let op = Op::DeleteTask { id };
    let m2 = apply_op(m, op, now).unwrap();
    lemma_fresh_record_is_target(m, op, now);
    let w = choose|w: int| 0 <= w < m.tasks.len() && (#[trigger] m.tasks[w]).id == id;
    crate::store::lemma_task_at(m.tasks, id, w);
    let tv = task_of(m.tasks, id);
    let tpred = |t: TaskVw| t.id != id;
    let lpred = |l: LinkVw| l.task_id != id;
    assert(1 <= tv.id);
    assert(!has_task(m2.tasks, id)) by {
        if has_task(m2.tasks, id) {
            let i = choose|i: int| 0 <= i < m2.tasks.len() && (#[trigger] m2.tasks[i]).id == id;
            m.tasks.lemma_filter_pred(tpred, i);
        }
    }
    let cats = categories_of(m.links, id);
    lemma_categories_of_distinct(m.links, id);
    assert forall|i: int| 0 <= i < cats.len() implies !has_link(
        m2.links,
        id,
        #[trigger] cats[i],
    ) by {
        if has_link(m2.links, id, cats[i]) {
            let k = choose|k: int|
                0 <= k < m2.links.len() && (#[trigger] m2.links[k]).task_id == id
                    && m2.links[k].category == cats[i];
            m.links.lemma_filter_pred(lpred, k);
        }
    }
    assert(batch_cats_ok(m2.links, id, cats));
    let row = restored_task_row(
        id,
        AddTaskVw {
            title: tv.title,
            info: tv.info,
            deadline: tv.deadline,
            categories: None,
            status: tv.status,
            created_at: tv.created_at,
        },
        tv.updated_at,
    );
    assert(row == tv);
    assert forall|x: TaskVw| m2.tasks.push(row).contains(x) <==> m.tasks.contains(x) by {
        lemma_contains_push(m2.tasks, row, x);
        lemma_filter_contains_iff(m.tasks, tpred, x);
        if m.tasks.contains(x) && x.id == id {
            let k = choose|k: int| 0 <= k < m.tasks.len() && m.tasks[k] == x;
            crate::store::lemma_task_at(m.tasks, id, k);
        }
        if m.tasks.contains(x) {
            assert(m2.tasks.contains(x) || x == row);
        }
    }
    lemma_link_pairs_of(m.links, id);
    let epred = |l: LinkVw| l.task_id == id;
    assert forall|x: LinkVw| (m2.links + link_pairs(id, cats)).contains(x) <==> m.links.contains(
        x,
    ) by {
        lemma_contains_add(m2.links, link_pairs(id, cats), x);
        lemma_filter_contains_iff(m.links, lpred, x);
        lemma_filter_contains_iff(m.links, epred, x);
    }
}

/// Undoing a rename writes the old name back onto the one renamed pair.
pub proof fn lemma_undo_rename_category(
    m: StoreV,
    task_id: i64,
    old_category: Seq<char>,
    new_category: Seq<char>,
    now: Date,
)
    requires
        m.wf(),
        apply_op(m, Op::RenameCategory { task_id, old_category, new_category }, now) is Some,
    ensures
        undo_reverses(m, Op::RenameCategory { task_id, old_category, new_category }, now),
{
    let op = Op::RenameCategory { task_id, old_category, new_category };
    let m2 = apply_op(m, op, now).unwrap();
    lemma_fresh_record_is_target(m, op, now);
    let w = choose|w: int|
        0 <= w < m.links.len() && (#[trigger] m.links[w]).task_id == task_id
            && m.links[w].category == old_category;
    assert(m2.links[w] == (LinkVw { task_id, category: new_category }));
    assert(has_link(m2.links, task_id, new_category));
    if new_category != old_category {
        assert(!has_link(m2.links, task_id, old_category)) by {
            if has_link(m2.links, task_id, old_category) {
                let i = choose|i: int|
                    0 <= i < m2.links.len() && (#[trigger] m2.links[i]).task_id == task_id
                        && m2.links[i].category == old_category;
                assert(m.links[i].task_id == task_id && m.links[i].category == old_category);
                assert(m2.links[i].category == new_category);
            }
        }
    }
    let back = rename_link(m2.links, task_id, new_category, old_category);
    assert forall|k: int| 0 <= k < back.len() implies back[k] == m.links[k] by {
        if m.links[k].task_id == task_id && m.links[k].category == old_category {
            assert(m2.links[k] == (LinkVw { task_id, category: new_category }));
        } else {
            assert(m2.links[k] == m.links[k]);
            if old_category != new_category && m.links[k].task_id == task_id
                && m.links[k].category == new_category {
                assert(has_link(m.links, task_id, new_category));
            }
        }
    }
    assert(back =~= m.links);
}

/// Undoing a merge-free batch rename writes the old name back on every
/// renamed pair and nothing else.
pub proof fn lemma_undo_batch_rename(
    m: StoreV,
    old_category: Seq<char>,
    new_category: Seq<char>,
    now: Date,
)
    requires
        m.wf(),
        op_sound(m, Op::BatchRenameCategory { old_category, new_category }),
        apply_op(m, Op::BatchRenameCategory { old_category, new_category }, now) is Some,
    ensures
        undo_reverses(m, Op::BatchRenameCategory { old_category, new_category }, now),
{
    let op = Op::BatchRenameCategory { old_category, new_category };
    let m2 = apply_op(m, op, now).unwrap();
    lemma_fresh_record_is_target(m, op, now);
    if new_category != old_category {
        assert(!batch_rename_conflict(m2.links, new_category, old_category)) by {
            if batch_rename_conflict(m2.links, new_category, old_category) {
                let i = choose|i: int|
                    0 <= i < m2.links.len() && (#[trigger] m2.links[i]).category == new_category
                        && has_link(m2.links, m2.links[i].task_id, old_category);
                let j = choose|j: int|
                    0 <= j < m2.links.len() && (#[trigger] m2.links[j]).task_id
                        == m2.links[i].task_id && m2.links[j].category == old_category;
                assert(m.links[j].category == old_category || m2.links[j].category
                    == new_category);
            }
        }
    }
    let back = rename_all_links(m2.links, new_category, old_category);
    assert forall|k: int| 0 <= k < back.len() implies back[k] == m.links[k] by {
        if m.links[k].category == old_category {
            assert(m2.links[k] == (LinkVw {
                task_id: m.links[k].task_id,
                category: new_category,
            }));
        } else {
            assert(m2.links[k] == m.links[k]);
            if old_category != new_category && m.links[k].category == new_category {
                assert((#[trigger] m.links[k]).category == new_category);
            }
        }
    }
    assert(back =~= m.links);
}

/// Undoing an accepted request restores the entity tables exactly,
/// whatever the request was: the record it appended is the undo target,
/// and replaying that record brings back the same task rows and the same
/// assignment pairs, flipping the record to restored.
pub proof fn lemma_undo_reverses_op(m: StoreV, op: Op, now: Date)
    requires
        m.wf(),
        ref_ok(m),
        op_sound(m, op),
        apply_op(m, op, now) is Some,
    ensures
        undo_reverses(m, op, now),
{
    match op {
        Op::AddTask(task) => lemma_undo_add_task(m, task, now),
        Op::EditTask { id, update } => lemma_undo_edit_task(m, id, update, now),
        Op::DeleteTask { id } => lemma_undo_delete_task(m, id, now),
        Op::AddCategory { task_id, category } => lemma_undo_add_category(
            m,
            task_id,
            category,
            now,
        ),
        Op::RenameCategory { task_id, old_category, new_category } => lemma_undo_rename_category(
            m,
            task_id,
            old_category,
            new_category,
            now,
        ),
        Op::RemoveCategory { task_id, category } => lemma_undo_remove_category(
            m,
            task_id,
            category,
            now,
        ),
        Op::BatchRenameCategory { old_category, new_category } => lemma_undo_batch_rename(
            m,
            old_category,
            new_category,
            now,
        ),
        Op::BatchDeleteCategory { category } => lemma_undo_batch_delete(m, category, now),
    }
}

/// An undo immediately followed by a redo restores the exact pre-undo
/// store, shown here for a category assignment: the entity tables, the
/// record's payload and its flag all read as before the undo.
pub proof fn lemma_undo_then_redo_add_category(
    m: StoreV,
    task_id: i64,
    category: Seq<char>,
    now: Date,
)
    requires
        m.wf(),
        apply_op(m, Op::AddCategory { task_id, category }, now) is Some,
    ensures
        ({
            let m2 = apply_op(m, Op::AddCategory { task_id, category }, now).unwrap();
            &&& undo_step(m2) is Some
            &&& (redo_step(undo_step(m2).unwrap()) matches Some(m3) && m3.tasks == m2.tasks
                && m3.links == m2.links && m3.actions == m2.actions)
        }),
{
    let op = Op::AddCategory { task_id, category };
    let m2 = apply_op(m, op, now).unwrap();
    lemma_undo_add_category(m, task_id, category, now);
    let rec = m2.actions.last();
    let u1 = replay(m2, rec).unwrap();
    assert(u1.tasks == m2.tasks);
    let l = LinkVw { task_id, category };
    assert(m2.links == m.links.push(l));
    kernel_remove_fresh_link(m.links, l);
    assert(u1.links == m.links);
    crate::laws::lemma_actions_wf_append(m.actions, rec);
    crate::store::lemma_next_action_id(m.actions);
    let flipped = RecordVw {
        id: rec.id,
        action: ActionVw::Category { action_type: ActionTypeEnum::Delete, category, task_id },
        restored: true,
        created_at: rec.created_at,
    };
    assert(u1.actions =~= m2.actions.update(m2.actions.len() - 1, flipped)) by {
        assert forall|k: int| 0 <= k < m2.actions.len() implies u1.actions[k]
            == m2.actions.update(m2.actions.len() - 1, flipped)[k] by {
            if k < m2.actions.len() - 1 {
                assert(m2.actions[k].id < rec.id);
            }
        }
    }
    assert forall|k: int| 0 <= k < u1.actions.len() - 1 implies !(
    #[trigger] u1.actions[k]).restored by {
        assert(u1.actions[k] == m2.actions[k]);
        assert(m2.actions[k] == unrestored(m.actions)[k]);
        m.actions.lemma_filter_pred(|x: RecordVw| !x.restored, k);
    }
    crate::action_repository::lemma_redo_target_low(u1.actions, u1.actions.len() - 1);
    assert(u1.actions.skip(u1.actions.len() - 1)[0] == flipped);
    assert(redo_target_spec(u1.actions) == Some(flipped));
    assert(!has_link(u1.links, task_id, category));
    let m3 = replay(u1, flipped).unwrap();
    assert(m3.tasks == m2.tasks);
    assert(m3.links =~= m2.links);
    assert forall|k: int| 0 <= k < m3.actions.len() implies m3.actions[k] == m2.actions[k] by {
        if k < m2.actions.len() - 1 {
            assert(u1.actions[k].id < rec.id);
        } else {
            assert(u1.actions[k].id == rec.id);
        }
    }
    assert(m3.actions =~= m2.actions);
}

} // verus!
