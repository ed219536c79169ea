//! The laws of the reversible operation log: every logical operation can
//! be undone exactly, undo and redo are inverse to each other, and writing
//! new history discards the redo branch.
//!
//! The laws speak of the store model: tables are compared as collections
//! of rows ([`same_elems`]), since the relational tables carry no row
//! order; the ledger is compared record by record.

use vstd::prelude::*;

use crate::category_repository::{
    batch_cats_ok, batch_ids_ok, batch_rename_conflict, categories_of, cats_distinct, id_pairs,
    ids_distinct, link_pairs, remove_category_links, remove_link, remove_task_links,
    rename_all_links, rename_link, task_ids_of,
};
use crate::date::Date;
use crate::models::{ActionTypeEnum, ActionVw, AddTaskVw, LinkVw, RecordVw, TaskVw, UpdateTaskVw};
use crate::repositories::{
    cats_or_empty, full_update, replay, replay_entity, replay_payload, task_payload,
};
use crate::store::{
    actions_wf, has_link, has_task, links_wf, max_task_id, next_action_id, redo_target_spec,
    replace_action, task_of, tasks_wf, undo_target_spec, unrestored, StoreV,
};
use crate::task_repository::{apply_update, new_task_row, restored_task_row};

verus! {

/// A logical user request, as the orchestrator receives it.
pub enum Op {
    AddTask(AddTaskVw),
    EditTask { id: i64, update: UpdateTaskVw },
    DeleteTask { id: i64 },
    AddCategory { task_id: i64, category: Seq<char> },
    RenameCategory { task_id: i64, old_category: Seq<char>, new_category: Seq<char> },
    RemoveCategory { task_id: i64, category: Seq<char> },
    BatchRenameCategory { old_category: Seq<char>, new_category: Seq<char> },
    BatchDeleteCategory { category: Seq<char> },
}

/// Two tables hold the same rows, in whatever order.
pub open spec fn same_elems<A>(a: Seq<A>, b: Seq<A>) -> bool {
    forall|x: A| a.contains(x) <==> b.contains(x)
}

/// Every assignment row names an existing task.
pub open spec fn ref_ok(m: StoreV) -> bool {
    forall|i: int| 0 <= i < m.links.len() ==> has_task(m.tasks, (#[trigger] m.links[i]).task_id)
}

/// What applying a logical request does to the store: the new store when
/// the request is accepted, nothing when it is refused. Mirrors the
/// contracts of the orchestrator operations.
pub open spec fn apply_op(m: StoreV, op: Op, now: Date) -> Option<StoreV> {
    if next_action_id(m.actions) > i64::MAX {
        None
    } else {
        match op {
            Op::AddTask(task) => if max_task_id(m.tasks) < i64::MAX && batch_cats_ok(
                m.links,
                (max_task_id(m.tasks) + 1) as i64,
                cats_or_empty(task.categories),
            ) {
                let t = new_task_row(m.tasks, task);
                Some(
                    StoreV {
                        tasks: m.tasks.push(t),
                        links: m.links + link_pairs(t.id, cats_or_empty(task.categories)),
                        actions: unrestored(m.actions).push(
                            RecordVw {
                                id: next_action_id(m.actions) as i64,
                                action: task_payload(ActionTypeEnum::Create, t, task.categories),
                                restored: false,
                                created_at: now,
                            },
                        ),
                    },
                )
            } else {
                None
            },
            Op::EditTask { id, update } => if update.supplied_fields() > 0 && has_task(
                m.tasks,
                id,
            ) {
                Some(
                    StoreV {
                        tasks: apply_update(m.tasks, id, update, now),
                        links: m.links,
                        actions: unrestored(m.actions).push(
                            RecordVw {
                                id: next_action_id(m.actions) as i64,
                                action: task_payload(
                                    ActionTypeEnum::Update,
                                    task_of(m.tasks, id),
                                    None,
                                ),
                                restored: false,
                                created_at: now,
                            },
                        ),
                    },
                )
            } else {
                None
            },
            Op::DeleteTask { id } => if has_task(m.tasks, id) {
                Some(
                    StoreV {
                        tasks: m.tasks.filter(|t: TaskVw| t.id != id),
                        links: remove_task_links(m.links, id),
                        actions: unrestored(m.actions).push(
                            RecordVw {
                                id: next_action_id(m.actions) as i64,
                                action: task_payload(
                                    ActionTypeEnum::Delete,
                                    task_of(m.tasks, id),
                                    Some(categories_of(m.links, id)),
                                ),
                                restored: false,
                                created_at: now,
                            },
                        ),
                    },
                )
            } else {
                None
            },
            Op::AddCategory { task_id, category } => if !has_link(m.links, task_id, category) {
                Some(
                    StoreV {
                        tasks: m.tasks,
                        links: m.links.push(LinkVw { task_id, category }),
                        actions: unrestored(m.actions).push(
                            RecordVw {
                                id: next_action_id(m.actions) as i64,
                                action: ActionVw::Category {
                                    action_type: ActionTypeEnum::Create,
                                    category,
                                    task_id,
                                },
                                restored: false,
                                created_at: now,
                            },
                        ),
                    },
                )
            } else {
                None
            },
            Op::RenameCategory { task_id, old_category, new_category } => if has_link(
                m.links,
                task_id,
                old_category,
            ) && (old_category == new_category || !has_link(m.links, task_id, new_category)) {
                Some(
                    StoreV {
                        tasks: m.tasks,
                        links: rename_link(m.links, task_id, old_category, new_category),
                        actions: unrestored(m.actions).push(
                            RecordVw {
                                id: next_action_id(m.actions) as i64,
                                action: ActionVw::RenameTaskCategory {
                                    old_category,
                                    new_category,
                                    task_id,
                                },
                                restored: false,
                                created_at: now,
                            },
                        ),
                    },
                )
            } else {
                None
            },
            Op::RemoveCategory { task_id, category } => if has_link(m.links, task_id, category) {
                Some(
                    StoreV {
                        tasks: m.tasks,
                        links: remove_link(m.links, task_id, category),
                        actions: unrestored(m.actions).push(
                            RecordVw {
                                id: next_action_id(m.actions) as i64,
                                action: ActionVw::Category {
                                    action_type: ActionTypeEnum::Delete,
                                    category,
                                    task_id,
                                },
                                restored: false,
                                created_at: now,
                            },
                        ),
                    },
                )
            } else {
                None
            },
            Op::BatchRenameCategory { old_category, new_category } => if !batch_rename_conflict(
                m.links,
                old_category,
                new_category,
            ) {
                Some(
                    StoreV {
                        tasks: m.tasks,
                        links: rename_all_links(m.links, old_category, new_category),
                        actions: unrestored(m.actions).push(
                            RecordVw {
                                id: next_action_id(m.actions) as i64,
                                action: ActionVw::BatchCategoryRename {
                                    old_category,
                                    new_category,
                                },
                                restored: false,
                                created_at: now,
                            },
                        ),
                    },
                )
            } else {
                None
            },
            Op::BatchDeleteCategory { category } => Some(
                StoreV {
                    tasks: m.tasks,
                    links: remove_category_links(m.links, category),
                    actions: unrestored(m.actions).push(
                        RecordVw {
                            id: next_action_id(m.actions) as i64,
                            action: ActionVw::BatchCategoryDelete {
                                task_ids: task_ids_of(m.links, category),
                                category,
                            },
                            restored: false,
                            created_at: now,
                        },
                    ),
                },
            ),
        }
    }
}

/// The side conditions under which a request is exactly reversible: a
/// category is only assigned to an existing task, and a batch rename never
/// merges two category names into one.
pub open spec fn op_sound(m: StoreV, op: Op) -> bool {
    match op {
        Op::AddCategory { task_id, category } => has_task(m.tasks, task_id),
        Op::BatchRenameCategory { old_category, new_category } => old_category == new_category
            || (forall|i: int|
                0 <= i < m.links.len() ==> (#[trigger] m.links[i]).category != new_category),
        _ => true,
    }
}

/// Undoing once: replaying the unrestored record with the greatest id.
pub open spec fn undo_step(m: StoreV) -> Option<StoreV> {
    match undo_target_spec(m.actions) {
        None => None,
        Some(a) => replay(m, a),
    }
}

/// Redoing once: replaying the restored record with the least id.
pub open spec fn redo_step(m: StoreV) -> Option<StoreV> {
    match redo_target_spec(m.actions) {
        None => None,
        Some(a) => replay(m, a),
    }
}

/// A sequence's concatenation holds an element exactly when one part does.
pub proof fn lemma_contains_add<A>(a: Seq<A>, b: Seq<A>, x: A)
    ensures
        (a + b).contains(x) <==> a.contains(x) || b.contains(x),
{
    if a.contains(x) {
        let i = choose|i: int| 0 <= i < a.len() && a[i] == x;
        assert((a + b)[i] == x);
    }
    if b.contains(x) {
        let i = choose|i: int| 0 <= i < b.len() && b[i] == x;
        assert((a + b)[a.len() + i] == x);
    }
    if (a + b).contains(x) {
        let i = choose|i: int| 0 <= i < (a + b).len() && (a + b)[i] == x;
        if i < a.len() {
            assert(a[i] == x);
        } else {
            assert(b[i - a.len()] == x);
        }
    }
}

/// A mapped table holds the image of each row.
pub proof fn lemma_map_contains_intro<A, B>(s: Seq<A>, f: spec_fn(A) -> B, x: A)
    requires
        s.contains(x),
    ensures
        s.map_values(f).contains(f(x)),
{
    let i = choose|i: int| 0 <= i < s.len() && s[i] == x;
    assert(s.map_values(f)[i] == f(x));
}

/// Every row of a mapped table is the image of a source row.
pub proof fn lemma_map_contains_elim<A, B>(s: Seq<A>, f: spec_fn(A) -> B, y: B)
    requires
        s.map_values(f).contains(y),
    ensures
        exists|x: A| #[trigger] s.contains(x) && y == f(x),
{
    let i = choose|i: int| 0 <= i < s.map_values(f).len() && s.map_values(f)[i] == y;
    assert(s.contains(s[i]));
    assert(y == f(s[i]));
}

/// A filtered table holds a row exactly when the source holds it and the
/// predicate accepts it.
pub proof fn lemma_filter_contains_iff<A>(s: Seq<A>, pred: spec_fn(A) -> bool, y: A)
    ensures
        s.filter(pred).contains(y) <==> s.contains(y) && pred(y),
{
    if s.filter(pred).contains(y) {
        let i = choose|i: int| 0 <= i < s.filter(pred).len() && s.filter(pred)[i] == y;
        crate::seqs::lemma_filter_from(s, pred, i);
        let k = choose|k: int| 0 <= k < s.len() && s[k] == s.filter(pred)[i];
        assert(s.contains(y));
        s.lemma_filter_pred(pred, i);
    }
    if s.contains(y) && pred(y) {
        let i = choose|i: int| 0 <= i < s.len() && s[i] == y;
        s.lemma_filter_contains(pred, i);
    }
}

/// An assignment table holds the pair exactly when [`has_link`] says so:
/// an assignment row is nothing but its pair.
pub proof fn lemma_has_link_iff(links: Seq<LinkVw>, task_id: i64, category: Seq<char>)
    ensures
        has_link(links, task_id, category) <==> links.contains(
            LinkVw { task_id, category },
        ),
{
    if has_link(links, task_id, category) {
        let i = choose|i: int|
            0 <= i < links.len() && (#[trigger] links[i]).task_id == task_id && links[i].category
                == category;
        assert(links[i] == (LinkVw { task_id, category }));
    }
    if links.contains(LinkVw { task_id, category }) {
        let i = choose|i: int|
            0 <= i < links.len() && links[i] == (LinkVw { task_id, category });
        assert((#[trigger] links[i]).task_id == task_id && links[i].category == category);
    }
}

/// Tables with the same rows agree on which task ids exist.
pub proof fn lemma_has_task_same(a: Seq<TaskVw>, b: Seq<TaskVw>, id: i64)
    requires
        same_elems(a, b),
    ensures
        has_task(a, id) == has_task(b, id),
{
    if has_task(a, id) {
        let i = choose|i: int| 0 <= i < a.len() && (#[trigger] a[i]).id == id;
        assert(a.contains(a[i]));
        let j = choose|j: int| 0 <= j < b.len() && b[j] == a[i];
        assert((#[trigger] b[j]).id == id);
    }
    if has_task(b, id) {
        let i = choose|i: int| 0 <= i < b.len() && (#[trigger] b[i]).id == id;
        assert(b.contains(b[i]));
        let j = choose|j: int| 0 <= j < a.len() && a[j] == b[i];
        assert((#[trigger] a[j]).id == id);
    }
}

/// Tables with the same rows agree on which pairs are assigned.
pub proof fn lemma_has_link_same(a: Seq<LinkVw>, b: Seq<LinkVw>, task_id: i64, category: Seq<char>)
    requires
        same_elems(a, b),
    ensures
        has_link(a, task_id, category) == has_link(b, task_id, category),
{
    lemma_has_link_iff(a, task_id, category);
    lemma_has_link_iff(b, task_id, category);
}

/// A pushed table holds the pushed row and everything it held before.
pub proof fn lemma_contains_push<A>(s: Seq<A>, r: A, x: A)
    ensures
        s.push(r).contains(x) <==> s.contains(x) || x == r,
{
    assert(s.push(r) =~= s + seq![r]);
    lemma_contains_add(s, seq![r], x);
    if x == r {
        assert(seq![r][0] == x);
    }
}

/// Filtering tables with the same rows keeps the same rows.
pub proof fn lemma_filter_same<A>(a: Seq<A>, b: Seq<A>, pred: spec_fn(A) -> bool)
    requires
        same_elems(a, b),
    ensures
        same_elems(a.filter(pred), b.filter(pred)),
{
    assert forall|x: A| a.filter(pred).contains(x) <==> b.filter(pred).contains(x) by {
        lemma_filter_contains_iff(a, pred, x);
        lemma_filter_contains_iff(b, pred, x);
    }
}

/// Mapping tables with the same rows yields the same rows.
pub proof fn lemma_map_same<A, B>(a: Seq<A>, b: Seq<A>, f: spec_fn(A) -> B)
    requires
        same_elems(a, b),
    ensures
        same_elems(a.map_values(f), b.map_values(f)),
{
    assert forall|y: B| a.map_values(f).contains(y) <==> b.map_values(f).contains(y) by {
        if a.map_values(f).contains(y) {
            lemma_map_contains_elim(a, f, y);
            let x = choose|x: A| #[trigger] a.contains(x) && y == f(x);
            lemma_map_contains_intro(b, f, x);
        }
        if b.map_values(f).contains(y) {
            lemma_map_contains_elim(b, f, y);
            let x = choose|x: A| #[trigger] b.contains(x) && y == f(x);
            lemma_map_contains_intro(a, f, x);
        }
    }
}

/// Appending the same rows to tables with the same rows keeps the same
/// rows.
pub proof fn lemma_add_same<A>(a: Seq<A>, b: Seq<A>, c: Seq<A>)
    requires
        same_elems(a, b),
    ensures
        same_elems(a + c, b + c),
{
    assert forall|x: A| (a + c).contains(x) <==> (b + c).contains(x) by {
        lemma_contains_add(a, c, x);
        lemma_contains_add(b, c, x);
    }
}

/// Pushing the same row onto tables with the same rows keeps the same
/// rows.
pub proof fn lemma_push_same<A>(a: Seq<A>, b: Seq<A>, r: A)
    requires
        same_elems(a, b),
    ensures
        same_elems(a.push(r), b.push(r)),
{
    assert forall|x: A| a.push(r).contains(x) <==> b.push(r).contains(x) by {
        lemma_contains_push(a, r, x);
        lemma_contains_push(b, r, x);
    }
}

/// Tables with the same rows accept the same category batches.
pub proof fn lemma_batch_cats_ok_same(
    la: Seq<LinkVw>,
    lb: Seq<LinkVw>,
    task_id: i64,
    cats: Seq<Seq<char>>,
)
    requires
        same_elems(la, lb),
    ensures
        batch_cats_ok(la, task_id, cats) == batch_cats_ok(lb, task_id, cats),
{
    assert forall|i: int| 0 <= i < cats.len() implies has_link(la, task_id, #[trigger] cats[i])
        == has_link(lb, task_id, cats[i]) by {
        lemma_has_link_same(la, lb, task_id, cats[i]);
    }
}

/// Tables with the same rows accept the same id batches.
pub proof fn lemma_batch_ids_ok_same(
    la: Seq<LinkVw>,
    lb: Seq<LinkVw>,
    ids: Seq<i64>,
    category: Seq<char>,
)
    requires
        same_elems(la, lb),
    ensures
        batch_ids_ok(la, ids, category) == batch_ids_ok(lb, ids, category),
{
    assert forall|i: int| 0 <= i < ids.len() implies has_link(la, #[trigger] ids[i], category)
        == has_link(lb, ids[i], category) by {
        lemma_has_link_same(la, lb, ids[i], category);
    }
}

/// Tables with the same rows see the same batch rename conflicts.
pub proof fn lemma_batch_rename_conflict_same(
    la: Seq<LinkVw>,
    lb: Seq<LinkVw>,
    old_cat: Seq<char>,
    new_cat: Seq<char>,
)
    requires
        same_elems(la, lb),
    ensures
        batch_rename_conflict(la, old_cat, new_cat) == batch_rename_conflict(lb, old_cat, new_cat),
{
    if batch_rename_conflict(la, old_cat, new_cat) {
        let i = choose|i: int|
            0 <= i < la.len() && (#[trigger] la[i]).category == old_cat && has_link(
                la,
                la[i].task_id,
                new_cat,
            );
        assert(la.contains(la[i]));
        let j = choose|j: int| 0 <= j < lb.len() && lb[j] == la[i];
        lemma_has_link_same(la, lb, la[i].task_id, new_cat);
        assert((#[trigger] lb[j]).category == old_cat && has_link(lb, lb[j].task_id, new_cat));
    }
    if batch_rename_conflict(lb, old_cat, new_cat) {
        let i = choose|i: int|
            0 <= i < lb.len() && (#[trigger] lb[i]).category == old_cat && has_link(
                lb,
                lb[i].task_id,
                new_cat,
            );
        assert(lb.contains(lb[i]));
        let j = choose|j: int| 0 <= j < la.len() && la[j] == lb[i];
        lemma_has_link_same(la, lb, lb[i].task_id, new_cat);
        assert((#[trigger] la[j]).category == old_cat && has_link(la, la[j].task_id, new_cat));
    }
}

/// Well-formed tables with the same rows name the same task under each id.
pub proof fn lemma_task_of_same(a: Seq<TaskVw>, b: Seq<TaskVw>, id: i64)
    requires
        same_elems(a, b),
        tasks_wf(a),
        tasks_wf(b),
        has_task(a, id),
    ensures
        task_of(a, id) == task_of(b, id),
{
    lemma_has_task_same(a, b, id);
    let i = choose|i: int| 0 <= i < a.len() && (#[trigger] a[i]).id == id;
    crate::store::lemma_task_at(a, id, i);
    assert(a.contains(a[i]));
    let j = choose|j: int| 0 <= j < b.len() && b[j] == a[i];
    crate::store::lemma_task_at(b, id, j);
}

/// Filtering by a predicate every row satisfies changes nothing.
pub proof fn lemma_filter_identity<A>(s: Seq<A>, pred: spec_fn(A) -> bool)
    requires
        forall|i: int| 0 <= i < s.len() ==> pred(#[trigger] s[i]),
    ensures
        s.filter(pred) == s,
    decreases s.len(),
{
    reveal_with_fuel(Seq::filter, 2);
    if s.len() > 0 {
        let dl = s.drop_last();
        assert(forall|i: int| 0 <= i < dl.len() ==> pred(#[trigger] dl[i]));
        lemma_filter_identity(dl, pred);
        assert(s.filter(pred) =~= s);
    }
}

/// Filtering by a predicate no row satisfies leaves nothing.
pub proof fn lemma_filter_none<A>(s: Seq<A>, pred: spec_fn(A) -> bool)
    requires
        forall|i: int| 0 <= i < s.len() ==> !pred(#[trigger] s[i]),
    ensures
        s.filter(pred) == Seq::<A>::empty(),
    decreases s.len(),
{
    reveal_with_fuel(Seq::filter, 2);
    if s.len() > 0 {
        let dl = s.drop_last();
        assert(forall|i: int| 0 <= i < dl.len() ==> !pred(#[trigger] dl[i]));
        lemma_filter_none(dl, pred);
    }
}

/// Task rows keep unique positive ids after a filter.
pub proof fn lemma_tasks_wf_filter(tasks: Seq<TaskVw>, pred: spec_fn(TaskVw) -> bool)
    requires
        tasks_wf(tasks),
    ensures
        tasks_wf(tasks.filter(pred)),
{
    crate::seqs::lemma_filter_pairs(tasks, pred, |a: TaskVw, b: TaskVw| a.id != b.id);
    crate::seqs::lemma_filter_all(tasks, pred, |t: TaskVw| 1 <= t.id);
}

/// Assignment rows keep distinct pairs after a filter.
pub proof fn lemma_links_wf_filter(links: Seq<LinkVw>, pred: spec_fn(LinkVw) -> bool)
    requires
        links_wf(links),
    ensures
        links_wf(links.filter(pred)),
{
    crate::seqs::lemma_filter_pairs(
        links,
        pred,
        |a: LinkVw, b: LinkVw| !crate::store::link_dup(a, b),
    );
}

/// Updating the fields of one task keeps the table well formed.
pub proof fn lemma_tasks_wf_update(tasks: Seq<TaskVw>, id: i64, u: UpdateTaskVw, now: Date)
    requires
        tasks_wf(tasks),
    ensures
        tasks_wf(apply_update(tasks, id, u, now)),
        forall|k: int|
            0 <= k < tasks.len() ==> (#[trigger] apply_update(tasks, id, u, now)[k]).id
                == tasks[k].id,
{
    assert(forall|k: int|
        0 <= k < tasks.len() ==> (#[trigger] apply_update(tasks, id, u, now)[k]).id
            == tasks[k].id);
}

/// A fresh positive task id can be appended.
pub proof fn lemma_tasks_wf_push(tasks: Seq<TaskVw>, t: TaskVw)
    requires
        tasks_wf(tasks),
        !has_task(tasks, t.id),
        1 <= t.id,
    ensures
        tasks_wf(tasks.push(t)),
{
    assert forall|i: int, j: int|
        0 <= i < j < tasks.push(t).len() implies (#[trigger] tasks.push(t)[i]).id != (
    #[trigger] tasks.push(t)[j]).id by {
        if j == tasks.len() {
            assert(tasks.push(t)[i] == tasks[i]);
        }
    }
}

/// An unassigned pair can be appended.
pub proof fn lemma_links_wf_push(links: Seq<LinkVw>, l: LinkVw)
    requires
        links_wf(links),
        !has_link(links, l.task_id, l.category),
    ensures
        links_wf(links.push(l)),
{
    assert forall|i: int, j: int|
        0 <= i < j < links.push(l).len() implies !crate::store::link_dup(
        #[trigger] links.push(l)[i],
        #[trigger] links.push(l)[j],
    ) by {
        if j == links.len() {
            assert(links.push(l)[i] == links[i]);
        }
    }
}

/// A conflict-free category batch can be appended.
pub proof fn lemma_links_wf_add_cats(links: Seq<LinkVw>, task_id: i64, cats: Seq<Seq<char>>)
    requires
        links_wf(links),
        batch_cats_ok(links, task_id, cats),
    ensures
        links_wf(links + link_pairs(task_id, cats)),
{
    let all = links + link_pairs(task_id, cats);
    assert forall|i: int, j: int| 0 <= i < j < all.len() implies !crate::store::link_dup(
        #[trigger] all[i],
        #[trigger] all[j],
    ) by {
        if j < links.len() {
            assert(all[i] == links[i] && all[j] == links[j]);
        } else {
            let q = j - links.len();
            assert(all[j] == link_pairs(task_id, cats)[q]);
            assert(all[j].task_id == task_id && all[j].category == cats[q]);
            if i < links.len() {
                assert(all[i] == links[i]);
                assert(!has_link(links, task_id, cats[q]));
            } else {
                let p = i - links.len();
                assert(all[i] == link_pairs(task_id, cats)[p]);
                assert(cats[p] != cats[q]);
            }
        }
    }
}

/// A conflict-free id batch can be appended.
pub proof fn lemma_links_wf_add_ids(links: Seq<LinkVw>, ids: Seq<i64>, category: Seq<char>)
    requires
        links_wf(links),
        batch_ids_ok(links, ids, category),
    ensures
        links_wf(links + id_pairs(ids, category)),
{
    let all = links + id_pairs(ids, category);
    assert forall|i: int, j: int| 0 <= i < j < all.len() implies !crate::store::link_dup(
        #[trigger] all[i],
        #[trigger] all[j],
    ) by {
        if j < links.len() {
            assert(all[i] == links[i] && all[j] == links[j]);
        } else {
            let q = j - links.len();
            assert(all[j] == id_pairs(ids, category)[q]);
            assert(all[j].task_id == ids[q] && all[j].category == category);
            if i < links.len() {
                assert(all[i] == links[i]);
                assert(!has_link(links, ids[q], category));
            } else {
                let p = i - links.len();
                assert(all[i] == id_pairs(ids, category)[p]);
                assert(ids[p] != ids[q]);
            }
        }
    }
}

/// A rename of one pair onto a free name keeps distinct pairs.
pub proof fn lemma_links_wf_rename(
    links: Seq<LinkVw>,
    task_id: i64,
    old_cat: Seq<char>,
    new_cat: Seq<char>,
)
    requires
        links_wf(links),
        old_cat == new_cat || !has_link(links, task_id, new_cat),
    ensures
        links_wf(rename_link(links, task_id, old_cat, new_cat)),
{
    let out = rename_link(links, task_id, old_cat, new_cat);
    assert forall|i: int, j: int| 0 <= i < j < out.len() implies !crate::store::link_dup(
        #[trigger] out[i],
        #[trigger] out[j],
    ) by {
        assert(!crate::store::link_dup(links[i], links[j]));
        if old_cat != new_cat {
            if out[i].category == new_cat && out[i].task_id == task_id {
                assert(links[i].category == new_cat || links[i].category == old_cat);
                assert(links[i].category == old_cat);
            }
            if out[j].category == new_cat && out[j].task_id == task_id {
                assert(links[j].category == new_cat || links[j].category == old_cat);
                assert(links[j].category == old_cat);
            }
        }
    }
}

/// A merge-free batch rename keeps distinct pairs.
pub proof fn lemma_links_wf_rename_all(links: Seq<LinkVw>, old_cat: Seq<char>, new_cat: Seq<char>)
    requires
        links_wf(links),
        !batch_rename_conflict(links, old_cat, new_cat),
    ensures
        links_wf(rename_all_links(links, old_cat, new_cat)),
{
    let out = rename_all_links(links, old_cat, new_cat);
    assert forall|i: int, j: int| 0 <= i < j < out.len() implies !crate::store::link_dup(
        #[trigger] out[i],
        #[trigger] out[j],
    ) by {
        assert(!crate::store::link_dup(links[i], links[j]));
        if old_cat != new_cat && crate::store::link_dup(out[i], out[j]) {
            if links[i].category == old_cat && links[j].category != old_cat {
                assert((#[trigger] links[i]).category == old_cat && has_link(
                    links,
                    links[i].task_id,
                    new_cat,
                )) by {
                    assert(links[j].category == new_cat);
                    assert(links[j].task_id == links[i].task_id);
                }
            } else if links[i].category != old_cat && links[j].category == old_cat {
                assert((#[trigger] links[j]).category == old_cat && has_link(
                    links,
                    links[j].task_id,
                    new_cat,
                )) by {
                    assert(links[i].category == new_cat);
                    assert(links[i].task_id == links[j].task_id);
                }
            }
        }
    }
}

/// Overwriting one record's content and flag keeps the ledger well
/// formed.
pub proof fn lemma_actions_wf_replace(
    actions: Seq<RecordVw>,
    id: i64,
    p: ActionVw,
    restored: bool,
)
    requires
        actions_wf(actions),
    ensures
        actions_wf(replace_action(actions, id, p, restored)),
        forall|k: int|
            0 <= k < actions.len() ==> (#[trigger] replace_action(actions, id, p, restored)[k]).id
                == actions[k].id,
{
    assert(forall|k: int|
        0 <= k < actions.len() ==> (#[trigger] replace_action(actions, id, p, restored)[k]).id
            == actions[k].id);
}

/// Appending a record under the next free id, after discarding the
/// restored ones, keeps the ledger well formed.
pub proof fn lemma_actions_wf_append(actions: Seq<RecordVw>, rec: RecordVw)
    requires
        actions_wf(actions),
        rec.id as int == next_action_id(actions),
    ensures
        actions_wf(unrestored(actions).push(rec)),
{
    let pred = |x: RecordVw| !x.restored;
    crate::store::lemma_next_action_id(actions);
    crate::seqs::lemma_filter_pairs(actions, pred, |x: RecordVw, y: RecordVw| x.id < y.id);
    crate::seqs::lemma_filter_all(actions, pred, |x: RecordVw| 1 <= x.id);
    crate::seqs::lemma_filter_all(
        actions,
        pred,
        |x: RecordVw| x.id < next_action_id(actions),
    );
    let all = unrestored(actions).push(rec);
    assert forall|i: int, j: int| 0 <= i < j < all.len() implies (#[trigger] all[i]).id < (
    #[trigger] all[j]).id by {
        if j < all.len() - 1 {
            assert(all[i] == unrestored(actions)[i] && all[j] == unrestored(actions)[j]);
        } else {
            assert(all[i] == unrestored(actions)[i]);
        }
    }
}

/// One task's categories are pairwise distinct.
pub proof fn lemma_categories_of_distinct(links: Seq<LinkVw>, task_id: i64)
    requires
        links_wf(links),
    ensures
        cats_distinct(categories_of(links, task_id)),
{
    let pred = |l: LinkVw| l.task_id == task_id;
    let f = links.filter(pred);
    crate::seqs::lemma_filter_pairs(
        links,
        pred,
        |a: LinkVw, b: LinkVw| !crate::store::link_dup(a, b),
    );
    let cats = categories_of(links, task_id);
    assert forall|i: int, j: int| 0 <= i < j < cats.len() implies cats[i] != cats[j] by {
        links.lemma_filter_pred(pred, i);
        links.lemma_filter_pred(pred, j);
        assert(cats[i] == f[i].category && cats[j] == f[j].category);
        assert(!crate::store::link_dup(f[i], f[j]));
    }
}

/// One category's task ids are pairwise distinct.
pub proof fn lemma_task_ids_distinct(links: Seq<LinkVw>, category: Seq<char>)
    requires
        links_wf(links),
    ensures
        ids_distinct(task_ids_of(links, category)),
{
    let pred = |l: LinkVw| l.category == category;
    let f = links.filter(pred);
    crate::seqs::lemma_filter_pairs(
        links,
        pred,
        |a: LinkVw, b: LinkVw| !crate::store::link_dup(a, b),
    );
    let ids = task_ids_of(links, category);
    assert forall|i: int, j: int| 0 <= i < j < ids.len() implies ids[i] != ids[j] by {
        links.lemma_filter_pred(pred, i);
        links.lemma_filter_pred(pred, j);
        assert(ids[i] == f[i].task_id && ids[j] == f[j].task_id);
        assert(!crate::store::link_dup(f[i], f[j]));
    }
}

/// A task's assignment rows are exactly the pairs built back from its
/// category list.
pub proof fn lemma_link_pairs_of(links: Seq<LinkVw>, task_id: i64)
    ensures
        link_pairs(task_id, categories_of(links, task_id)) == links.filter(
            |l: LinkVw| l.task_id == task_id,
        ),
{
    let pred = |l: LinkVw| l.task_id == task_id;
    let f = links.filter(pred);
    assert forall|i: int| 0 <= i < f.len() implies link_pairs(
        task_id,
        categories_of(links, task_id),
    )[i] == f[i] by {
        links.lemma_filter_pred(pred, i);
    }
    assert(link_pairs(task_id, categories_of(links, task_id)) =~= f);
}

/// A category's assignment rows are exactly the pairs built back from its
/// task id list.
pub proof fn lemma_id_pairs_of(links: Seq<LinkVw>, category: Seq<char>)
    ensures
        id_pairs(task_ids_of(links, category), category) == links.filter(
            |l: LinkVw| l.category == category,
        ),
{
    let pred = |l: LinkVw| l.category == category;
    let f = links.filter(pred);
    assert forall|i: int| 0 <= i < f.len() implies id_pairs(
        task_ids_of(links, category),
        category,
    )[i] == f[i] by {
        links.lemma_filter_pred(pred, i);
    }
    assert(id_pairs(task_ids_of(links, category), category) =~= f);
}

/// An accepted request leads from a well-formed store with sound
/// assignments to another.
pub proof fn lemma_apply_op_wf(m: StoreV, op: Op, now: Date)
    requires
        m.wf(),
        ref_ok(m),
        op_sound(m, op),
        apply_op(m, op, now) is Some,
    ensures
        apply_op(m, op, now).unwrap().wf(),
        ref_ok(apply_op(m, op, now).unwrap()),
{
    let m2 = apply_op(m, op, now).unwrap();
    lemma_actions_wf_append(m.actions, m2.actions.last());
    assert(m2.actions =~= unrestored(m.actions).push(m2.actions.last()));
    match op {
        Op::AddTask(task) => {
            let t = new_task_row(m.tasks, task);
            crate::store::lemma_max_task_id(m.tasks);
            lemma_tasks_wf_push(m.tasks, t);
            lemma_links_wf_add_cats(m.links, t.id, cats_or_empty(task.categories));
            assert forall|i: int| 0 <= i < m2.links.len() implies has_task(
                m2.tasks,
                (#[trigger] m2.links[i]).task_id,
            ) by {
                if i < m.links.len() {
                    assert(m2.links[i] == m.links[i]);
                    let k = choose|k: int|
                        0 <= k < m.tasks.len() && (#[trigger] m.tasks[k]).id
                            == m.links[i].task_id;
                    assert(m2.tasks[k].id == m.links[i].task_id);
                } else {
                    assert(m2.links[i] == link_pairs(t.id, cats_or_empty(task.categories))[i
                        - m.links.len()]);
                    assert(m2.tasks[m.tasks.len() as int].id == t.id);
                }
            }
        },
        Op::EditTask { id, update } => {
            lemma_tasks_wf_update(m.tasks, id, update, now);
            assert forall|i: int| 0 <= i < m2.links.len() implies has_task(
                m2.tasks,
                (#[trigger] m2.links[i]).task_id,
            ) by {
                let k = choose|k: int|
                    0 <= k < m.tasks.len() && (#[trigger] m.tasks[k]).id == m.links[i].task_id;
                assert(m2.tasks[k].id == m.links[i].task_id);
            }
        },
        Op::DeleteTask { id } => {
            lemma_tasks_wf_filter(m.tasks, |t: TaskVw| t.id != id);
            lemma_links_wf_filter(m.links, |l: LinkVw| l.task_id != id);
            assert forall|i: int| 0 <= i < m2.links.len() implies has_task(
                m2.tasks,
                (#[trigger] m2.links[i]).task_id,
            ) by {
                let lpred = |l: LinkVw| l.task_id != id;
                m.links.lemma_filter_pred(lpred, i);
                lemma_filter_contains_iff(m.links, lpred, m2.links[i]);
                let k = choose|k: int| 0 <= k < m.links.len() && m.links[k] == m2.links[i];
                let w = choose|w: int|
                    0 <= w < m.tasks.len() && (#[trigger] m.tasks[w]).id == m.links[k].task_id;
                let tpred = |t: TaskVw| t.id != id;
                m.tasks.lemma_filter_contains(tpred, w);
                lemma_filter_contains_iff(m.tasks, tpred, m.tasks[w]);
                let v = choose|v: int|
                    0 <= v < m2.tasks.len() && m2.tasks[v] == m.tasks[w];
                assert((#[trigger] m2.tasks[v]).id == m2.links[i].task_id);
            }
        },
        Op::AddCategory { task_id, category } => {
            lemma_links_wf_push(m.links, LinkVw { task_id, category });
            assert forall|i: int| 0 <= i < m2.links.len() implies has_task(
                m2.tasks,
                (#[trigger] m2.links[i]).task_id,
            ) by {
                if i < m.links.len() {
                    assert(m2.links[i] == m.links[i]);
                }
            }
        },
        Op::RenameCategory { task_id, old_category, new_category } => {
            lemma_links_wf_rename(m.links, task_id, old_category, new_category);
            assert forall|i: int| 0 <= i < m2.links.len() implies has_task(
                m2.tasks,
                (#[trigger] m2.links[i]).task_id,
            ) by {
                assert(m2.links[i].task_id == m.links[i].task_id);
            }
        },
        Op::RemoveCategory { task_id, category } => {
            lemma_links_wf_filter(
                m.links,
                |l: LinkVw| !(l.task_id == task_id && l.category == category),
            );
            assert forall|i: int| 0 <= i < m2.links.len() implies has_task(
                m2.tasks,
                (#[trigger] m2.links[i]).task_id,
            ) by {
                let lpred = |l: LinkVw| !(l.task_id == task_id && l.category == category);
                lemma_filter_contains_iff(m.links, lpred, m2.links[i]);
                assert(m2.links.contains(m2.links[i]));
                let k = choose|k: int| 0 <= k < m.links.len() && m.links[k] == m2.links[i];
            }
        },
        Op::BatchRenameCategory { old_category, new_category } => {
            lemma_links_wf_rename_all(m.links, old_category, new_category);
            assert forall|i: int| 0 <= i < m2.links.len() implies has_task(
                m2.tasks,
                (#[trigger] m2.links[i]).task_id,
            ) by {
                assert(m2.links[i].task_id == m.links[i].task_id);
            }
        },
        Op::BatchDeleteCategory { category } => {
            lemma_links_wf_filter(m.links, |l: LinkVw| l.category != category);
            assert forall|i: int| 0 <= i < m2.links.len() implies has_task(
                m2.tasks,
                (#[trigger] m2.links[i]).task_id,
            ) by {
                let lpred = |l: LinkVw| l.category != category;
                lemma_filter_contains_iff(m.links, lpred, m2.links[i]);
                assert(m2.links.contains(m2.links[i]));
                let k = choose|k: int| 0 <= k < m.links.len() && m.links[k] == m2.links[i];
            }
        },
    }
}

/// Replaying a record reads the tables only through their rows: stores
/// holding the same rows accept the same replays, produce tables holding
/// the same rows, and write back the same payload.
pub proof fn lemma_replay_same(
    ta: Seq<TaskVw>,
    la: Seq<LinkVw>,
    tb: Seq<TaskVw>,
    lb: Seq<LinkVw>,
    a: RecordVw,
)
    requires
        same_elems(ta, tb),
        same_elems(la, lb),
        tasks_wf(ta),
        tasks_wf(tb),
        links_wf(la),
        links_wf(lb),
    ensures
        replay_entity(ta, la, a) is Some <==> replay_entity(tb, lb, a) is Some,
        replay_entity(ta, la, a) matches Some(ra) ==> (replay_entity(tb, lb, a) matches Some(rb)
            && same_elems(ra.0, rb.0) && same_elems(ra.1, rb.1)),
        replay_entity(ta, la, a) is Some ==> replay_payload(ta, a) == replay_payload(tb, a),
{
    match a.action {
        ActionVw::Task {
            action_type,
            id,
            title,
            info,
            deadline,
            categories,
            status,
            updated_at,
            created_at,
        } => {
            lemma_has_task_same(ta, tb, id);
            match action_type {
                ActionTypeEnum::Create => {
                    if has_task(ta, id) {
                        lemma_filter_same(ta, tb, |t: TaskVw| t.id != id);
                        lemma_filter_same(la, lb, |l: LinkVw| l.task_id != id);
                    }
                },
                ActionTypeEnum::Update => {
                    if has_task(ta, id) {
                        lemma_task_of_same(ta, tb, id);
                        let u = full_update(title, info, deadline, status, created_at);
                        lemma_map_same(
                            ta,
                            tb,
                            |t: TaskVw|
                                if t.id == id {
                                    u.applied_to(t, updated_at)
                                } else {
                                    t
                                },
                        );
                    }
                },
                ActionTypeEnum::Delete => {
                    lemma_batch_cats_ok_same(la, lb, id, cats_or_empty(categories));
                    if 1 <= id && !has_task(ta, id) && batch_cats_ok(
                        la,
                        id,
                        cats_or_empty(categories),
                    ) {
                        let row = restored_task_row(
                            id,
                            AddTaskVw { title, info, deadline, categories: None, status, created_at },
                            updated_at,
                        );
                        lemma_push_same(ta, tb, row);
                        lemma_add_same(la, lb, link_pairs(id, cats_or_empty(categories)));
                    }
                },
            }
        },
        ActionVw::Category { action_type, category, task_id } => {
            lemma_has_link_same(la, lb, task_id, category);
            match action_type {
                ActionTypeEnum::Create => {
                    if has_link(la, task_id, category) {
                        lemma_filter_same(
                            la,
                            lb,
                            |l: LinkVw| !(l.task_id == task_id && l.category == category),
                        );
                    }
                },
                ActionTypeEnum::Update => {
                },
                ActionTypeEnum::Delete => {
                    if !has_link(la, task_id, category) {
                        lemma_push_same(la, lb, LinkVw { task_id, category });
                    }
                },
            }
        },
        ActionVw::RenameTaskCategory { old_category, new_category, task_id } => {
            lemma_has_link_same(la, lb, task_id, new_category);
            lemma_has_link_same(la, lb, task_id, old_category);
            if has_link(la, task_id, new_category) && (new_category == old_category || !has_link(
                la,
                task_id,
                old_category,
            )) {
                lemma_map_same(
                    la,
                    lb,
                    |l: LinkVw|
                        if l.task_id == task_id && l.category == new_category {
                            LinkVw { task_id: l.task_id, category: old_category }
                        } else {
                            l
                        },
                );
            }
        },
        ActionVw::BatchCategoryDelete { task_ids, category } => {
            if a.restored {
                lemma_filter_same(la, lb, |l: LinkVw| l.category != category);
            } else {
                lemma_batch_ids_ok_same(la, lb, task_ids, category);
                if batch_ids_ok(la, task_ids, category) {
                    lemma_add_same(la, lb, id_pairs(task_ids, category));
                }
            }
        },
        ActionVw::BatchCategoryRename { old_category, new_category } => {
            lemma_batch_rename_conflict_same(la, lb, new_category, old_category);
            if !batch_rename_conflict(la, new_category, old_category) {
                lemma_map_same(
                    la,
                    lb,
                    |l: LinkVw|
                        if l.category == new_category {
                            LinkVw { task_id: l.task_id, category: old_category }
                        } else {
                            l
                        },
                );
            }
        },
    }
}

/// A replay leads from a well-formed store to a well-formed store.
pub proof fn lemma_replay_wf(m: StoreV, a: RecordVw)
    requires
        m.wf(),
        replay(m, a) is Some,
    ensures
        replay(m, a).unwrap().wf(),
{
    let m2 = replay(m, a).unwrap();
    lemma_actions_wf_replace(m.actions, a.id, replay_payload(m.tasks, a), !a.restored);
    match a.action {
        ActionVw::Task {
            action_type,
            id,
            title,
            info,
            deadline,
            categories,
            status,
            updated_at,
            created_at,
        } => {
            match action_type {
                ActionTypeEnum::Create => {
                    lemma_tasks_wf_filter(m.tasks, |t: TaskVw| t.id != id);
                    lemma_links_wf_filter(m.links, |l: LinkVw| l.task_id != id);
                },
                ActionTypeEnum::Update => {
                    lemma_tasks_wf_update(
                        m.tasks,
                        id,
                        full_update(title, info, deadline, status, created_at),
                        updated_at,
                    );
                },
                ActionTypeEnum::Delete => {
                    let row = restored_task_row(
                        id,
                        AddTaskVw { title, info, deadline, categories: None, status, created_at },
                        updated_at,
                    );
                    lemma_tasks_wf_push(m.tasks, row);
                    lemma_links_wf_add_cats(m.links, id, cats_or_empty(categories));
                },
            }
        },
        ActionVw::Category { action_type, category, task_id } => {
            match action_type {
                ActionTypeEnum::Create => {
                    lemma_links_wf_filter(
                        m.links,
                        |l: LinkVw| !(l.task_id == task_id && l.category == category),
                    );
                },
                ActionTypeEnum::Update => {
                },
                ActionTypeEnum::Delete => {
                    lemma_links_wf_push(m.links, LinkVw { task_id, category });
                },
            }
        },
        ActionVw::RenameTaskCategory { old_category, new_category, task_id } => {
            lemma_links_wf_rename(m.links, task_id, new_category, old_category);
        },
        ActionVw::BatchCategoryDelete { task_ids, category } => {
            if a.restored {
                lemma_links_wf_filter(m.links, |l: LinkVw| l.category != category);
            } else {
                lemma_links_wf_add_ids(m.links, task_ids, category);
            }
        },
        ActionVw::BatchCategoryRename { old_category, new_category } => {
            lemma_links_wf_rename_all(m.links, new_category, old_category);
        },
    }
}

/// The shared conclusion of the undo laws: the record appended by an
/// accepted request is the undo target, and replaying it brings back the
/// same task rows and the same assignment pairs.
pub open spec fn undo_reverses(m: StoreV, op: Op, now: Date) -> bool {
    let m2 = apply_op(m, op, now).unwrap();
    let rec = m2.actions.last();
    &&& undo_target_spec(m2.actions) == Some(rec)
    &&& !rec.restored
    &&& (replay_entity(m2.tasks, m2.links, rec) matches Some(tl) && same_elems(tl.0, m.tasks)
        && same_elems(tl.1, m.links))
}

/// The freshly appended record of an accepted request is the undo target.
pub proof fn lemma_fresh_record_is_target(m: StoreV, op: Op, now: Date)
    requires
        apply_op(m, op, now) is Some,
    ensures
        ({
            let m2 = apply_op(m, op, now).unwrap();
            undo_target_spec(m2.actions) == Some(m2.actions.last())
                && !m2.actions.last().restored
        }),
{
}

/// An all-unrestored ledger offers nothing to redo.
proof fn lemma_redo_none(actions: Seq<RecordVw>)
    requires
        forall|i: int| 0 <= i < actions.len() ==> !(#[trigger] actions[i]).restored,
    ensures
        redo_target_spec(actions) is None,
    decreases actions.len(),
{
    if actions.len() > 0 {
        assert(forall|i: int|
            0 <= i < actions.skip(1).len() ==> !(#[trigger] actions.skip(1)[i]).restored);
        lemma_redo_none(actions.skip(1));
    }
}

/// Writing new history discards the redo branch: after any accepted
/// request, every restored record is gone and a redo reports nothing to
/// redo.
pub proof fn lemma_append_discards_redo(m: StoreV, op: Op, now: Date)
    requires
        apply_op(m, op, now) is Some,
    ensures
        redo_target_spec(apply_op(m, op, now).unwrap().actions) is None,
{
    let m2 = apply_op(m, op, now).unwrap();
    let rec = m2.actions.last();
    assert(m2.actions =~= unrestored(m.actions).push(rec));
    let pred = |x: RecordVw| !x.restored;
    assert forall|i: int| 0 <= i < m2.actions.len() implies !(
    #[trigger] m2.actions[i]).restored by {
        if i < m2.actions.len() - 1 {
            assert(m2.actions[i] == unrestored(m.actions)[i]);
            m.actions.lemma_filter_pred(pred, i);
        }
    }
    lemma_redo_none(m2.actions);
}

} // verus!
