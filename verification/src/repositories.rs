//! The operation orchestrator: every logical request mutates the entity
//! tables and appends the inverse record to the ledger in one step, and
//! undo/redo replays those records.
//!
//! Each mutating function either applies completely or, on a refused
//! request, leaves the store exactly as it was: validation runs before any
//! write, which models the single enclosing transaction of the storage
//! layer.

use vstd::prelude::*;

use crate::category_repository::{
    batch_cats_ok, batch_ids_ok, batch_rename_conflict, categories_of, id_pairs, link_pairs,
    remove_category_links, remove_link, remove_task_links, rename_all_links, rename_link,
    task_ids_of,
};
use crate::date::Date;
use crate::models::{
    Action, ActionEnum, ActionTypeEnum, ActionVw, AddTask, AddTaskVw, LinkVw, QueryTaskPayload,
    RecordVw, Task, TaskStatusEnum, TaskVw, UpdateTask, UpdateTaskVw,
};
use crate::store::{
    has_link, has_task, next_action_id, replace_action, task_of, unrestored, Store, StoreV,
};
use crate::task_repository::{apply_update, new_task_row, restored_task_row};
use crate::Error;

verus! {

/// The ledger payload that snapshots task `tv` under mutation kind `t`.
pub open spec fn task_payload(
    t: ActionTypeEnum,
    tv: TaskVw,
    categories: Option<Seq<Seq<char>>>,
) -> ActionVw {
    ActionVw::Task {
        action_type: t,
        id: tv.id,
        title: tv.title,
        info: tv.info,
        deadline: tv.deadline,
        categories,
        status: tv.status,
        updated_at: tv.updated_at,
        created_at: tv.created_at,
    }
}

/// The category names a creation request carries, none meaning an empty
/// batch.
pub open spec fn cats_or_empty(c: Option<Seq<Seq<char>>>) -> Seq<Seq<char>> {
    match c {
        Some(s) => s,
        None => Seq::empty(),
    }
}

/// The update that overwrites every field of a task.
pub open spec fn full_update(
    title: Seq<char>,
    info: Option<Seq<char>>,
    deadline: Option<Date>,
    status: TaskStatusEnum,
    created_at: Date,
) -> UpdateTaskVw {
    UpdateTaskVw {
        title: Some(title),
        info: Some(info),
        deadline: Some(deadline),
        status: Some(status),
        created_at: Some(created_at),
    }
}

/// The payload that replaying record `a` writes back: the inverse of the
/// inverse it carried, so that the next replay reverses this one.
pub open spec fn replay_payload(tasks: Seq<TaskVw>, a: RecordVw) -> ActionVw {
    match a.action {
        ActionVw::Task {
            action_type,
            id,
            title,
            info,
            deadline,
            categories,
            status,
            updated_at,
            created_at,
        } => {
            match action_type {
                ActionTypeEnum::Create => ActionVw::Task {
                    action_type: ActionTypeEnum::Delete,
                    id,
                    title,
                    info,
                    deadline,
                    categories,
                    status,
                    updated_at,
                    created_at,
                },
                ActionTypeEnum::Update => task_payload(
                    ActionTypeEnum::Update,
                    task_of(tasks, id),
                    categories,
                ),
                ActionTypeEnum::Delete => ActionVw::Task {
                    action_type: ActionTypeEnum::Create,
                    id,
                    title,
                    info,
                    deadline,
                    categories,
                    status,
                    updated_at,
                    created_at,
                },
            }
        },
        ActionVw::Category { action_type, category, task_id } => {
            match action_type {
                ActionTypeEnum::Create => ActionVw::Category {
                    action_type: ActionTypeEnum::Delete,
                    category,
                    task_id,
                },
                ActionTypeEnum::Update => a.action,
                ActionTypeEnum::Delete => ActionVw::Category {
                    action_type: ActionTypeEnum::Create,
                    category,
                    task_id,
                },
            }
        },
        ActionVw::RenameTaskCategory {
            old_category,
            new_category,
            task_id,
        } => ActionVw::RenameTaskCategory {
            old_category: new_category,
            new_category: old_category,
            task_id,
        },
        ActionVw::BatchCategoryDelete { task_ids, category } => ActionVw::BatchCategoryDelete {
            task_ids,
            category,
        },
        ActionVw::BatchCategoryRename {
            old_category,
            new_category,
        } => ActionVw::BatchCategoryRename {
            old_category: new_category,
            new_category: old_category,
        },
    }
}

/// What replaying record `a` does to the entity tables alone: the new
/// task and assignment tables when the replay applies, nothing when the
/// record does not match the state.
pub open spec fn replay_entity(tasks: Seq<TaskVw>, links: Seq<LinkVw>, a: RecordVw) -> Option<
    (Seq<TaskVw>, Seq<LinkVw>),
> {
    match a.action {
        ActionVw::Task {
            action_type,
            id,
            title,
            info,
            deadline,
            categories,
            status,
            updated_at,
            created_at,
        } => {
            match action_type {
                ActionTypeEnum::Create => if has_task(tasks, id) {
                    Some(
                        (tasks.filter(|t: TaskVw| t.id != id), remove_task_links(links, id)),
                    )
                } else {
                    None
                },
                ActionTypeEnum::Update => if has_task(tasks, id) {
                    Some(
                        (
                            apply_update(
                                tasks,
                                id,
                                full_update(title, info, deadline, status, created_at),
                                updated_at,
                            ),
                            links,
                        ),
                    )
                } else {
                    None
                },
                ActionTypeEnum::Delete => if 1 <= id && !has_task(tasks, id) && batch_cats_ok(
                    links,
                    id,
                    cats_or_empty(categories),
                ) {
                    Some(
                        (
                            tasks.push(
                                restored_task_row(
                                    id,
                                    AddTaskVw {
                                        title,
                                        info,
                                        deadline,
                                        categories: None,
                                        status,
                                        created_at,
                                    },
                                    updated_at,
                                ),
                            ),
                            links + link_pairs(id, cats_or_empty(categories)),
                        ),
                    )
                } else {
                    None
                },
            }
        },
        ActionVw::Category { action_type, category, task_id } => {
            match action_type {
                ActionTypeEnum::Create => if has_link(links, task_id, category) {
                    Some((tasks, remove_link(links, task_id, category)))
                } else {
                    None
                },
                ActionTypeEnum::Update => None,
                ActionTypeEnum::Delete => if !has_link(links, task_id, category) {
                    Some((tasks, links.push(LinkVw { task_id, category })))
                } else {
                    None
                },
            }
        },
        ActionVw::RenameTaskCategory { old_category, new_category, task_id } => {
            if has_link(links, task_id, new_category) && (new_category == old_category
                || !has_link(links, task_id, old_category)) {
                Some((tasks, rename_link(links, task_id, new_category, old_category)))
            } else {
                None
            }
        },
        ActionVw::BatchCategoryDelete { task_ids, category } => {
            if a.restored {
                Some((tasks, remove_category_links(links, category)))
            } else if batch_ids_ok(links, task_ids, category) {
                Some((tasks, links + id_pairs(task_ids, category)))
            } else {
                None
            }
        },
        ActionVw::BatchCategoryRename { old_category, new_category } => {
            if !batch_rename_conflict(links, new_category, old_category) {
                Some((tasks, rename_all_links(links, new_category, old_category)))
            } else {
                None
            }
        },
    }
}

/// What replaying ledger record `a` does to store `m`: the new store when
/// the replay applies, nothing when the record does not match the state
/// (a surfaced invariant violation, never a partial write).
///
/// Replaying a record applies the inverse operation it carries and
/// overwrites the record in place with the inverse of that inverse, its
/// flag flipped; the record ids and every other record stay untouched.
pub open spec fn replay(m: StoreV, a: RecordVw) -> Option<StoreV> {
    match replay_entity(m.tasks, m.links, a) {
        None => None,
        Some(tl) => Some(
            StoreV {
                tasks: tl.0,
                links: tl.1,
                actions: replace_action(m.actions, a.id, replay_payload(m.tasks, a), !a.restored),
            },
        ),
    }
}

/// Creates a task together with its category assignments and logs the
/// inverse record; a repeated or already assigned category refuses the
/// whole request and changes nothing.
pub fn add_task(store: &mut Store, task: AddTask, now: Date) -> (r: Result<Task, Error>)
    requires
        old(store).wf(),
        crate::store::max_task_id(old(store)@.tasks) < i64::MAX,
        next_action_id(old(store)@.actions) <= i64::MAX,
    ensures
        r is Ok <==> batch_cats_ok(
            old(store)@.links,
            (crate::store::max_task_id(old(store)@.tasks) + 1) as i64,
            cats_or_empty(task@.categories),
        ),
        r matches Ok(t) ==> t@ == new_task_row(old(store)@.tasks, task@) && final(store)@.tasks
            == old(store)@.tasks.push(t@) && final(store)@.links == old(store)@.links + link_pairs(
            t@.id,
            cats_or_empty(task@.categories),
        ) && final(store)@.actions == unrestored(old(store)@.actions).push(
            RecordVw {
                id: next_action_id(old(store)@.actions) as i64,
                action: task_payload(ActionTypeEnum::Create, t@, task@.categories),
                restored: false,
                created_at: now,
            },
        ) && final(store).wf(),
        r matches Err(e) ==> final(store)@ == old(store)@ && e is DuplicateCategory,
{
    let categories = crate::models::clone_opt_string_vec(&task.categories);
    let ghost catsv = task@.categories;
    let new_id = store.max_id_exec() + 1;
    if let Some(cats) = &categories {
        if let Some(conflict) = store.find_batch_conflict(new_id, cats) {
            return Err(Error::DuplicateCategory { task_id: new_id, category: conflict });
        }
    }
    let t = store.create_task(task);
    let out = t.duplicate();
    let payload = ActionEnum::Task {
        action_type: ActionTypeEnum::Create,
        id: t.id,
        title: t.title,
        info: t.info,
        deadline: t.deadline,
        categories,
        status: t.status,
        updated_at: t.updated_at,
        created_at: t.created_at,
    };
    proof {
        assert(payload@ == task_payload(ActionTypeEnum::Create, out@, catsv));
    }
    if let ActionEnum::Task { categories: Some(ref cats), .. } = payload {
        let res = store.batch_create_task_categories(new_id, cats);
        proof {
            assert(res is Ok);
        }
    } else {
        proof {
            assert(store@.links =~= old(store)@.links + link_pairs(
                out@.id,
                cats_or_empty(catsv),
            ));
        }
    }
    store.create_action(payload, now);
    Ok(out)
}

/// Applies a partial update to a task and logs the inverse record built
/// from the caller's pre-update snapshot `old_task`.
pub fn edit_task(
    store: &mut Store,
    id: i64,
    old_task: Task,
    new_task: UpdateTask,
    now: Date,
) -> (r: Result<Task, Error>)
    requires
        old(store).wf(),
        next_action_id(old(store)@.actions) <= i64::MAX,
    ensures
        new_task@.supplied_fields() == 0 ==> (r == Err::<Task, Error>(Error::NoChange) && final(store)@ == old(store)@),
        new_task@.supplied_fields() > 0 && !has_task(old(store)@.tasks, id) ==> (r == Err::<
            Task,
            Error,
        >(Error::TaskNotFound { id }) && final(store)@ == old(store)@),
        new_task@.supplied_fields() > 0 && has_task(old(store)@.tasks, id) ==> (r matches Ok(t)
            && t@ == new_task@.applied_to(task_of(old(store)@.tasks, id), now) && final(store)@.tasks == apply_update(old(store)@.tasks, id, new_task@, now) && final(store)@.links
            == old(store)@.links && final(store)@.actions == unrestored(
            old(store)@.actions,
        ).push(
            RecordVw {
                id: next_action_id(old(store)@.actions) as i64,
                action: task_payload(ActionTypeEnum::Update, old_task@, None),
                restored: false,
                created_at: now,
            },
        ) && final(store).wf()),
{
    let ghost u = new_task@;
    if new_task.title.is_none() && new_task.info.is_none() && new_task.deadline.is_none()
        && new_task.status.is_none() && new_task.created_at.is_none() {
        return Err(Error::NoChange);
    }
    if store.get_task(id).is_none() {
        return Err(Error::TaskNotFound { id });
    }
    let res = store.update_task(id, new_task, now);
    proof {
        assert(res is Ok);
    }
    let payload = ActionEnum::Task {
        action_type: ActionTypeEnum::Update,
        id: old_task.id,
        title: old_task.title,
        info: old_task.info,
        deadline: old_task.deadline,
        categories: None,
        status: old_task.status,
        updated_at: old_task.updated_at,
        created_at: old_task.created_at,
    };
    store.create_action(payload, now);
    let refreshed = store.get_task(id);
    proof {
        assert(has_task(store@.tasks, id)) by {
            assert(store@.tasks == apply_update(old(store)@.tasks, id, u, now));
            let w = choose|w: int|
                0 <= w < old(store)@.tasks.len() && (#[trigger] old(store)@.tasks[w]).id == id;
            assert(store@.tasks[w].id == id);
        }
    }
    match refreshed {
        Some(t) => {
            proof {
                let w = choose|w: int|
                    0 <= w < old(store)@.tasks.len() && (#[trigger] old(store)@.tasks[w]).id
                        == id;
                crate::store::lemma_task_at(old(store)@.tasks, id, w);
                crate::store::lemma_task_at(store@.tasks, id, w);
            }
            Ok(t)
        },
        None => {
            proof {
                assert(false);
            }
            Err(Error::TaskNotFound { id })
        },
    }
}

/// Deletes a task and its category assignments and logs the inverse
/// record, which snapshots the row and its categories.
pub fn delete_task(store: &mut Store, task: &Task, now: Date) -> (r: Result<(), Error>)
    requires
        old(store).wf(),
        next_action_id(old(store)@.actions) <= i64::MAX,
    ensures
        r is Ok,
        final(store)@.tasks == old(store)@.tasks.filter(|t: TaskVw| t.id != task.id),
        final(store)@.links == remove_task_links(old(store)@.links, task.id),
        final(store)@.actions == unrestored(old(store)@.actions).push(
            RecordVw {
                id: next_action_id(old(store)@.actions) as i64,
                action: task_payload(
                    ActionTypeEnum::Delete,
                    task@,
                    Some(categories_of(old(store)@.links, task.id)),
                ),
                restored: false,
                created_at: now,
            },
        ),
        final(store).wf(),
{
    let categories = store.fetch_task_categories(task.id);
    store.delete_task_categories(task.id);
    store.delete_task(task);
    let payload = ActionEnum::Task {
        action_type: ActionTypeEnum::Delete,
        id: task.id,
        title: task.title.clone(),
        info: crate::models::clone_opt_string(&task.info),
        deadline: task.deadline,
        categories: Some(categories),
        status: task.status,
        updated_at: task.updated_at,
        created_at: task.created_at,
    };
    store.create_action(payload, now);
    Ok(())
}

/// Assigns a category to a task and logs the inverse record.
pub fn add_category_to_task(store: &mut Store, task_id: i64, category: &str, now: Date) -> (r:
    Result<(), Error>)
    requires
        old(store).wf(),
        next_action_id(old(store)@.actions) <= i64::MAX,
    ensures
        r is Err <==> has_link(old(store)@.links, task_id, category@),
        r matches Err(e) ==> final(store)@ == old(store)@ && (
        e matches Error::DuplicateCategory { task_id: t, category: c } && t == task_id && c@
            == category@),
        r is Ok ==> final(store)@.tasks == old(store)@.tasks && final(store)@.links == old(
            store,
        )@.links.push(LinkVw { task_id, category: category@ }) && final(store)@.actions
            == unrestored(old(store)@.actions).push(
            RecordVw {
                id: next_action_id(old(store)@.actions) as i64,
                action: ActionVw::Category {
                    action_type: ActionTypeEnum::Create,
                    category: category@,
                    task_id,
                },
                restored: false,
                created_at: now,
            },
        ) && final(store).wf(),
{
    let res = store.create_category(task_id, category);
    match res {
        Err(e) => Err(e),
        Ok(_) => {
            let payload = ActionEnum::Category {
                action_type: ActionTypeEnum::Create,
                category: category.to_owned(),
                task_id,
            };
            store.create_action(payload, now);
            Ok(())
        },
    }
}

/// Removes a category from a task and logs the inverse record.
pub fn remove_task_category(store: &mut Store, task_id: i64, category: &str, now: Date) -> (r:
    Result<(), Error>)
    requires
        old(store).wf(),
        next_action_id(old(store)@.actions) <= i64::MAX,
    ensures
        r is Err <==> !has_link(old(store)@.links, task_id, category@),
        r matches Err(e) ==> final(store)@ == old(store)@ && (
        e matches Error::CategoryNotFound { task_id: t, category: c } && t == task_id && c@
            == category@),
        r is Ok ==> final(store)@.tasks == old(store)@.tasks && final(store)@.links == remove_link(
            old(store)@.links,
            task_id,
            category@,
        ) && final(store)@.actions == unrestored(old(store)@.actions).push(
            RecordVw {
                id: next_action_id(old(store)@.actions) as i64,
                action: ActionVw::Category {
                    action_type: ActionTypeEnum::Delete,
                    category: category@,
                    task_id,
                },
                restored: false,
                created_at: now,
            },
        ) && final(store).wf(),
{
    let res = store.delete_category(task_id, category);
    match res {
        Err(e) => Err(e),
        Ok(_) => {
            let payload = ActionEnum::Category {
                action_type: ActionTypeEnum::Delete,
                category: category.to_owned(),
                task_id,
            };
            store.create_action(payload, now);
            Ok(())
        },
    }
}

/// Renames a category on one task and logs the inverse record.
pub fn rename_task_category(
    store: &mut Store,
    task_id: i64,
    old_category: &str,
    new_category: &str,
    now: Date,
) -> (r: Result<(), Error>)
    requires
        old(store).wf(),
        next_action_id(old(store)@.actions) <= i64::MAX,
    ensures
        !has_link(old(store)@.links, task_id, old_category@) ==> (r matches Err(e) && (
        e matches Error::CategoryNotFound { task_id: t, category: c } && t == task_id && c@
            == old_category@) && final(store)@ == old(store)@),
        has_link(old(store)@.links, task_id, old_category@) && old_category@ != new_category@
            && has_link(old(store)@.links, task_id, new_category@) ==> (r matches Err(e) && (
        e matches Error::DuplicateCategory { task_id: t, category: c } && t == task_id && c@
            == new_category@) && final(store)@ == old(store)@),
        has_link(old(store)@.links, task_id, old_category@) && (old_category@ == new_category@
            || !has_link(old(store)@.links, task_id, new_category@)) ==> (r is Ok && final(store)@.tasks == old(store)@.tasks && final(store)@.links == rename_link(
            old(store)@.links,
            task_id,
            old_category@,
            new_category@,
        ) && final(store)@.actions == unrestored(old(store)@.actions).push(
            RecordVw {
                id: next_action_id(old(store)@.actions) as i64,
                action: ActionVw::RenameTaskCategory {
                    old_category: old_category@,
                    new_category: new_category@,
                    task_id,
                },
                restored: false,
                created_at: now,
            },
        ) && final(store).wf()),
{
    let res = store.rename_category(task_id, old_category, new_category);
    match res {
        Err(e) => Err(e),
        Ok(_) => {
            let payload = ActionEnum::RenameTaskCategory {
                old_category: old_category.to_owned(),
                new_category: new_category.to_owned(),
                task_id,
            };
            store.create_action(payload, now);
            Ok(())
        },
    }
}

/// Renames a category across every task and logs the inverse record.
pub fn batch_rename_category(
    store: &mut Store,
    old_category: &str,
    new_category: &str,
    now: Date,
) -> (r: Result<(), Error>)
    requires
        old(store).wf(),
        next_action_id(old(store)@.actions) <= i64::MAX,
    ensures
        batch_rename_conflict(old(store)@.links, old_category@, new_category@) ==> (
        r matches Err(e) && e is DuplicateCategory && final(store)@ == old(store)@),
        !batch_rename_conflict(old(store)@.links, old_category@, new_category@) ==> (r is Ok
            && final(store)@.tasks == old(store)@.tasks && final(store)@.links == rename_all_links(
            old(store)@.links,
            old_category@,
            new_category@,
        ) && final(store)@.actions == unrestored(old(store)@.actions).push(
            RecordVw {
                id: next_action_id(old(store)@.actions) as i64,
                action: ActionVw::BatchCategoryRename {
                    old_category: old_category@,
                    new_category: new_category@,
                },
                restored: false,
                created_at: now,
            },
        ) && final(store).wf()),
{
    let res = store.batch_rename_category(old_category, new_category);
    match res {
        Err(e) => Err(e),
        Ok(_) => {
            let payload = ActionEnum::BatchCategoryRename {
                old_category: old_category.to_owned(),
                new_category: new_category.to_owned(),
            };
            store.create_action(payload, now);
            Ok(())
        },
    }
}

/// Deletes a category across every task, snapshotting which tasks carried
/// it, and logs the inverse record.
pub fn batch_delete_category(store: &mut Store, category: &str, now: Date) -> (r: Result<
    (),
    Error,
>)
    requires
        old(store).wf(),
        next_action_id(old(store)@.actions) <= i64::MAX,
    ensures
        r is Ok,
        final(store)@.tasks == old(store)@.tasks,
        final(store)@.links == remove_category_links(old(store)@.links, category@),
        final(store)@.actions == unrestored(old(store)@.actions).push(
            RecordVw {
                id: next_action_id(old(store)@.actions) as i64,
                action: ActionVw::BatchCategoryDelete {
                    task_ids: task_ids_of(old(store)@.links, category@),
                    category: category@,
                },
                restored: false,
                created_at: now,
            },
        ),
        final(store).wf(),
{
    let task_ids = store.get_category_task_ids(category);
    store.batch_delete_category(category);
    let payload = ActionEnum::BatchCategoryDelete { task_ids, category: category.to_owned() };
    store.create_action(payload, now);
    Ok(())
}

/// Queries tasks through the repository: filters, one sort key, limit.
pub fn query_tasks(store: &Store, payload: QueryTaskPayload) -> (r: Vec<Task>)
    requires
        store.wf(),
    ensures
        crate::task_repository::chosen_sort(payload) is None ==> r.deep_view()
            == crate::task_repository::take_limit(
            crate::task_repository::query_filter(store@.tasks, store@.links, payload),
            payload.limit,
        ),
        crate::task_repository::chosen_sort(payload) matches Some(sd) ==> (exists|
            full: Seq<TaskVw>,
        |
            full.to_multiset() == crate::task_repository::query_filter(
                store@.tasks,
                store@.links,
                payload,
            ).to_multiset() && crate::task_repository::sorted_tasks(full, sd.0, sd.1)
                && r.deep_view() == crate::task_repository::take_limit(full, payload.limit)),
{
    store.query_tasks(payload)
}

/// Replays the inverse operation a ledger record carries and overwrites
/// the record with the inverse of that inverse, its flag flipped; repeated
/// undo/redo therefore toggles between the two opposite payloads without
/// growing the ledger.
///
/// A record that does not match the present state (its task or pair is
/// gone, or would collide) is surfaced as an error and nothing changes.
pub fn undo_redo_operation(store: &mut Store, action: Action) -> (r: Result<(), Error>)
    requires
        old(store).wf(),
    ensures
        r is Ok <==> replay(old(store)@, action@) is Some,
        replay(old(store)@, action@) matches Some(m) ==> final(store)@ == m,
        r is Err ==> final(store)@ == old(store)@,
        final(store).wf(),
{
    let ghost av = action@;
    let Action { id: record_id, action: payload, restored, created_at: _ } = action;
    match payload {
        ActionEnum::Task {
            action_type,
            id: task_id,
            title,
            info,
            deadline,
            categories,
            status,
            updated_at,
            created_at,
        } => {
            match action_type {
                ActionTypeEnum::Create => {
                    match store.get_task(task_id) {
                        None => Err(Error::TaskNotFound { id: task_id }),
                        Some(t) => {
                            store.delete_task_categories(task_id);
                            store.delete_task(&t);
                            store.update_action(
                                record_id,
                                ActionEnum::Task {
                                    action_type: ActionTypeEnum::Delete,
                                    id: task_id,
                                    title,
                                    info,
                                    deadline,
                                    categories,
                                    status,
                                    updated_at,
                                    created_at,
                                },
                                !restored,
                            );
                            Ok(())
                        },
                    }
                },
                ActionTypeEnum::Update => {
                    match store.get_task(task_id) {
                        None => Err(Error::TaskNotFound { id: task_id }),
                        Some(old_row) => {
                            let res = store.update_task(
                                task_id,
                                UpdateTask {
                                    title: Some(title),
                                    info: Some(info),
                                    deadline: Some(deadline),
                                    status: Some(status),
                                    created_at: Some(created_at),
                                },
                                updated_at,
                            );
                            proof {
                                assert(res is Ok);
                            }
                            store.update_action(
                                record_id,
                                ActionEnum::Task {
                                    action_type: ActionTypeEnum::Update,
                                    id: task_id,
                                    title: old_row.title,
                                    info: old_row.info,
                                    deadline: old_row.deadline,
                                    categories,
                                    status: old_row.status,
                                    updated_at: old_row.updated_at,
                                    created_at: old_row.created_at,
                                },
                                !restored,
                            );
                            Ok(())
                        },
                    }
                },
                ActionTypeEnum::Delete => {
                    if task_id < 1 {
                        return Err(Error::Corruption);
                    }
                    if store.get_task(task_id).is_some() {
                        return Err(Error::DuplicateTask { id: task_id });
                    }
                    if let Some(cats) = &categories {
                        if let Some(conflict) = store.find_batch_conflict(task_id, cats) {
                            return Err(
                                Error::DuplicateCategory { task_id, category: conflict },
                            );
                        }
                    }
                    let new_payload = ActionEnum::Task {
                        action_type: ActionTypeEnum::Create,
                        id: task_id,
                        title: title.clone(),
                        info: crate::models::clone_opt_string(&info),
                        deadline,
                        categories: crate::models::clone_opt_string_vec(&categories),
                        status,
                        updated_at,
                        created_at,
                    };
                    let res = store.create_task_with_id(
                        task_id,
                        AddTask { title, info, deadline, categories: None, status, created_at },
                        updated_at,
                    );
                    proof {
                        assert(res is Ok);
                    }
                    if let ActionEnum::Task { categories: Some(ref cats), .. } = new_payload {
                        let res2 = store.batch_create_task_categories(task_id, cats);
                        proof {
                            assert(res2 is Ok);
                        }
                    } else {
                        proof {
                            assert(store@.links =~= old(store)@.links + link_pairs(
                                task_id,
                                Seq::empty(),
                            ));
                        }
                    }
                    store.update_action(record_id, new_payload, !restored);
                    Ok(())
                },
            }
        },
        ActionEnum::Category { action_type, category, task_id } => {
            match action_type {
                ActionTypeEnum::Create => {
                    match store.delete_category(task_id, category.as_str()) {
                        Err(e) => Err(e),
                        Ok(_) => {
                            store.update_action(
                                record_id,
                                ActionEnum::Category {
                                    action_type: ActionTypeEnum::Delete,
                                    category,
                                    task_id,
                                },
                                !restored,
                            );
                            Ok(())
                        },
                    }
                },
                ActionTypeEnum::Update => Err(Error::Corruption),
                ActionTypeEnum::Delete => {
                    match store.create_category(task_id, category.as_str()) {
                        Err(e) => Err(e),
                        Ok(_) => {
                            store.update_action(
                                record_id,
                                ActionEnum::Category {
                                    action_type: ActionTypeEnum::Create,
                                    category,
                                    task_id,
                                },
                                !restored,
                            );
                            Ok(())
                        },
                    }
                },
            }
        },
        ActionEnum::RenameTaskCategory { old_category, new_category, task_id } => {
            match store.rename_category(task_id, new_category.as_str(), old_category.as_str()) {
                Err(e) => Err(e),
                Ok(_) => {
                    store.update_action(
                        record_id,
                        ActionEnum::RenameTaskCategory {
                            old_category: new_category,
                            new_category: old_category,
                            task_id,
                        },
                        !restored,
                    );
                    Ok(())
                },
            }
        },
        ActionEnum::BatchCategoryDelete { task_ids, category } => {
            if restored {
                store.batch_delete_category(category.as_str());
                store.update_action(
                    record_id,
                    ActionEnum::BatchCategoryDelete { task_ids, category },
                    !restored,
                );
                Ok(())
            } else {
                match store.batch_create_category(&task_ids, category.as_str()) {
                    Err(e) => Err(e),
                    Ok(_) => {
                        store.update_action(
                            record_id,
                            ActionEnum::BatchCategoryDelete { task_ids, category },
                            !restored,
                        );
                        Ok(())
                    },
                }
            }
        },
        ActionEnum::BatchCategoryRename { old_category, new_category } => {
            match store.batch_rename_category(new_category.as_str(), old_category.as_str()) {
                Err(e) => Err(e),
                Ok(_) => {
                    store.update_action(
                        record_id,
                        ActionEnum::BatchCategoryRename {
                            old_category: new_category,
                            new_category: old_category,
                        },
                        !restored,
                    );
                    Ok(())
                },
            }
        },
    }
}

/// Undoes the most recent not-yet-undone operation: replays the
/// unrestored record with the greatest id.
pub fn undo(store: &mut Store) -> (r: Result<(), Error>)
    requires
        old(store).wf(),
    ensures
        crate::store::undo_target_spec(old(store)@.actions) is None ==> r == Err::<(), Error>(
            Error::NothingToUndo,
        ) && final(store)@ == old(store)@,
        crate::store::undo_target_spec(old(store)@.actions) matches Some(a) ==> ((r is Ok
            <==> replay(old(store)@, a) is Some) && (replay(old(store)@, a) matches Some(m)
            ==> final(store)@ == m) && (r is Err ==> final(store)@ == old(store)@)),
        final(store).wf(),
{
    match store.get_last_unrestored_action() {
        Err(e) => Err(e),
        Ok(a) => undo_redo_operation(store, a),
    }
}

/// Redoes the most recently undone operation: replays the restored record
/// with the least id.
pub fn redo(store: &mut Store) -> (r: Result<(), Error>)
    requires
        old(store).wf(),
    ensures
        crate::store::redo_target_spec(old(store)@.actions) is None ==> r == Err::<(), Error>(
            Error::NothingToRedo,
        ) && final(store)@ == old(store)@,
        crate::store::redo_target_spec(old(store)@.actions) matches Some(a) ==> ((r is Ok
            <==> replay(old(store)@, a) is Some) && (replay(old(store)@, a) matches Some(m)
            ==> final(store)@ == m) && (r is Err ==> final(store)@ == old(store)@)),
        final(store).wf(),
{
    match store.get_first_restored_action() {
        Err(e) => Err(e),
        Ok(a) => undo_redo_operation(store, a),
    }
}

} // verus!
