//! The data model: tasks, category assignments, and ledger records.

use vstd::prelude::*;

use crate::date::Date;

verus! {

/// The lifecycle state of a task.
#[derive(Debug, Clone, Copy, PartialEq, Eq, Structural)]
pub enum TaskStatusEnum {
    Done,
    Undone,
    Archived,
}

/// A sort direction for task queries.
#[derive(Debug, Clone, Copy, PartialEq, Eq, Structural)]
pub enum OrderByEnum {
    Asc,
    Desc,
}

/// A stored task row.
///
/// Category names are not held here: they are a derived aggregate over the
/// store's assignment table, fetched on demand.
#[derive(Debug, Clone, PartialEq)]
pub struct Task {
    pub id: i64,
    pub title: String,
    pub info: Option<String>,
    pub deadline: Option<Date>,
    pub status: TaskStatusEnum,
    pub updated_at: Date,
    pub created_at: Date,
}

/// A (task id, category name) assignment row.
#[derive(Debug, Clone, PartialEq)]
pub struct TaskCategory {
    pub task_id: i64,
    pub category: String,
}

/// The fields of a task to be created.
#[derive(Debug, Clone, PartialEq)]
pub struct AddTask {
    pub title: String,
    pub info: Option<String>,
    pub deadline: Option<Date>,
    pub categories: Option<Vec<String>>,
    pub status: TaskStatusEnum,
    pub created_at: Date,
}

/// A partial update of a task: only the supplied fields change.
#[derive(Debug, Clone, PartialEq)]
pub struct UpdateTask {
    pub title: Option<String>,
    pub info: Option<Option<String>>,
    pub deadline: Option<Option<Date>>,
    pub status: Option<TaskStatusEnum>,
    pub created_at: Option<Date>,
}

/// The mathematical content of a task row: every string read as its
/// character sequence.
pub struct TaskVw {
    pub id: i64,
    pub title: Seq<char>,
    pub info: Option<Seq<char>>,
    pub deadline: Option<Date>,
    pub status: TaskStatusEnum,
    pub updated_at: Date,
    pub created_at: Date,
}

/// The mathematical content of an assignment row.
pub struct LinkVw {
    pub task_id: i64,
    pub category: Seq<char>,
}

/// The mathematical content of the fields of a task to be created.
pub struct AddTaskVw {
    pub title: Seq<char>,
    pub info: Option<Seq<char>>,
    pub deadline: Option<Date>,
    pub categories: Option<Seq<Seq<char>>>,
    pub status: TaskStatusEnum,
    pub created_at: Date,
}

/// The mathematical content of a partial task update.
pub struct UpdateTaskVw {
    pub title: Option<Seq<char>>,
    pub info: Option<Option<Seq<char>>>,
    pub deadline: Option<Option<Date>>,
    pub status: Option<TaskStatusEnum>,
    pub created_at: Option<Date>,
}

impl View for Task {
    type V = TaskVw;

    open spec fn view(&self) -> TaskVw {
        TaskVw {
            id: self.id,
            title: self.title@,
            info: self.info.deep_view(),
            deadline: self.deadline,
            status: self.status,
            updated_at: self.updated_at,
            created_at: self.created_at,
        }
    }
}

impl DeepView for Task {
    type V = TaskVw;

    open spec fn deep_view(&self) -> TaskVw {
        self.view()
    }
}

impl View for TaskCategory {
    type V = LinkVw;

    open spec fn view(&self) -> LinkVw {
        LinkVw { task_id: self.task_id, category: self.category@ }
    }
}

impl DeepView for TaskCategory {
    type V = LinkVw;

    open spec fn deep_view(&self) -> LinkVw {
        self.view()
    }
}

impl View for AddTask {
    type V = AddTaskVw;

    open spec fn view(&self) -> AddTaskVw {
        AddTaskVw {
            title: self.title@,
            info: self.info.deep_view(),
            deadline: self.deadline,
            categories: self.categories.deep_view(),
            status: self.status,
            created_at: self.created_at,
        }
    }
}

impl View for UpdateTask {
    type V = UpdateTaskVw;

    open spec fn view(&self) -> UpdateTaskVw {
        UpdateTaskVw {
            title: self.title.deep_view(),
            info: self.info.deep_view(),
            deadline: self.deadline,
            status: self.status,
            created_at: self.created_at,
        }
    }
}

impl UpdateTaskVw {
    /// How many fields the update supplies.
    pub open spec fn supplied_fields(self) -> int {
        (if self.title is Some {
            1int
        } else {
            0int
        }) + (if self.info is Some {
            1int
        } else {
            0int
        }) + (if self.deadline is Some {
            1int
        } else {
            0int
        }) + (if self.status is Some {
            1int
        } else {
            0int
        }) + (if self.created_at is Some {
            1int
        } else {
            0int
        })
    }

    /// The task that applying this update to `t` at time `now` yields.
    pub open spec fn applied_to(self, t: TaskVw, now: Date) -> TaskVw {
        TaskVw {
            id: t.id,
            title: if self.title is Some {
                self.title->0
            } else {
                t.title
            },
            info: if self.info is Some {
                self.info->0
            } else {
                t.info
            },
            deadline: if self.deadline is Some {
                self.deadline->0
            } else {
                t.deadline
            },
            status: if self.status is Some {
                self.status->0
            } else {
                t.status
            },
            created_at: if self.created_at is Some {
                self.created_at->0
            } else {
                t.created_at
            },
            updated_at: now,
        }
    }
}

/// The filters and sort keys of a task query.
#[derive(Debug, Clone, PartialEq)]
pub struct QueryTaskPayload {
    pub status: Option<TaskStatusEnum>,
    pub categories: Option<Vec<String>>,
    pub text: Option<String>,
    pub limit: u64,
    pub sort_created_at: Option<OrderByEnum>,
    pub sort_updated_at: Option<OrderByEnum>,
    pub sort_deadline: Option<OrderByEnum>,
    pub sort_title: Option<OrderByEnum>,
}

/// The kind of task mutation a ledger record reverses.
#[derive(Debug, Clone, Copy, PartialEq, Eq, Structural)]
pub enum ActionTypeEnum {
    Create,
    Update,
    Delete,
}

/// The encoded inverse operation a ledger record carries: replaying it
/// reverses the mutation that was logged.
#[derive(Debug, Clone, PartialEq)]
pub enum ActionEnum {
    Task {
        action_type: ActionTypeEnum,
        id: i64,
        title: String,
        info: Option<String>,
        deadline: Option<Date>,
        categories: Option<Vec<String>>,
        status: TaskStatusEnum,
        updated_at: Date,
        created_at: Date,
    },
    Category { action_type: ActionTypeEnum, category: String, task_id: i64 },
    RenameTaskCategory { old_category: String, new_category: String, task_id: i64 },
    BatchCategoryDelete { task_ids: Vec<i64>, category: String },
    BatchCategoryRename { old_category: String, new_category: String },
}

/// A ledger record: a reversible operation with its undo/redo flag.
#[derive(Debug, Clone, PartialEq)]
pub struct Action {
    pub id: i64,
    pub action: ActionEnum,
    pub restored: bool,
    pub created_at: Date,
}

/// The mathematical content of an [`ActionEnum`]: the same shape with
/// every string read as its character sequence.
pub enum ActionVw {
    Task {
        action_type: ActionTypeEnum,
        id: i64,
        title: Seq<char>,
        info: Option<Seq<char>>,
        deadline: Option<Date>,
        categories: Option<Seq<Seq<char>>>,
        status: TaskStatusEnum,
        updated_at: Date,
        created_at: Date,
    },
    Category { action_type: ActionTypeEnum, category: Seq<char>, task_id: i64 },
    RenameTaskCategory { old_category: Seq<char>, new_category: Seq<char>, task_id: i64 },
    BatchCategoryDelete { task_ids: Seq<i64>, category: Seq<char> },
    BatchCategoryRename { old_category: Seq<char>, new_category: Seq<char> },
}

/// The mathematical content of a ledger record.
pub struct RecordVw {
    pub id: i64,
    pub action: ActionVw,
    pub restored: bool,
    pub created_at: Date,
}

impl View for ActionEnum {
    type V = ActionVw;

    open spec fn view(&self) -> ActionVw {
        match *self {
            ActionEnum::Task {
                action_type,
                id,
                title,
                info,
                deadline,
                categories,
                status,
                updated_at,
                created_at,
            } => ActionVw::Task {
                action_type,
                id,
                title: title@,
                info: info.deep_view(),
                deadline,
                categories: categories.deep_view(),
                status,
                updated_at,
                created_at,
            },
            ActionEnum::Category { action_type, category, task_id } => ActionVw::Category {
                action_type,
                category: category@,
                task_id,
            },
            ActionEnum::RenameTaskCategory {
                old_category,
                new_category,
                task_id,
            } => ActionVw::RenameTaskCategory {
                old_category: old_category@,
                new_category: new_category@,
                task_id,
            },
            ActionEnum::BatchCategoryDelete { task_ids, category } => {
                ActionVw::BatchCategoryDelete { task_ids: task_ids@, category: category@ }
            },
            ActionEnum::BatchCategoryRename { old_category, new_category } => {
                ActionVw::BatchCategoryRename {
                    old_category: old_category@,
                    new_category: new_category@,
                }
            },
        }
    }
}

impl DeepView for ActionEnum {
    type V = ActionVw;

    open spec fn deep_view(&self) -> ActionVw {
        self.view()
    }
}

impl View for Action {
    type V = RecordVw;

    open spec fn view(&self) -> RecordVw {
        RecordVw {
            id: self.id,
            action: self.action@,
            restored: self.restored,
            created_at: self.created_at,
        }
    }
}

impl DeepView for Action {
    type V = RecordVw;

    open spec fn deep_view(&self) -> RecordVw {
        self.view()
    }
}

/// An equal copy of an optional string.
pub fn clone_opt_string(v: &Option<String>) -> (r: Option<String>)
    ensures
        r == *v,
{
    match v {
        Some(s) => Some(s.clone()),
        None => None,
    }
}

/// An equal copy of a string vector.
pub fn clone_string_vec(v: &Vec<String>) -> (r: Vec<String>)
    ensures
        r@ == v@,
{
    let mut r: Vec<String> = Vec::new();
    let mut i: usize = 0;
    while i < v.len()
        invariant
            i <= v.len(),
            r@ =~= v@.take(i as int),
        decreases v.len() - i,
    {
        r.push(v[i].clone());
        i = i + 1;
    }
    proof {
        assert(r@ =~= v@);
    }
    r
}

/// An equal copy of an optional string vector.
pub fn clone_opt_string_vec(v: &Option<Vec<String>>) -> (r: Option<Vec<String>>)
    ensures
        r.deep_view() == v.deep_view(),
        r is Some <==> v is Some,
{
    match v {
        Some(s) => {
            let c = clone_string_vec(s);
            proof {
                assert(c.deep_view() =~= s.deep_view());
            }
            Some(c)
        },
        None => None,
    }
}

/// An equal copy of an id vector.
pub fn clone_i64_vec(v: &Vec<i64>) -> (r: Vec<i64>)
    ensures
        r@ == v@,
{
    let mut r: Vec<i64> = Vec::new();
    let mut i: usize = 0;
    while i < v.len()
        invariant
            i <= v.len(),
            r@ =~= v@.take(i as int),
        decreases v.len() - i,
    {
        r.push(v[i]);
        i = i + 1;
    }
    proof {
        assert(r@ =~= v@);
    }
    r
}

impl Task {
    /// An equal copy of the task.
    pub fn duplicate(&self) -> (r: Task)
        ensures
            r == *self,
    {
        Task {
            id: self.id,
            title: self.title.clone(),
            info: clone_opt_string(&self.info),
            deadline: self.deadline,
            status: self.status,
            updated_at: self.updated_at,
            created_at: self.created_at,
        }
    }
}

impl ActionEnum {
    /// A copy of the payload with the same content.
    pub fn duplicate(&self) -> (r: ActionEnum)
        ensures
            r@ == self@,
    {
        match self {
            ActionEnum::Task {
                action_type,
                id,
                title,
                info,
                deadline,
                categories,
                status,
                updated_at,
                created_at,
            } => ActionEnum::Task {
                action_type: *action_type,
                id: *id,
                title: title.clone(),
                info: clone_opt_string(info),
                deadline: *deadline,
                categories: clone_opt_string_vec(categories),
                status: *status,
                updated_at: *updated_at,
                created_at: *created_at,
            },
            ActionEnum::Category { action_type, category, task_id } => ActionEnum::Category {
                action_type: *action_type,
                category: category.clone(),
                task_id: *task_id,
            },
            ActionEnum::RenameTaskCategory {
                old_category,
                new_category,
                task_id,
            } => ActionEnum::RenameTaskCategory {
                old_category: old_category.clone(),
                new_category: new_category.clone(),
                task_id: *task_id,
            },
            ActionEnum::BatchCategoryDelete { task_ids, category } => {
                ActionEnum::BatchCategoryDelete {
                    task_ids: clone_i64_vec(task_ids),
                    category: category.clone(),
                }
            },
            ActionEnum::BatchCategoryRename { old_category, new_category } => {
                ActionEnum::BatchCategoryRename {
                    old_category: old_category.clone(),
                    new_category: new_category.clone(),
                }
            },
        }
    }
}

impl Action {
    /// A copy of the record with the same content.
    pub fn duplicate(&self) -> (r: Action)
        ensures
            r@ == self@,
    {
        Action {
            id: self.id,
            action: self.action.duplicate(),
            restored: self.restored,
            created_at: self.created_at,
        }
    }
}

} // verus!
