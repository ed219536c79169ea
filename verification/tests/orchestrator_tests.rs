use task_ledger::date::{date_parser, Date};
use task_ledger::models::{
    ActionEnum, ActionTypeEnum, AddTask, OrderByEnum, QueryTaskPayload, TaskStatusEnum,
    UpdateTask,
};
use task_ledger::repositories::{
    add_category_to_task, add_task, batch_delete_category, batch_rename_category, delete_task,
    edit_task, query_tasks, redo, remove_task_category, rename_task_category, undo,
    undo_redo_operation,
};
use task_ledger::store::Store;
use task_ledger::Error;

fn d(s: &str) -> Date {
    date_parser(s).unwrap()
}

#[test]
fn test_crud_task() {
    let mut store = Store::new();
    let now = d("2024-06-01");

    // test create
    let task = {
        let task = AddTask {
            title: "Demo Task".into(),
            info: Some("Some info".into()),
            deadline: Some(d("2024-01-01")),
            categories: Some(vec!["one".into(), "two".into()]),
            status: TaskStatusEnum::Undone,
            created_at: now,
        };
        add_task(&mut store, task, now).unwrap();

        let task = store.get_task(1).unwrap();
        assert_eq!("Demo Task", &task.title);
        assert_eq!(&TaskStatusEnum::Undone, &task.status);

        let categories = store.fetch_task_categories(1);
        assert!(categories.contains(&"one".to_string()));
        assert!(categories.contains(&"two".to_string()));

        task
    };

    // test undo/redo create
    {
        let action = store.get_last_unrestored_action().unwrap();
        match &action.action {
            ActionEnum::Task { action_type, title, .. } => {
                assert_eq!(&ActionTypeEnum::Create, action_type);
                assert_eq!("Demo Task", title);
            },
            _ => panic!("Should not reach this point"),
        };
        assert_eq!(false, action.restored);

        undo_redo_operation(&mut store, action).unwrap();

        assert!(store.get_task(1).is_none());

        let action = store.get_first_restored_action().unwrap();
        match &action.action {
            ActionEnum::Task { action_type, title, .. } => {
                assert_eq!(&ActionTypeEnum::Delete, action_type);
                assert_eq!("Demo Task", title);
            },
            _ => panic!("Should not reach this point"),
        };
        assert_eq!(true, action.restored);

        undo_redo_operation(&mut store, action).unwrap();
        let action = store.get_last_unrestored_action().unwrap();
        match &action.action {
            ActionEnum::Task { action_type, title, .. } => {
                assert_eq!(&ActionTypeEnum::Create, action_type);
                assert_eq!("Demo Task", title);
            },
            _ => panic!("Should not reach this point"),
        };
        assert_eq!(false, action.restored);
    }

    // test edit
    {
        edit_task(
            &mut store,
            1,
            task,
            UpdateTask {
                title: Some("New Title".into()),
                info: None,
                deadline: None,
                status: None,
                created_at: None,
            },
            now,
        )
        .unwrap();

        let task = store.get_task(1).unwrap();
        assert_eq!("New Title", &task.title);
        assert_eq!(&TaskStatusEnum::Undone, &task.status);
    };

    // test undo / redo edit
    let task = {
        let action = store.get_last_unrestored_action().unwrap();
        match &action.action {
            ActionEnum::Task { action_type, title, .. } => {
                assert_eq!(&ActionTypeEnum::Update, action_type);
                assert_eq!("Demo Task", title);
            },
            _ => panic!("Should not reach this point"),
        };
        assert_eq!(false, action.restored);

        undo_redo_operation(&mut store, action).unwrap();
        let task = store.get_task(1).unwrap();
        assert_eq!("Demo Task", &task.title);
        assert_eq!(&TaskStatusEnum::Undone, &task.status);

        let action = store.get_last_unrestored_action().unwrap();
        match &action.action {
            ActionEnum::Task { action_type, title, .. } => {
                assert_eq!(&ActionTypeEnum::Create, action_type);
                assert_eq!("Demo Task", title);
            },
            _ => panic!("Should not reach this point"),
        };
        assert_eq!(false, action.restored);

        let action = store.get_first_restored_action().unwrap();
        match &action.action {
            ActionEnum::Task { action_type, title, .. } => {
                assert_eq!(&ActionTypeEnum::Update, action_type);
                assert_eq!("New Title", title);
            },
            _ => panic!("Should not reach this point"),
        };
        assert_eq!(true, action.restored);

        undo_redo_operation(&mut store, action).unwrap();

        let task = store.get_task(1).unwrap();
        assert_eq!("New Title", &task.title);
        assert_eq!(&TaskStatusEnum::Undone, &task.status);

        let action = store.get_last_unrestored_action().unwrap();
        match &action.action {
            ActionEnum::Task { action_type, title, .. } => {
                assert_eq!(&ActionTypeEnum::Update, action_type);
                assert_eq!("Demo Task", title);
            },
            _ => panic!("Should not reach this point"),
        };
        assert_eq!(false, action.restored);
        task
    };

    // test delete
    {
        delete_task(&mut store, &task, now).unwrap();
        assert!(store.get_task(1).is_none());
    }

    // undo / redo delete
    {
        let action = store.get_last_unrestored_action().unwrap();
        match &action.action {
            ActionEnum::Task { action_type, title, .. } => {
                assert_eq!(&ActionTypeEnum::Delete, action_type);
                assert_eq!("New Title", title);
            },
            _ => panic!("Should not reach this point"),
        };
        assert_eq!(false, action.restored);

        undo_redo_operation(&mut store, action).unwrap();

        let task = store.get_task(1).unwrap();
        assert_eq!("New Title", &task.title);
        assert_eq!(&TaskStatusEnum::Undone, &task.status);

        let action = store.get_first_restored_action().unwrap();
        match &action.action {
            ActionEnum::Task { action_type, title, .. } => {
                assert_eq!(&ActionTypeEnum::Create, action_type);
                assert_eq!("New Title", title);
            },
            _ => panic!("Should not reach this point"),
        };
        assert_eq!(true, action.restored);

        undo_redo_operation(&mut store, action).unwrap();

        let action = store.get_last_unrestored_action().unwrap();
        match &action.action {
            ActionEnum::Task { action_type, title, .. } => {
                assert_eq!(&ActionTypeEnum::Delete, action_type);
                assert_eq!("New Title", title);
            },
            _ => panic!("Should not reach this point"),
        };
        assert_eq!(false, action.restored);
    }
}

#[test]
fn test_category_operations() {
    let mut store = Store::new();
    let now = d("2024-06-01");

    let task_one = add_task(
        &mut store,
        AddTask {
            title: "Task One".into(),
            info: Some("Some info".into()),
            deadline: Some(d("2024-01-01")),
            categories: Some(vec!["one".into(), "two".into()]),
            status: TaskStatusEnum::Undone,
            created_at: now,
        },
        now,
    )
    .unwrap();

    let task_two = add_task(
        &mut store,
        AddTask {
            title: "Task Two".into(),
            info: Some("Some info".into()),
            deadline: Some(d("2024-01-01")),
            categories: Some(vec!["two".into(), "three".into()]),
            status: TaskStatusEnum::Undone,
            created_at: now,
        },
        now,
    )
    .unwrap();

    // test add category to task
    {
        let categories = store.fetch_task_categories(task_two.id);
        assert_eq!(2, categories.len());
        assert!(!categories.contains(&"test".to_string()));
        add_category_to_task(&mut store, task_two.id, "test", now).unwrap();
        let categories = store.fetch_task_categories(task_two.id);
        assert_eq!(3, categories.len());
        assert!(categories.contains(&"test".to_string()));
    }

    // undo redo operation
    {
        let action = store.get_last_unrestored_action().unwrap();
        match &action.action {
            ActionEnum::Category { action_type, category, .. } => {
                assert_eq!(&ActionTypeEnum::Create, action_type);
                assert_eq!("test", category);
            },
            _ => panic!("Should not reach this point"),
        };
        assert_eq!(false, action.restored);

        undo_redo_operation(&mut store, action).unwrap();

        let categories = store.fetch_task_categories(task_two.id);
        assert_eq!(2, categories.len());
        assert!(!categories.contains(&"test".to_string()));

        let action = store.get_first_restored_action().unwrap();
        match &action.action {
            ActionEnum::Category { action_type, category, .. } => {
                assert_eq!(&ActionTypeEnum::Delete, action_type);
                assert_eq!("test", category);
            },
            _ => panic!("Should not reach this point"),
        };
        assert_eq!(true, action.restored);

        undo_redo_operation(&mut store, action).unwrap();

        let categories = store.fetch_task_categories(task_two.id);
        assert_eq!(3, categories.len());
        assert!(categories.contains(&"test".to_string()));

        let action = store.get_last_unrestored_action().unwrap();
        match &action.action {
            ActionEnum::Category { action_type, category, .. } => {
                assert_eq!(&ActionTypeEnum::Create, action_type);
                assert_eq!("test", category);
            },
            _ => panic!("Should not reach this point"),
        };
        assert_eq!(false, action.restored);
    }

    // test rename task
    {
        rename_task_category(&mut store, task_two.id, "test", "tost", now).unwrap();
        let categories = store.fetch_task_categories(task_two.id);
        assert_eq!(3, categories.len());
        assert!(!categories.contains(&"test".to_string()));
        assert!(categories.contains(&"tost".to_string()));
    }

    // undo redo operation
    {
        let action = store.get_last_unrestored_action().unwrap();
        match &action.action {
            ActionEnum::RenameTaskCategory { old_category, new_category, .. } => {
                assert_eq!("test", old_category);
                assert_eq!("tost", new_category);
            },
            _ => panic!("Should not reach this point"),
        };
        assert_eq!(false, action.restored);

        undo_redo_operation(&mut store, action).unwrap();

        let categories = store.fetch_task_categories(task_two.id);
        assert_eq!(3, categories.len());
        assert!(categories.contains(&"test".to_string()));
        assert!(!categories.contains(&"tost".to_string()));

        let action = store.get_first_restored_action().unwrap();
        match &action.action {
            ActionEnum::RenameTaskCategory { old_category, new_category, .. } => {
                assert_eq!("tost", old_category);
                assert_eq!("test", new_category);
            },
            _ => panic!("Should not reach this point"),
        };
        assert_eq!(true, action.restored);

        undo_redo_operation(&mut store, action).unwrap();

        let categories = store.fetch_task_categories(task_two.id);
        assert_eq!(3, categories.len());
        assert!(!categories.contains(&"test".to_string()));
        assert!(categories.contains(&"tost".to_string()));

        let action = store.get_last_unrestored_action().unwrap();
        match &action.action {
            ActionEnum::RenameTaskCategory { old_category, new_category, .. } => {
                assert_eq!("test", old_category);
                assert_eq!("tost", new_category);
            },
            _ => panic!("Should not reach this point"),
        };
        assert_eq!(false, action.restored);
    }

    // test remove task
    {
        remove_task_category(&mut store, task_two.id, "tost", now).unwrap();
        let categories = store.fetch_task_categories(task_two.id);
        assert_eq!(2, categories.len());
        assert!(!categories.contains(&"test".to_string()));
        assert!(!categories.contains(&"tost".to_string()));
        assert!(categories.contains(&"two".to_string()));
        assert!(categories.contains(&"three".to_string()));
    }

    // test batch rename category
    {
        batch_rename_category(&mut store, "two", "too", now).unwrap();

        let categories = store.fetch_task_categories(task_one.id);
        assert_eq!(2, categories.len());
        assert!(categories.contains(&"too".to_string()));
        assert!(categories.contains(&"one".to_string()));

        let categories = store.fetch_task_categories(task_two.id);
        assert_eq!(2, categories.len());
        assert!(categories.contains(&"too".to_string()));
        assert!(categories.contains(&"three".to_string()));
    }

    // undo redo operation
    {
        let action = store.get_last_unrestored_action().unwrap();
        match &action.action {
            ActionEnum::BatchCategoryRename { old_category, new_category } => {
                assert_eq!("two", old_category);
                assert_eq!("too", new_category);
            },
            _ => panic!("Should not reach this point"),
        };
        assert_eq!(false, action.restored);

        undo_redo_operation(&mut store, action).unwrap();

        let categories = store.fetch_task_categories(task_two.id);
        assert_eq!(2, categories.len());
        assert!(categories.contains(&"two".to_string()));
        assert!(!categories.contains(&"too".to_string()));

        let action = store.get_first_restored_action().unwrap();
        match &action.action {
            ActionEnum::BatchCategoryRename { old_category, new_category } => {
                assert_eq!("too", old_category);
                assert_eq!("two", new_category);
            },
            _ => panic!("Should not reach this point"),
        };
        assert_eq!(true, action.restored);

        undo_redo_operation(&mut store, action).unwrap();

        let categories = store.fetch_task_categories(task_two.id);
        assert_eq!(2, categories.len());
        assert!(!categories.contains(&"two".to_string()));
        assert!(categories.contains(&"too".to_string()));

        let action = store.get_last_unrestored_action().unwrap();
        match &action.action {
            ActionEnum::BatchCategoryRename { old_category, new_category } => {
                assert_eq!("two", old_category);
                assert_eq!("too", new_category);
            },
            _ => panic!("Should not reach this point"),
        };
        assert_eq!(false, action.restored);
    }

    // test batch delete category
    {
        batch_delete_category(&mut store, "too", now).unwrap();

        let categories = store.fetch_task_categories(task_one.id);
        assert_eq!(1, categories.len());
        assert!(categories.contains(&"one".to_string()));

        let categories = store.fetch_task_categories(task_two.id);
        assert_eq!(1, categories.len());
        assert!(categories.contains(&"three".to_string()));
    }

    // undo redo operation
    {
        let action = store.get_last_unrestored_action().unwrap();
        match &action.action {
            ActionEnum::BatchCategoryDelete { category, task_ids } => {
                assert_eq!("too", category);
                assert!(task_ids.contains(&1));
                assert!(task_ids.contains(&2));
            },
            _ => panic!("Should not reach this point"),
        };
        assert_eq!(false, action.restored);

        undo_redo_operation(&mut store, action).unwrap();

        let categories = store.fetch_task_categories(task_one.id);
        assert_eq!(2, categories.len());
        assert!(categories.contains(&"one".to_string()));
        assert!(categories.contains(&"too".to_string()));

        let categories = store.fetch_task_categories(task_two.id);
        assert_eq!(2, categories.len());
        assert!(categories.contains(&"three".to_string()));
        assert!(categories.contains(&"too".to_string()));

        let action = store.get_first_restored_action().unwrap();
        match &action.action {
            ActionEnum::BatchCategoryDelete { category, task_ids } => {
                assert_eq!("too", category);
                assert!(task_ids.contains(&1));
                assert!(task_ids.contains(&2));
            },
            _ => panic!("Should not reach this point"),
        };
        assert_eq!(true, action.restored);

        undo_redo_operation(&mut store, action).unwrap();

        let categories = store.fetch_task_categories(task_one.id);
        assert_eq!(1, categories.len());
        assert!(categories.contains(&"one".to_string()));

        let categories = store.fetch_task_categories(task_two.id);
        assert_eq!(1, categories.len());
        assert!(categories.contains(&"three".to_string()));

        let action = store.get_last_unrestored_action().unwrap();
        match &action.action {
            ActionEnum::BatchCategoryDelete { category, task_ids } => {
                assert_eq!("too", category);
                assert!(task_ids.contains(&1));
                assert!(task_ids.contains(&2));
            },
            _ => panic!("Should not reach this point"),
        };
        assert_eq!(false, action.restored);
    }
}

#[test]
fn test_create_with_categories_undo_redo_scenario() {
    let mut store = Store::new();
    let now = d("2024-06-01");

    add_task(
        &mut store,
        AddTask {
            title: "Demo".into(),
            info: None,
            deadline: None,
            categories: Some(vec!["one".into(), "two".into()]),
            status: TaskStatusEnum::Undone,
            created_at: now,
        },
        now,
    )
    .unwrap();

    let actions = store.fetch_actions(10);
    assert_eq!(1, actions.len());
    assert_eq!(false, actions[0].restored);
    assert!(matches!(
        actions[0].action,
        ActionEnum::Task { action_type: ActionTypeEnum::Create, .. }
    ));

    undo(&mut store).unwrap();
    assert!(store.get_task(1).is_none());
    assert_eq!(0, store.fetch_task_categories(1).len());
    let actions = store.fetch_actions(10);
    assert_eq!(1, actions.len());
    assert_eq!(true, actions[0].restored);
    assert!(matches!(
        actions[0].action,
        ActionEnum::Task { action_type: ActionTypeEnum::Delete, .. }
    ));

    redo(&mut store).unwrap();
    let task = store.get_task(1).unwrap();
    assert_eq!("Demo", &task.title);
    let categories = store.fetch_task_categories(1);
    assert!(categories.contains(&"one".to_string()));
    assert!(categories.contains(&"two".to_string()));
    let actions = store.fetch_actions(10);
    assert_eq!(1, actions.len());
    assert_eq!(false, actions[0].restored);
}

#[test]
fn test_batch_rename_undo_scenario() {
    let mut store = Store::new();
    let now = d("2024-06-01");

    for title in ["First", "Second"] {
        add_task(
            &mut store,
            AddTask {
                title: title.into(),
                info: None,
                deadline: None,
                categories: Some(vec!["two".into()]),
                status: TaskStatusEnum::Undone,
                created_at: now,
            },
            now,
        )
        .unwrap();
    }

    batch_rename_category(&mut store, "two", "too", now).unwrap();
    for id in [1, 2] {
        let categories = store.fetch_task_categories(id);
        assert!(categories.contains(&"too".to_string()));
        assert!(!categories.contains(&"two".to_string()));
    }

    undo(&mut store).unwrap();
    for id in [1, 2] {
        let categories = store.fetch_task_categories(id);
        assert!(categories.contains(&"two".to_string()));
        assert!(!categories.contains(&"too".to_string()));
    }
}

#[test]
fn test_undo_redo_empty_ledger_errors() {
    let mut store = Store::new();
    let now = d("2024-06-01");
    assert_eq!(Err(Error::NothingToUndo), undo(&mut store));
    assert_eq!(Err(Error::NothingToRedo), redo(&mut store));

    // a new operation after an undo discards the redo branch
    add_task(
        &mut store,
        AddTask {
            title: "A".into(),
            info: None,
            deadline: None,
            categories: None,
            status: TaskStatusEnum::Undone,
            created_at: now,
        },
        now,
    )
    .unwrap();
    undo(&mut store).unwrap();
    add_task(
        &mut store,
        AddTask {
            title: "B".into(),
            info: None,
            deadline: None,
            categories: None,
            status: TaskStatusEnum::Undone,
            created_at: now,
        },
        now,
    )
    .unwrap();
    assert_eq!(Err(Error::NothingToRedo), redo(&mut store));
    assert!(store.get_first_restored_action().is_err());
}

#[test]
fn test_update_without_fields_changes_nothing() {
    let mut store = Store::new();
    let now = d("2024-06-01");
    let later = d("2024-06-02");
    let task = add_task(
        &mut store,
        AddTask {
            title: "Fixed".into(),
            info: None,
            deadline: None,
            categories: None,
            status: TaskStatusEnum::Undone,
            created_at: now,
        },
        now,
    )
    .unwrap();

    let res = edit_task(
        &mut store,
        task.id,
        task.clone(),
        UpdateTask { title: None, info: None, deadline: None, status: None, created_at: None },
        later,
    );
    assert_eq!(Err(Error::NoChange), res);
    let after = store.get_task(task.id).unwrap();
    assert_eq!(now, after.updated_at);
    assert_eq!(task, after);
}

#[test]
fn test_duplicate_and_missing_errors() {
    let mut store = Store::new();
    let now = d("2024-06-01");
    add_task(
        &mut store,
        AddTask {
            title: "T".into(),
            info: None,
            deadline: None,
            categories: Some(vec!["one".into()]),
            status: TaskStatusEnum::Undone,
            created_at: now,
        },
        now,
    )
    .unwrap();

    assert_eq!(
        Err(Error::DuplicateCategory { task_id: 1, category: "one".into() }),
        add_category_to_task(&mut store, 1, "one", now)
    );
    assert_eq!(
        Err(Error::CategoryNotFound { task_id: 1, category: "none".into() }),
        remove_task_category(&mut store, 1, "none", now)
    );
    assert_eq!(
        Err(Error::CategoryNotFound { task_id: 1, category: "none".into() }),
        rename_task_category(&mut store, 1, "none", "newer", now)
    );
    let old_task = store.get_task(1).unwrap();
    assert_eq!(
        Err(Error::TaskNotFound { id: 9 }),
        edit_task(
            &mut store,
            9,
            old_task,
            UpdateTask {
                title: Some("X".into()),
                info: None,
                deadline: None,
                status: None,
                created_at: None,
            },
            now,
        )
    );
}

#[test]
fn test_query_filters_and_sort() {
    let mut store = Store::new();
    let now = d("2024-06-01");
    let titles = ["banana", "apple", "cherry"];
    for (i, title) in titles.iter().enumerate() {
        add_task(
            &mut store,
            AddTask {
                title: (*title).into(),
                info: Some(format!("note {}", i)),
                deadline: None,
                categories: if i == 0 {
                    Some(vec!["fruit".into()])
                } else {
                    None
                },
                status: if i == 2 {
                    TaskStatusEnum::Done
                } else {
                    TaskStatusEnum::Undone
                },
                created_at: now,
            },
            now,
        )
        .unwrap();
    }

    let base = QueryTaskPayload {
        status: None,
        categories: None,
        text: None,
        limit: 10,
        sort_created_at: None,
        sort_updated_at: None,
        sort_deadline: None,
        sort_title: None,
    };

    // status filter
    let r = query_tasks(&store, QueryTaskPayload { status: Some(TaskStatusEnum::Done), ..base.clone() });
    assert_eq!(1, r.len());
    assert_eq!("cherry", &r[0].title);

    // category filter
    let r = query_tasks(
        &store,
        QueryTaskPayload { categories: Some(vec!["fruit".into()]), ..base.clone() },
    );
    assert_eq!(1, r.len());
    assert_eq!("banana", &r[0].title);

    // free-text filter over title and info
    let r = query_tasks(&store, QueryTaskPayload { text: Some("note 1".into()), ..base.clone() });
    assert_eq!(1, r.len());
    assert_eq!("apple", &r[0].title);

    // sort by title ascending
    let r = query_tasks(
        &store,
        QueryTaskPayload { sort_title: Some(OrderByEnum::Asc), ..base.clone() },
    );
    let got: Vec<String> = r.iter().map(|t| t.title.clone()).collect();
    assert_eq!(vec!["apple".to_string(), "banana".into(), "cherry".into()], got);

    // limit
    let r = query_tasks(
        &store,
        QueryTaskPayload { sort_title: Some(OrderByEnum::Desc), limit: 2, ..base },
    );
    let got: Vec<String> = r.iter().map(|t| t.title.clone()).collect();
    assert_eq!(vec!["cherry".to_string(), "banana".into()], got);
}

#[test]
fn test_housekeeping() {
    let mut store = Store::new();
    let now = d("2024-06-01");
    for (title, status) in [
        ("a", TaskStatusEnum::Done),
        ("b", TaskStatusEnum::Undone),
        ("c", TaskStatusEnum::Archived),
    ] {
        add_task(
            &mut store,
            AddTask {
                title: title.into(),
                info: None,
                deadline: None,
                categories: None,
                status,
                created_at: now,
            },
            now,
        )
        .unwrap();
    }
    assert_eq!(3, store.delete_all());
    assert_eq!(0, store.fetch_actions(10).len());
    assert_eq!(1, store.delete_archived());
    assert_eq!(1, store.archive_tasks());
    assert_eq!(
        TaskStatusEnum::Archived,
        store.get_task(1).unwrap().status
    );
}

#[test]
fn test_codec_free_roundtrip_of_records() {
    // the ledger holds payloads whose round trip through undo and redo
    // leaves the record content unchanged
    let mut store = Store::new();
    let now = d("2024-06-01");
    add_task(
        &mut store,
        AddTask {
            title: "Keep".into(),
            info: Some("i".into()),
            deadline: Some(d("2024-07-01")),
            categories: Some(vec!["k".into()]),
            status: TaskStatusEnum::Undone,
            created_at: now,
        },
        now,
    )
    .unwrap();
    let before = store.fetch_actions(10);
    undo(&mut store).unwrap();
    redo(&mut store).unwrap();
    let after = store.fetch_actions(10);
    assert_eq!(before, after);
}
