use task_ledger::date::{date_parser, Date};
use task_ledger::models::{Action, ActionEnum, AddTask, Task, TaskStatusEnum, UpdateTask};
use task_ledger::store::Store;
use task_ledger::utils::{category_parser, info_parser, string_len_parser, title_parser};

fn d(s: &str) -> Date {
    date_parser(s).unwrap()
}

fn make_task(store: &mut Store, title: &str, now: Date) -> Task {
    store.create_task(AddTask {
        title: String::from(title),
        info: None,
        deadline: None,
        categories: None,
        status: TaskStatusEnum::Undone,
        created_at: now,
    })
}

#[test]
fn test_crud_tasks() {
    let mut store = Store::new();
    let now = d("2024-06-01");

    // test create and fetch
    let fetched_task = store.get_task(1);
    assert_eq!(None, fetched_task);

    let task = store.create_task(AddTask {
        title: "Test Task".into(),
        info: None,
        deadline: None,
        categories: None,
        status: TaskStatusEnum::Undone,
        created_at: now,
    });
    assert_eq!(1, task.id);

    let fetched_task = store.get_task(1);
    assert_eq!(Some(task.clone()), fetched_task);
    assert_eq!("Test Task", &fetched_task.unwrap().title);

    // test update task
    let res = store.update_task(
        1,
        UpdateTask { title: None, info: None, deadline: None, status: None, created_at: None },
        now,
    );
    assert!(res.is_err());

    store
        .update_task(
            1,
            UpdateTask {
                title: Some("New Title".into()),
                info: Some(Some("Test".into())),
                deadline: Some(Some(now)),
                status: Some(TaskStatusEnum::Done),
                created_at: Some(now),
            },
            now,
        )
        .unwrap();

    let fetched_task = store.get_task(1).unwrap();
    assert_eq!("New Title", &fetched_task.title);

    // test delete task
    store.delete_task(&fetched_task);
    let fetched_task = store.get_task(1);
    assert_eq!(None, fetched_task);

    // test create with fixed id
    let task = store
        .create_task_with_id(
            1,
            AddTask {
                title: "Test Task".into(),
                info: None,
                deadline: None,
                categories: None,
                status: TaskStatusEnum::Undone,
                created_at: now,
            },
            now,
        )
        .unwrap();
    assert_eq!(1, task.id);

    let fetched_task = store.get_task(1);
    assert_eq!(Some(task), fetched_task);
}

#[test]
fn test_create_update() {
    let mut store = Store::new();
    let now = d("2024-06-01");

    let action = ActionEnum::BatchCategoryRename {
        old_category: "test".into(),
        new_category: "tost".into(),
    };

    // test create
    let id = store.create_action(action.clone(), now);
    let actions = store.fetch_actions(1);
    assert_eq!(vec![Action { id, created_at: now, action, restored: false }], actions);

    // test update
    let action = ActionEnum::BatchCategoryRename {
        old_category: "1".into(),
        new_category: "2".into(),
    };
    store.update_action(id, action.clone(), true);
    let actions = store.fetch_actions(1);
    assert_eq!(vec![Action { id, created_at: now, action, restored: true }], actions);
}

#[test]
fn test_get_last_first_unrestored_restored_action() {
    let mut store = Store::new();
    let now = d("2024-06-01");

    let old_texts = vec!["one", "two", "three", "four"];
    let new_texts = vec!["1", "2", "3", "4"];

    for id in 0..4 {
        let action = ActionEnum::BatchCategoryRename {
            old_category: old_texts.get(id).unwrap().to_string(),
            new_category: new_texts.get(id).unwrap().to_string(),
        };
        store.create_action(action, now);
    }

    for id in 2..4 {
        let action = ActionEnum::BatchCategoryRename {
            old_category: old_texts.get(id).unwrap().to_string(),
            new_category: new_texts.get(id).unwrap().to_string(),
        };
        store.update_action((id + 1) as i64, action, true);
    }

    // test get last unrestored
    let last = store.get_last_unrestored_action().unwrap();
    assert_eq!(
        Action {
            id: 2,
            created_at: now,
            action: ActionEnum::BatchCategoryRename {
                old_category: old_texts.get(1).unwrap().to_string(),
                new_category: new_texts.get(1).unwrap().to_string(),
            },
            restored: false,
        },
        last
    );

    // test get first restored
    let first = store.get_first_restored_action().unwrap();
    assert_eq!(
        Action {
            id: 3,
            created_at: now,
            action: ActionEnum::BatchCategoryRename {
                old_category: old_texts.get(2).unwrap().to_string(),
                new_category: new_texts.get(2).unwrap().to_string(),
            },
            restored: true,
        },
        first
    );
}

#[test]
fn test_singular_crud_category() {
    let mut store = Store::new();
    let now = d("2024-06-01");

    // prepare
    let task = store.create_task(AddTask {
        title: String::from("Demo"),
        info: None,
        deadline: None,
        categories: None,
        status: TaskStatusEnum::Undone,
        created_at: now,
    });
    let categories = store.fetch_task_categories(task.id);
    assert_eq!(0, categories.len());

    // test create
    store.create_category(task.id, "test_category").unwrap();
    let data = store.fetch_category(task.id, "test_category");
    assert_eq!(Some("test_category".to_string()), data);

    // test rename
    let data = store.fetch_category(task.id, "dummy");
    assert_eq!(None, data);
    store.rename_category(task.id, "test_category", "dummy").unwrap();
    let data = store.fetch_category(task.id, "dummy");
    assert_eq!(Some("dummy".to_string()), data);
    let data = store.fetch_category(task.id, "test_category");
    assert_eq!(None, data);

    // test rename not found
    assert!(store.rename_category(task.id, "404", "impossible").is_err());

    // test delete not found
    assert!(store.delete_category(task.id, "404").is_err());

    // test delete
    store.delete_category(task.id, "dummy").unwrap();
    let data = store.fetch_category(task.id, "dummy");
    assert_eq!(None, data);
    let data = store.fetch_category(task.id, "test_category");
    assert_eq!(None, data);
}

#[test]
fn test_batch_crud_category() {
    let mut store = Store::new();
    let now = d("2024-06-01");

    let task_one = make_task(&mut store, "Task One", now);
    let task_two = make_task(&mut store, "Task Two", now);
    let task_three = make_task(&mut store, "Task Three", now);

    assert_eq!(0, store.fetch_task_categories(task_one.id).len());
    assert_eq!(0, store.fetch_task_categories(task_two.id).len());
    assert_eq!(0, store.fetch_task_categories(task_three.id).len());

    let mut task_one_categories: Vec<String> = vec!["one".into(), "two".into(), "three".into()];
    task_one_categories.sort();

    let mut task_two_categories: Vec<String> = vec!["three".into(), "four".into(), "five".into()];
    task_two_categories.sort();

    // test create
    store.batch_create_task_categories(task_one.id, &task_one_categories).unwrap();
    let mut categories = store.fetch_task_categories(task_one.id);
    categories.sort();
    assert_eq!(task_one_categories, categories);
    let categories = store.fetch_task_categories(task_two.id);
    assert_eq!(0, categories.len());

    store.batch_create_task_categories(task_two.id, &task_two_categories).unwrap();
    let categories = store.fetch_task_categories(task_one.id);
    assert_eq!(task_one_categories, categories);
    let categories = store.fetch_task_categories(task_two.id);
    assert_eq!(task_two_categories, categories);
    let categories = store.fetch_task_categories(task_three.id);
    assert_eq!(0, categories.len());

    // test get all
    let mut all_categories = store.all_categories();
    all_categories.sort();
    let mut expected: Vec<(String, i64)> = vec![
        ("one".into(), 1),
        ("two".into(), 1),
        ("three".into(), 2),
        ("four".into(), 1),
        ("five".into(), 1),
    ];
    expected.sort();
    assert_eq!(expected, all_categories);

    // test create
    store.batch_create_category(&vec![1, 2, 3], "test").unwrap();
    let mut all_categories = store.all_categories();
    all_categories.sort();
    let mut expected: Vec<(String, i64)> = vec![
        ("one".into(), 1),
        ("two".into(), 1),
        ("three".into(), 2),
        ("four".into(), 1),
        ("five".into(), 1),
        ("test".into(), 3),
    ];
    expected.sort();
    assert_eq!(expected, all_categories);

    let categories = store.fetch_task_categories(task_three.id);
    assert_eq!(vec!["test"], categories);

    // test get ids
    let mut ids = store.get_category_task_ids("test");
    ids.sort();
    assert_eq!(vec![1, 2, 3], ids);

    // test rename
    store.batch_rename_category("test", "tost").unwrap();
    let mut all_categories = store.all_categories();
    all_categories.sort();
    let mut expected: Vec<(String, i64)> = vec![
        ("one".into(), 1),
        ("two".into(), 1),
        ("three".into(), 2),
        ("four".into(), 1),
        ("five".into(), 1),
        ("tost".into(), 3),
    ];
    expected.sort();
    assert_eq!(expected, all_categories);
    let categories = store.fetch_task_categories(task_three.id);
    assert_eq!(vec!["tost"], categories);

    let mut ids = store.get_category_task_ids("tost");
    ids.sort();
    assert_eq!(vec![1, 2, 3], ids);
    let ids = store.get_category_task_ids("test");
    assert_eq!(0, ids.len());

    // test delete
    store.batch_delete_category("tost");
    let mut all_categories = store.all_categories();
    all_categories.sort();
    let mut expected: Vec<(String, i64)> = vec![
        ("one".into(), 1),
        ("two".into(), 1),
        ("three".into(), 2),
        ("four".into(), 1),
        ("five".into(), 1),
    ];
    expected.sort();
    assert_eq!(expected, all_categories);

    let categories = store.fetch_task_categories(task_three.id);
    assert_eq!(0, categories.len());

    let ids = store.get_category_task_ids("tost");
    assert_eq!(0, ids.len());
    let ids = store.get_category_task_ids("test");
    assert_eq!(0, ids.len());
}

#[test]
fn test_date_parser_rules() {
    assert_eq!(date_parser("2024-01-01"), Some(Date { year: 2024, month: 1, day: 1 }));
    assert_eq!(date_parser("2024-02-29"), Some(Date { year: 2024, month: 2, day: 29 }));
    assert_eq!(date_parser("2023-02-29"), None);
    assert_eq!(date_parser("2024-02-31"), None);
    assert_eq!(date_parser("2024-13-01"), None);
    assert_eq!(date_parser("2024-00-01"), None);
    assert_eq!(date_parser("24-01-01"), None);
    assert_eq!(date_parser("2024/01/01"), None);
    assert_eq!(date_parser(""), None);
    assert!(Date { year: 2024, month: 1, day: 2 }.le(&Date { year: 2024, month: 1, day: 3 }));
    assert!(!Date { year: 2025, month: 1, day: 2 }.le(&Date { year: 2024, month: 12, day: 3 }));
}

#[test]
fn test_field_parsers() {
    assert_eq!(title_parser("A task"), Some("A task".to_string()));
    assert_eq!(title_parser(""), None);
    assert_eq!(title_parser(&"x".repeat(1000)), Some("x".repeat(1000)));
    assert_eq!(title_parser(&"x".repeat(1001)), None);
    assert_eq!(category_parser("one"), Some("one".to_string()));
    assert_eq!(category_parser(""), None);
    assert_eq!(category_parser(&"c".repeat(201)), None);
    assert_eq!(info_parser(""), Some(String::new()));
    assert_eq!(info_parser(&"i".repeat(10001)), None);
    assert_eq!(string_len_parser(2, 3, "ab"), Some("ab".to_string()));
    assert_eq!(string_len_parser(2, 3, "a"), None);
    assert_eq!(string_len_parser(2, 3, "abcd"), None);
}
