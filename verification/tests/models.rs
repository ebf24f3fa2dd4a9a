use cli_rust_como::models::{PageData, Task};

fn ids(page: &PageData) -> Vec<u32> {
    page.tasks.iter().map(|task| task.id).collect()
}

#[test]
fn new_task_is_not_completed() {
    let task = Task::new(7, "write".to_string());
    assert_eq!(task.id, 7);
    assert_eq!(task.title, "write");
    assert!(!task.completed);
}

#[test]
fn new_page_is_empty() {
    let page = PageData::new();
    assert_eq!(page.last_id, 0);
    assert!(page.tasks.is_empty());
    let other = PageData::default();
    assert_eq!(other.last_id, 0);
    assert!(other.tasks.is_empty());
}

#[test]
fn generate_next_id_counts_up() {
    let mut page = PageData::new();
    assert_eq!(page.generate_next_id(), 1);
    assert_eq!(page.generate_next_id(), 2);
    assert_eq!(page.last_id, 2);
    assert!(page.tasks.is_empty());
}

#[test]
fn adding_tasks_numbers_them_from_one() {
    let mut page = PageData::new();
    let n: u32 = 25;
    for i in 1..=n {
        let id = page.add_task(format!("task {}", i));
        assert_eq!(id, i);
    }
    assert_eq!(page.last_id, n);
    assert_eq!(ids(&page), (1..=n).collect::<Vec<u32>>());
    for (i, task) in page.tasks.iter().enumerate() {
        assert_eq!(task.title, format!("task {}", i + 1));
        assert!(!task.completed);
    }
}

#[test]
fn deleted_id_is_not_used_again() {
    let mut page = PageData::new();
    page.add_task("a".to_string());
    page.add_task("b".to_string());
    page.add_task("c".to_string());
    assert!(page.remove_task(3));
    let id = page.add_task("d".to_string());
    assert_eq!(id, 4);
    assert_eq!(ids(&page), vec![1, 2, 4]);
    assert!(page.remove_task(1));
    assert!(page.remove_task(2));
    assert!(page.remove_task(4));
    assert!(page.tasks.is_empty());
    assert_eq!(page.add_task("e".to_string()), 5);
    assert_eq!(page.last_id, 5);
}

#[test]
fn remove_keeps_the_order_of_the_rest() {
    let mut page = PageData::new();
    for title in ["a", "b", "c", "d"] {
        page.add_task(title.to_string());
    }
    assert!(page.remove_task(2));
    assert_eq!(ids(&page), vec![1, 3, 4]);
    assert_eq!(page.tasks[1].title, "c");
    assert_eq!(page.last_id, 4);
}

#[test]
fn remove_of_a_missing_id_changes_nothing() {
    let mut page = PageData::new();
    page.add_task("a".to_string());
    assert!(!page.remove_task(9));
    assert_eq!(ids(&page), vec![1]);
    assert_eq!(page.last_id, 1);
    let mut empty = PageData::new();
    assert!(!empty.remove_task(1));
    assert_eq!(empty.last_id, 0);
}

#[test]
fn remove_takes_the_first_of_equal_ids() {
    let mut page = PageData {
        last_id: 5,
        tasks: vec![
            Task::new(5, "first".to_string()),
            Task::new(2, "middle".to_string()),
            Task::new(5, "second".to_string()),
        ],
    };
    assert!(page.remove_task(5));
    assert_eq!(ids(&page), vec![2, 5]);
    assert_eq!(page.tasks[1].title, "second");
}

#[test]
fn find_gives_the_first_task_of_the_id() {
    let mut page = PageData::new();
    page.add_task("a".to_string());
    page.add_task("b".to_string());
    let found = page.find_task_by_id(2).expect("task 2 is on the page");
    assert_eq!(found.id, 2);
    assert_eq!(found.title, "b");
    assert!(page.find_task_by_id(3).is_none());
    assert!(page.find_task_by_id(0).is_none());

    let twice = PageData {
        last_id: 1,
        tasks: vec![Task::new(1, "first".to_string()), Task::new(1, "second".to_string())],
    };
    assert_eq!(twice.find_task_by_id(1).unwrap().title, "first");
}

#[test]
fn find_mut_changes_the_task_in_place() {
    let mut page = PageData::new();
    page.add_task("a".to_string());
    page.add_task("b".to_string());
    {
        let task = page.find_task_by_id_mut(1).expect("task 1 is on the page");
        task.title = "changed".to_string();
        task.completed = true;
    }
    assert_eq!(page.tasks[0].title, "changed");
    assert!(page.tasks[0].completed);
    assert_eq!(page.tasks[1].title, "b");
    assert!(!page.tasks[1].completed);
    assert_eq!(page.last_id, 2);
    assert!(page.find_task_by_id_mut(3).is_none());
}
