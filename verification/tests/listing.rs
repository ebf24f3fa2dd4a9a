use cli_rust_como::cli::{list_tasks, resolve_page_command, PageCommands};
use cli_rust_como::models::Task;

fn task(id: u32, completed: bool) -> Task {
    Task { id, title: format!("task {}", id), completed }
}

fn sample() -> Vec<Task> {
    vec![task(3, false), task(1, true), task(2, false)]
}

fn ids(tasks: &[Task]) -> Vec<u32> {
    tasks.iter().map(|t| t.id).collect()
}

#[test]
fn list_by_id() {
    assert_eq!(ids(&list_tasks(sample(), true, false, false)), vec![1, 2, 3]);
}

#[test]
fn list_by_default_puts_open_tasks_first() {
    let shown = list_tasks(sample(), false, false, false);
    assert_eq!(ids(&shown), vec![2, 3, 1]);
    assert_eq!(shown[2].title, "task 1");
    assert!(shown[2].completed);
}

#[test]
fn list_by_status_is_the_default_order() {
    assert_eq!(ids(&list_tasks(sample(), false, true, false)), vec![2, 3, 1]);
}

#[test]
fn list_by_id_wins_over_by_status() {
    assert_eq!(ids(&list_tasks(sample(), true, true, false)), vec![1, 2, 3]);
}

#[test]
fn list_unchecked_only() {
    assert_eq!(ids(&list_tasks(sample(), false, false, true)), vec![2, 3]);
    assert_eq!(ids(&list_tasks(sample(), true, false, true)), vec![2, 3]);
    assert_eq!(ids(&list_tasks(sample(), false, true, true)), vec![2, 3]);
}

#[test]
fn list_of_nothing_is_empty() {
    assert!(list_tasks(Vec::new(), false, false, false).is_empty());
    assert!(list_tasks(vec![task(1, true)], false, false, true).is_empty());
}

#[test]
fn list_keeps_the_order_of_equal_keys() {
    let tasks = vec![
        Task { id: 2, title: "first".to_string(), completed: false },
        Task { id: 1, title: "x".to_string(), completed: true },
        Task { id: 2, title: "second".to_string(), completed: false },
        Task { id: 2, title: "third".to_string(), completed: true },
    ];
    let by_id = list_tasks(tasks.clone(), true, false, false);
    let titles: Vec<&str> = by_id.iter().map(|t| t.title.as_str()).collect();
    assert_eq!(titles, vec!["x", "first", "second", "third"]);
    let by_status = list_tasks(tasks, false, false, false);
    let titles: Vec<&str> = by_status.iter().map(|t| t.title.as_str()).collect();
    assert_eq!(titles, vec!["first", "second", "x", "third"]);
}

#[test]
fn list_sorts_many_tasks() {
    let mut tasks = Vec::new();
    for i in 0..50u32 {
        let id = (i * 37) % 50 + 1;
        tasks.push(task(id, id % 3 == 0));
    }
    let by_id = list_tasks(tasks.clone(), true, false, false);
    assert_eq!(ids(&by_id), (1..=50).collect::<Vec<u32>>());
    let by_status = list_tasks(tasks.clone(), false, false, false);
    let mut want: Vec<u32> = (1..=50).filter(|id| id % 3 != 0).collect();
    want.extend((1..=50).filter(|id| id % 3 == 0));
    assert_eq!(ids(&by_status), want);
    let open = list_tasks(tasks, true, false, true);
    assert_eq!(ids(&open), (1..=50).filter(|id| id % 3 != 0).collect::<Vec<u32>>());
}

#[test]
fn page_request_without_anything_lists() {
    assert_eq!(resolve_page_command(None, None), PageCommands::List);
}

#[test]
fn page_request_with_a_name_switches() {
    assert_eq!(
        resolve_page_command(Some("work".to_string()), None),
        PageCommands::Switch { name: "work".to_string() }
    );
}

#[test]
fn page_request_with_an_action_takes_the_action() {
    assert_eq!(resolve_page_command(None, Some(PageCommands::List)), PageCommands::List);
    assert_eq!(
        resolve_page_command(None, Some(PageCommands::Create { name: "a".to_string() })),
        PageCommands::Create { name: "a".to_string() }
    );
    assert_eq!(
        resolve_page_command(None, Some(PageCommands::Delete { name: "a".to_string() })),
        PageCommands::Delete { name: "a".to_string() }
    );
    assert_eq!(
        resolve_page_command(None, Some(PageCommands::Switch { name: "a".to_string() })),
        PageCommands::Switch { name: "a".to_string() }
    );
}

#[test]
fn page_request_passes_over_a_name_beside_an_action() {
    assert_eq!(
        resolve_page_command(
            Some("ignored".to_string()),
            Some(PageCommands::Delete { name: "a".to_string() })
        ),
        PageCommands::Delete { name: "a".to_string() }
    );
    assert_eq!(
        resolve_page_command(Some("ignored".to_string()), Some(PageCommands::List)),
        PageCommands::List
    );
}
