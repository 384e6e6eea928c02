use teamwork::config::TeamWorkConfig;
use teamwork::date::WorkDate;
use teamwork::interactive::flatten_tasks;
use teamwork::interactive::InteractiveService;
use teamwork::service::Task;
use teamwork::service::TeamWorkService;
use teamwork::service::TimeEntry;

fn bare_config() -> TeamWorkConfig {
    TeamWorkConfig {
        company_id: "a-company".to_string(),
        token: "a-token".to_string(),
        project_aliases: vec![],
        times_off: vec![],
        starred_tasks: vec![],
    }
}

fn entry_for_task(item_id: &str, item_name: &str) -> TimeEntry {
    TimeEntry {
        id: "1".to_string(),
        description: "worked".to_string(),
        date: WorkDate { year: 2020, month: 1, day: 20 },
        hours: 8,
        project_id: "10".to_string(),
        project_name: "a project".to_string(),
        todo_list_id: "20".to_string(),
        todo_list_name: "a list".to_string(),
        todo_item_id: item_id.to_string(),
        todo_item_name: item_name.to_string(),
    }
}

#[test]
fn service_takes_the_credentials() {
    let service = TeamWorkService::new(&bare_config());
    assert_eq!(service.client.company_id, "a-company");
    assert_eq!(service.client.token, "a-token");
}

#[test]
fn interactive_session_wraps_the_service() {
    let session = InteractiveService::new(&bare_config());
    assert_eq!(session.service.client.company_id, "a-company");
    assert_eq!(session.service.client.token, "a-token");
}

#[test]
fn urls_carry_the_company_subdomain() {
    let service = TeamWorkService::new(&bare_config());
    assert_eq!(service.base_url("me.json"), "https://a-company.eu.teamwork.com/me.json");
    assert_eq!(
        service.base_url("projects.json"),
        "https://a-company.eu.teamwork.com/projects.json"
    );
}

#[test]
fn entry_reports_its_hours() {
    let e = entry_for_task("30", "a task");
    assert_eq!(e.hours(), 8);
}

#[test]
fn entry_rebuilds_its_task() {
    let t = entry_for_task("4212", "write the report").task();
    assert_eq!(t.id, 4212);
    assert_eq!(t.name, "write the report");
    assert!(t.sub_tasks.is_empty());
}

#[test]
fn last_used_tasks_keeps_first_occurrences_in_order() {
    let entries = vec![
        entry_for_task("3", "three"),
        entry_for_task("1", "one"),
        entry_for_task("3", "three"),
        entry_for_task("2", "two"),
        entry_for_task("1", "one"),
    ];
    let service = TeamWorkService::new(&bare_config());
    let tasks = service.last_used_tasks(&entries);
    let ids: Vec<usize> = tasks.iter().map(|t| t.id).collect();
    let names: Vec<String> = tasks.iter().map(|t| t.name.clone()).collect();
    assert_eq!(ids, vec![3, 1, 2]);
    assert_eq!(names, vec!["three".to_string(), "one".to_string(), "two".to_string()]);
}

#[test]
fn same_id_under_another_name_is_another_task() {
    let entries = vec![entry_for_task("1", "one"), entry_for_task("1", "renamed")];
    let service = TeamWorkService::new(&bare_config());
    let tasks = service.last_used_tasks(&entries);
    assert_eq!(tasks.len(), 2);
}

#[test]
fn flattening_lists_each_task_then_its_sub_tasks() {
    let tasks = vec![
        Task {
            id: 1,
            name: "parent".to_string(),
            sub_tasks: vec![
                Task { id: 11, name: "first child".to_string(), sub_tasks: vec![] },
                Task { id: 12, name: "second child".to_string(), sub_tasks: vec![] },
            ],
        },
        Task { id: 2, name: "alone".to_string(), sub_tasks: vec![] },
    ];
    let items = flatten_tasks(tasks);
    assert_eq!(items.len(), 4);
    assert_eq!(items[0].task.id, 1);
    assert!(!items[0].is_sub);
    assert_eq!(items[0].task.sub_tasks.len(), 2);
    assert_eq!(items[1].task.id, 11);
    assert!(items[1].is_sub);
    assert_eq!(items[2].task.id, 12);
    assert!(items[2].is_sub);
    assert_eq!(items[3].task.id, 2);
    assert!(!items[3].is_sub);
    assert_eq!(items[3].task.name, "alone");
}

#[test]
fn duplicate_copies_the_whole_tree() {
    let t = Task {
        id: 1,
        name: "parent".to_string(),
        sub_tasks: vec![Task {
            id: 11,
            name: "child".to_string(),
            sub_tasks: vec![Task { id: 111, name: "grandchild".to_string(), sub_tasks: vec![] }],
        }],
    };
    let copy = t.duplicate();
    assert_eq!(copy.id, 1);
    assert_eq!(copy.name, "parent");
    assert_eq!(copy.sub_tasks[0].id, 11);
    assert_eq!(copy.sub_tasks[0].sub_tasks[0].id, 111);
    assert_eq!(copy.sub_tasks[0].sub_tasks[0].name, "grandchild");
}

#[test]
fn recognizes_numeric_task_identifiers() {
    assert!(teamwork::service::is_valid_task_number(&"30".to_string()));
    assert!(teamwork::service::is_valid_task_number(&"007".to_string()));
    assert!(!teamwork::service::is_valid_task_number(&"".to_string()));
    assert!(!teamwork::service::is_valid_task_number(&"30a".to_string()));
    assert!(!teamwork::service::is_valid_task_number(&"-3".to_string()));
    assert!(!teamwork::service::is_valid_task_number(
        &"99999999999999999999999999".to_string()
    ));
    assert!(teamwork::service::is_valid_task_number(&"18446744073709551615".to_string()));
}
