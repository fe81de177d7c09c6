use todo_log::models::{default_status, LogEntry, Person, Project};
use todo_log::paths::{join_path, parent_dir_name};
use todo_log::screen::{Navigation, Screen};
use todo_log::stamp::Timestamp;
use todo_log::storage::{Storage, StorageError};

#[test]
fn example_project_and_person() {
    let p = Project::example();
    assert_eq!(p.name, "new-website");
    assert_eq!(p.jira.as_deref(), Some("https://jira.com/projects/WWW-123"));
    assert_eq!(p.status, "open");
    assert_eq!(p.group, "");
    let q = Person::example();
    assert_eq!(q.name, "john");
    assert_eq!(q.email.as_deref(), Some("john@example.com"));
    assert_eq!(default_status(), "open");
}

#[test]
fn storage_files_sit_in_the_base_directory() {
    let s = Storage::with_base_dir("/home/ann/todo-log".to_string());
    assert_eq!(s.projects_file(), "/home/ann/todo-log/projects.yml");
    assert_eq!(s.people_file(), "/home/ann/todo-log/people.yml");
    assert_eq!(s.config_file(), "/home/ann/todo-log/config.yml");
}

#[test]
fn storage_needs_a_home() {
    let s = Storage::from_home(Some("/home/ann/".to_string())).unwrap();
    assert_eq!(s.base_dir, "/home/ann/todo-log");
    assert_eq!(Storage::from_home(None).unwrap_err(), StorageError::NoHomeDirectory);
}

#[test]
fn all_todos_are_gathered_in_order() {
    let t0 = Timestamp { secs: 0, offset: 0 };
    let logs = vec![
        LogEntry::parse("[] a\n[x] b", "1/log.txt", t0),
        LogEntry::parse("no todos", "2/log.txt", t0),
        LogEntry::parse("[] c", "3/log.txt", t0),
    ];
    let todos = Storage::load_all_todos(logs);
    let texts: Vec<&str> = todos.iter().map(|t| t.text.as_str()).collect();
    assert_eq!(texts, vec!["a", "b", "c"]);
    assert_eq!(todos[2].log_path, "3/log.txt");
}

#[test]
fn paths_join_and_split() {
    assert_eq!(join_path("a", "b"), "a/b");
    assert_eq!(join_path("a/", "b"), "a/b");
    assert_eq!(join_path("", "b"), "b");
    assert_eq!(parent_dir_name("x/2024-01-01_00-00-00/log.txt").as_deref(), Some("2024-01-01_00-00-00"));
    assert_eq!(parent_dir_name("dir/log.txt").as_deref(), Some("dir"));
    assert_eq!(parent_dir_name("log.txt"), None);
    assert_eq!(parent_dir_name("/log.txt"), None);
    assert_eq!(parent_dir_name("a//log.txt").as_deref(), Some("a"));
    assert_eq!(parent_dir_name("x/d/log.txt/").as_deref(), Some("d"));
    assert_eq!(parent_dir_name("a/./log.txt").as_deref(), Some("a"));
    assert_eq!(parent_dir_name("./log.txt"), None);
    assert_eq!(parent_dir_name("a/../log.txt"), None);
    assert_eq!(parent_dir_name("a/b/.."), Some("b".to_string()));
}

#[test]
fn navigation_remembers_one_screen() {
    let mut n = Navigation::new();
    n.menu_selected = 2;
    n.go_to_screen(Screen::TodoList);
    assert_eq!(n.screen, Screen::TodoList);
    assert_eq!(n.menu_selected, 2);
    n.go_to_screen(Screen::ViewLog("d/log.txt".to_string()));
    n.go_back();
    assert_eq!(n.screen, Screen::TodoList);
    assert_eq!(n.previous_screen, None);
    n.go_back();
    assert_eq!(n.screen, Screen::Menu);
    assert_eq!(n.menu_selected, 0);
}
