use todo_log::filter::{logs_with_project, LogFilter, TodoFilter};
use todo_log::models::{optional_text, LogEntry, Project};
use todo_log::parser::{word_kind, WordKind};
use todo_log::projects::{all_group_names, project_view, shown_before, toggle_group};
use todo_log::screen::FileEntry;
use todo_log::stamp::Timestamp;
use todo_log::storage::{sort_newest_first, Storage};

fn at(secs: i64, text: &str, path: &str) -> LogEntry {
    LogEntry::parse(text, path, Timestamp { secs, offset: 0 })
}

fn project(name: &str, group: &str) -> Project {
    Project::from_fields(name.to_string(), String::new(), String::new(), "open".to_string(), group.to_string())
}

#[test]
fn todo_filter_gives_indices_in_order() {
    let e = at(0, "[] a\n[x] b\n[] c #p", "d/log.txt");
    let f = TodoFilter::new();
    assert_eq!(f.apply(&e.todos), vec![0, 2]);
    let all = TodoFilter { show_completed: true, ..TodoFilter::new() };
    assert_eq!(all.apply(&e.todos), vec![0, 1, 2]);
}

#[test]
fn log_filter_gives_indices_in_order() {
    let logs = vec![at(0, "#a", "1/log.txt"), at(0, "#b", "2/log.txt"), at(0, "#a #c", "3/log.txt")];
    let mut f = LogFilter::new();
    f.toggle_project("a");
    assert_eq!(f.apply(&logs), vec![0, 2]);
    assert_eq!(logs_with_project(&logs, &"c".to_string()), vec![2]);
    assert_eq!(logs_with_project(&logs, &"z".to_string()), Vec::<usize>::new());
}

#[test]
fn logs_are_ordered_newest_first() {
    let logs = vec![at(5, "one", "1/log.txt"), at(9, "two", "2/log.txt"), at(5, "three", "3/log.txt"), at(1, "four", "4/log.txt")];
    let sorted = sort_newest_first(logs);
    let order: Vec<&str> = sorted.iter().map(|e| e.content.as_str()).collect();
    assert_eq!(order, vec!["two", "one", "three", "four"]);
}

#[test]
fn notes_are_parsed_and_ordered() {
    let notes = vec![
        ("b/log-2023/2023-05-01_10-00-00/log.txt".to_string(), "older #x".to_string()),
        ("b/log-2024/2024-05-01_10-00-00/log.txt".to_string(), "newer [] t".to_string()),
    ];
    let logs = Storage::load_all_logs(&notes, Timestamp { secs: 0, offset: 0 });
    assert_eq!(logs.len(), 2);
    assert_eq!(logs[0].content, "newer [] t");
    assert_eq!(logs[1].projects, vec!["x".to_string()]);
    assert!(logs[0].timestamp.secs > logs[1].timestamp.secs);
}

#[test]
fn projects_are_shown_by_group_with_no_group_last() {
    let projects = vec![
        project("p0", ""),
        project("p1", "web"),
        project("p2", "Admin"),
        project("p3", "web"),
        project("p4", ""),
        project("p5", "api"),
    ];
    assert_eq!(project_view(&projects, &vec![]), vec![2, 5, 1, 3, 0, 4]);
    assert_eq!(project_view(&projects, &vec!["web".to_string(), String::new()]), vec![1, 3, 0, 4]);
    assert!(shown_before(&"b".to_string(), &String::new()));
    assert!(!shown_before(&String::new(), &"b".to_string()));
    assert!(shown_before(&"B".to_string(), &"a".to_string()));
}

#[test]
fn group_names_are_sorted_and_unique() {
    let projects = vec![project("a", "web"), project("b", ""), project("c", "api"), project("d", "web")];
    assert_eq!(
        all_group_names(&projects),
        vec!["api".to_string(), "web".to_string(), "(No group)".to_string()]
    );
    let named = vec![project("a", "z"), project("b", "y")];
    assert_eq!(all_group_names(&named), vec!["y".to_string(), "z".to_string()]);
}

#[test]
fn group_filter_toggles_with_no_group_as_empty() {
    let mut groups: Vec<String> = Vec::new();
    toggle_group(&mut groups, "(No group)");
    toggle_group(&mut groups, "web");
    assert_eq!(groups, vec![String::new(), "web".to_string()]);
    toggle_group(&mut groups, "(No group)");
    assert_eq!(groups, vec!["web".to_string()]);
}

#[test]
fn browser_lists_directories_first_by_lower_case_name() {
    let entry = |name: &str, is_dir: bool| FileEntry { name: name.to_string(), path: format!("/t/{}", name), is_dir, size: 1 };
    let listed = FileEntry::listing(vec![
        entry("b.txt", false),
        entry(".hidden", true),
        entry("Zeta", true),
        entry("A.txt", false),
        entry("alpha", true),
        entry(".profile", false),
    ]);
    let names: Vec<&str> = listed.iter().map(|e| e.name.as_str()).collect();
    assert_eq!(names, vec!["alpha", "Zeta", "A.txt", "b.txt"]);
}

#[test]
fn words_are_classified_for_highlighting() {
    assert_eq!(word_kind("#web"), WordKind::Project);
    assert_eq!(word_kind("@ann"), WordKind::Person);
    assert_eq!(word_kind("[]"), WordKind::OpenTodo);
    assert_eq!(word_kind("[X]"), WordKind::DoneTodo);
    assert_eq!(word_kind("[y]"), WordKind::Plain);
    assert_eq!(word_kind(""), WordKind::Plain);
}

#[test]
fn first_line_is_the_summary() {
    assert_eq!(at(0, "head\r\nbody", "x").first_line(), "head");
    assert_eq!(at(0, "", "x").first_line(), "");
    assert_eq!(at(0, "only", "x").first_line(), "only");
}

#[test]
fn empty_form_fields_are_no_values() {
    let p = Project::from_fields("n".to_string(), String::new(), "J-1".to_string(), "open".to_string(), String::new());
    assert_eq!(p.description, None);
    assert_eq!(p.jira.as_deref(), Some("J-1"));
    assert_eq!(optional_text(String::new()), None);
    assert_eq!(optional_text("x".to_string()).as_deref(), Some("x"));
}

#[test]
fn notes_of_the_same_instant_keep_their_order() {
    let notes = vec![
        ("b/x/log.txt".to_string(), "first".to_string()),
        ("b/log-2024/2024-05-01_10-00-00/log.txt".to_string(), "dated".to_string()),
        ("b/y/log.txt".to_string(), "second".to_string()),
    ];
    let logs = Storage::load_all_logs(&notes, Timestamp { secs: 5, offset: 0 });
    let order: Vec<&str> = logs.iter().map(|e| e.content.as_str()).collect();
    assert_eq!(order, vec!["dated", "first", "second"]);
}
