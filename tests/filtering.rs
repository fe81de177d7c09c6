use todo_log::filter::{LogFilter, TodoFilter};
use todo_log::models::{LogEntry, Todo};
use todo_log::stamp::Timestamp;

fn strings(v: &[&str]) -> Vec<String> {
    v.iter().map(|s| s.to_string()).collect()
}

fn todo(completed: bool, projects: &[&str], people: &[&str]) -> Todo {
    Todo {
        text: "t".to_string(),
        completed,
        line_number: 0,
        projects: strings(projects),
        people: strings(people),
        log_path: "p".to_string(),
    }
}

#[test]
fn empty_todo_filter_hides_only_completed() {
    let f = TodoFilter::new();
    assert!(f.matches(&todo(false, &[], &[])));
    assert!(!f.matches(&todo(true, &["a"], &[])));
    let f = TodoFilter { show_completed: true, ..TodoFilter::new() };
    assert!(f.matches(&todo(true, &[], &[])));
}

#[test]
fn project_dimension_is_any_of() {
    let f = TodoFilter { show_completed: true, projects: strings(&["a", "b"]), people: vec![] };
    assert!(f.matches(&todo(false, &["b"], &[])));
    assert!(f.matches(&todo(false, &["x", "a"], &[])));
    assert!(!f.matches(&todo(false, &["x"], &[])));
    assert!(!f.matches(&todo(false, &[], &["a"])));
}

#[test]
fn dimensions_are_combined_with_and() {
    let f = TodoFilter { show_completed: false, projects: strings(&["a", "b"]), people: strings(&["ann"]) };
    assert!(f.matches(&todo(false, &["a"], &["ann", "bob"])));
    assert!(!f.matches(&todo(false, &["a"], &["bob"])));
    assert!(!f.matches(&todo(true, &["a"], &["ann"])));
    assert!(!f.matches(&todo(false, &["c"], &["ann"])));
}

#[test]
fn toggling_filter_names_adds_and_removes() {
    let mut f = TodoFilter::new();
    f.toggle_project("a");
    f.toggle_project("b");
    assert_eq!(f.projects, strings(&["a", "b"]));
    f.toggle_project("a");
    assert_eq!(f.projects, strings(&["b"]));
    f.toggle_person("ann");
    assert_eq!(f.people, strings(&["ann"]));
    let mut g = LogFilter::new();
    g.toggle_person("x");
    g.toggle_person("x");
    assert!(g.people.is_empty());
    g.toggle_project("p");
    assert_eq!(g.projects, strings(&["p"]));
}

fn entry_on(day: i64, text: &str) -> LogEntry {
    LogEntry::parse(text, "d/log.txt", Timestamp { secs: day * 86400 + 3600, offset: 0 })
}

#[test]
fn log_filter_bounds_are_inclusive() {
    let f = LogFilter { start_date: Some(10), end_date: Some(12), ..LogFilter::new() };
    assert!(!f.matches(&entry_on(9, "x")));
    assert!(f.matches(&entry_on(10, "x")));
    assert!(f.matches(&entry_on(12, "x")));
    assert!(!f.matches(&entry_on(13, "x")));
    let open_end = LogFilter { start_date: Some(10), ..LogFilter::new() };
    assert!(open_end.matches(&entry_on(5000, "x")));
}

#[test]
fn log_filter_uses_the_local_day() {
    let f = LogFilter { start_date: Some(1), end_date: Some(1), ..LogFilter::new() };
    let late = LogEntry::parse("x", "d/log.txt", Timestamp { secs: 86400 - 60, offset: 3600 });
    assert!(f.matches(&late));
}

#[test]
fn log_filter_combines_tags_and_dates() {
    let f = LogFilter {
        projects: strings(&["a", "b"]),
        people: vec![],
        start_date: Some(3),
        end_date: None,
    };
    assert!(f.matches(&entry_on(3, "#b note")));
    assert!(!f.matches(&entry_on(2, "#b note")));
    assert!(!f.matches(&entry_on(3, "#c note @a")));
}

#[test]
fn typed_dates_set_the_bounds() {
    let mut f = LogFilter::new();
    f.set_start_date_from_input("1970-01-11");
    assert_eq!(f.start_date, Some(10));
    f.set_start_date_from_input("not a date");
    assert_eq!(f.start_date, Some(10));
    f.set_end_date_from_input("2024-01-02");
    assert_eq!(f.end_date, Some(19724));
    f.set_start_date_from_input("");
    assert_eq!(f.start_date, None);
    assert_eq!(f.end_date, Some(19724));
}
