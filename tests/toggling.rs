use todo_log::models::{LogEntry, Todo};
use todo_log::stamp::Timestamp;
use todo_log::toggle::{sync_todos, toggle_text_exec};

fn parse(text: &str) -> LogEntry {
    LogEntry::parse(text, "d/log.txt", Timestamp { secs: 0, offset: 0 })
}

#[test]
fn toggling_twice_restores_the_text() {
    let text = "intro\n  [] buy milk\n[x] call bob\n";
    let entry = parse(text);
    for t in entry.todos {
        let mut t: Todo = t;
        let once = t.toggled_text(text);
        assert_ne!(once, text);
        t.toggle();
        let twice = t.toggled_text(&once);
        assert_eq!(twice, text);
    }
}

#[test]
fn toggling_rewrites_only_the_todo_line() {
    let text = "[] a [] b\n[] c";
    let entry = parse(text);
    let first = &entry.todos[0];
    assert_eq!(first.toggled_text(text), "[x] a [] b\n[] c");
    let second = &entry.todos[1];
    assert_eq!(second.toggled_text(text), "[] a [] b\n[x] c");
}

#[test]
fn completed_upper_case_marker_opens() {
    let text = "  [X] done\r\nnext";
    let entry = parse(text);
    assert_eq!(entry.todos[0].toggled_text(text), "  [] done\r\nnext");
}

#[test]
fn stale_records_change_nothing() {
    let text = "plain line\n";
    let t = Todo {
        text: "x".to_string(),
        completed: false,
        line_number: 0,
        projects: vec![],
        people: vec![],
        log_path: "d/log.txt".to_string(),
    };
    assert_eq!(t.toggled_text(text), text);
    let gone = Todo { line_number: 9, ..t };
    assert_eq!(gone.toggled_text(text), text);
    assert_eq!(toggle_text_exec("no marks", 0, true), "no marks");
}

#[test]
fn other_records_of_the_line_follow() {
    let entry = parse("[] a\n[] b\n");
    let mut all = entry.todos.clone();
    all.extend(entry.todos.clone());
    let mut changed = entry.todos[1].clone();
    changed.toggle();
    sync_todos(&mut all, &changed);
    let flags: Vec<bool> = all.iter().map(|t| t.completed).collect();
    assert_eq!(flags, vec![false, true, false, true]);
}
