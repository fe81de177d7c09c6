use todo_log::models::LogEntry;
use todo_log::stamp::Timestamp;

fn epoch() -> Timestamp {
    Timestamp { secs: 0, offset: 0 }
}

#[test]
fn repeated_tags_are_kept_once_in_first_seen_order() {
    let e = LogEntry::parse("#a #b #a", "notes/log.txt", epoch());
    assert_eq!(e.projects, vec!["a".to_string(), "b".to_string()]);
    assert_eq!(e.projects.len(), 2);
}

#[test]
fn tag_punctuation_is_trimmed() {
    let e = LogEntry::parse("#foo,", "notes/log.txt", epoch());
    assert_eq!(e.projects, vec!["foo".to_string()]);
}

#[test]
fn lone_marker_is_no_tag() {
    let e = LogEntry::parse("#", "notes/log.txt", epoch());
    assert!(e.projects.is_empty());
    let e = LogEntry::parse("@ #,,", "notes/log.txt", epoch());
    assert!(e.people.is_empty());
    assert!(e.projects.is_empty());
}

#[test]
fn people_are_extracted_apart_from_projects() {
    let e = LogEntry::parse("met @bob, about #web\twith @alice and @bob", "p/log.txt", epoch());
    assert_eq!(e.people, vec!["bob".to_string(), "alice".to_string()]);
    assert_eq!(e.projects, vec!["web".to_string()]);
}

#[test]
fn tags_are_case_sensitive_and_keep_dashes() {
    let e = LogEntry::parse("#Web #web #new-site_2)", "p/log.txt", epoch());
    assert_eq!(
        e.projects,
        vec!["Web".to_string(), "web".to_string(), "new-site_2".to_string()]
    );
}

#[test]
fn unicode_letters_stay_in_tags() {
    let e = LogEntry::parse("#café! @Zoë…", "p/log.txt", epoch());
    assert_eq!(e.projects, vec!["café".to_string()]);
    assert_eq!(e.people, vec!["Zoë".to_string()]);
}

#[test]
fn todo_lines_are_extracted() {
    let e = LogEntry::parse("[] buy milk\n[x] call bob\n", "d/log.txt", epoch());
    assert_eq!(e.todos.len(), 2);
    assert_eq!(e.todos[0].text, "buy milk");
    assert!(!e.todos[0].completed);
    assert_eq!(e.todos[0].line_number, 0);
    assert_eq!(e.todos[1].text, "call bob");
    assert!(e.todos[1].completed);
    assert_eq!(e.todos[1].line_number, 1);
    assert_eq!(e.todos[1].log_path, "d/log.txt");
}

#[test]
fn todos_carry_all_tags_of_their_entry() {
    let e = LogEntry::parse("  [X]  ship it  \nnotes for #web @ann\n[]", "d/log.txt", epoch());
    assert_eq!(e.todos.len(), 2);
    assert_eq!(e.todos[0].text, "ship it");
    assert!(e.todos[0].completed);
    assert_eq!(e.todos[1].text, "");
    assert_eq!(e.todos[1].line_number, 2);
    for t in &e.todos {
        assert_eq!(t.projects, vec!["web".to_string()]);
        assert_eq!(t.people, vec!["ann".to_string()]);
    }
}

#[test]
fn other_lines_are_no_todos() {
    let e = LogEntry::parse("x [] no\n[ ] no\n[y] no\n", "d/log.txt", epoch());
    assert!(e.todos.is_empty());
}

#[test]
fn parsing_twice_gives_the_same_entry() {
    let text = "#a [] one\n@b\n[x] two #c #a\n";
    let a = LogEntry::parse(text, "base/log-2024/x/log.txt", epoch());
    let b = LogEntry::parse(text, "base/log-2024/x/log.txt", epoch());
    assert_eq!(a.projects, b.projects);
    assert_eq!(a.people, b.people);
    assert_eq!(a.todos.len(), b.todos.len());
    for (x, y) in a.todos.iter().zip(b.todos.iter()) {
        assert_eq!(x.text, y.text);
        assert_eq!(x.completed, y.completed);
        assert_eq!(x.line_number, y.line_number);
        assert_eq!(x.projects, y.projects);
        assert_eq!(x.people, y.people);
    }
}

#[test]
fn directory_name_gives_the_time() {
    let e = LogEntry::parse("hi", "base/log-2024/2024-01-02_03-04-05/log.txt", epoch());
    assert_eq!(e.timestamp.secs, 1704164645);
    assert!(e.timestamp.offset > -86400 && e.timestamp.offset < 86400);
}

#[test]
fn other_directory_names_keep_the_fallback_time() {
    let fallback = Timestamp { secs: 77, offset: 3600 };
    let e = LogEntry::parse("hi", "base/log-2024/not-a-date/log.txt", fallback);
    assert_eq!(e.timestamp, fallback);
    let e = LogEntry::parse("hi", "log.txt", fallback);
    assert_eq!(e.timestamp, fallback);
}

#[test]
fn empty_entry_has_nothing() {
    let e = LogEntry::new(epoch());
    assert_eq!(e.timestamp, epoch());
    assert!(e.content.is_empty());
    assert!(e.projects.is_empty() && e.people.is_empty() && e.todos.is_empty());
}

#[test]
fn local_day_counts_from_the_epoch() {
    assert_eq!(Timestamp { secs: 0, offset: 0 }.local_day(), 0);
    assert_eq!(Timestamp { secs: 86399, offset: 0 }.local_day(), 0);
    assert_eq!(Timestamp { secs: 86400, offset: 0 }.local_day(), 1);
    assert_eq!(Timestamp { secs: 0, offset: -1 }.local_day(), -1);
    assert_eq!(Timestamp { secs: -86400, offset: 0 }.local_day(), -1);
    assert_eq!(Timestamp { secs: -86401, offset: 0 }.local_day(), -2);
    assert_eq!(Timestamp { secs: 1704164645, offset: 7200 }.local_day(), 19724);
}

#[test]
fn local_offset_is_within_a_day() {
    let t = Timestamp::at(1704164645);
    assert_eq!(t.secs, 1704164645);
    assert!(t.offset > -86400 && t.offset < 86400);
}
