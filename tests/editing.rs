use todo_log::editor::{AutocompleteType, Editor};

fn editor(text: &str, cursor: usize) -> Editor {
    let mut e = Editor::new(
        vec!["project-x".to_string(), "Website".to_string(), "other".to_string()],
        vec!["bob".to_string(), "Bella".to_string()],
    );
    e.content = text.to_string();
    e.cursor = cursor;
    e
}

#[test]
fn moving_down_clamps_to_a_shorter_line() {
    let mut e = editor("abcdef\nxy", 6);
    e.move_cursor_down();
    assert_eq!(e.cursor, 9);
    assert_eq!(e.content, "abcdef\nxy");
}

#[test]
fn no_column_is_remembered_across_moves() {
    let mut e = editor("abcdef\nxy\nabcdef", 6);
    e.move_cursor_down();
    assert_eq!(e.cursor, 9);
    e.move_cursor_down();
    assert_eq!(e.cursor, 12);
    e.move_cursor_up();
    assert_eq!(e.cursor, 9);
    e.move_cursor_up();
    assert_eq!(e.cursor, 2);
}

#[test]
fn vertical_moves_stop_at_first_and_last_line() {
    let mut e = editor("abc\nde", 1);
    e.move_cursor_up();
    assert_eq!(e.cursor, 1);
    e.move_cursor_down();
    assert_eq!(e.cursor, 5);
    e.move_cursor_down();
    assert_eq!(e.cursor, 5);
}

#[test]
fn vertical_moves_count_characters_not_bytes() {
    let mut e = editor("éé\nxyz", 5);
    e.move_cursor_up();
    assert_eq!(e.cursor, 2);
    e.move_cursor_down();
    assert_eq!(e.cursor, 5);
}

#[test]
fn deleting_at_the_start_changes_nothing() {
    let mut e = editor("abc", 0);
    e.delete_char();
    assert_eq!(e.content, "abc");
    assert_eq!(e.cursor, 0);
    let mut e = editor("", 0);
    e.delete_char();
    assert_eq!(e.content, "");
    assert_eq!(e.cursor, 0);
}

#[test]
fn deleting_removes_the_character_before_the_cursor() {
    let mut e = editor("aéb", 2);
    e.delete_char();
    assert_eq!(e.content, "ab");
    assert_eq!(e.cursor, 1);
}

#[test]
fn inserting_splices_at_the_cursor() {
    let mut e = editor("ab", 1);
    e.insert_char('ö');
    assert_eq!(e.content, "aöb");
    assert_eq!(e.cursor, 2);
    e.insert_char('\n');
    assert_eq!(e.content, "aö\nb");
    assert_eq!(e.cursor, 3);
}

#[test]
fn left_and_right_stay_within_the_text() {
    let mut e = editor("añ", 0);
    e.move_cursor_left();
    assert_eq!(e.cursor, 0);
    e.move_cursor_right();
    e.move_cursor_right();
    e.move_cursor_right();
    assert_eq!(e.cursor, 2);
    e.set_start();
    assert_eq!(e.cursor, 0);
    e.set_end();
    assert_eq!(e.cursor, 2);
}

#[test]
fn typing_a_tag_offers_matching_names_ignoring_case() {
    let mut e = editor("hello ", 6);
    e.insert_char('#');
    assert!(!e.autocomplete_active);
    e.insert_char('W');
    assert!(e.autocomplete_active);
    assert_eq!(e.autocomplete_type, AutocompleteType::Project);
    assert_eq!(e.autocomplete_suggestions, vec!["Website".to_string()]);
    assert_eq!(e.autocomplete_index, 0);
}

#[test]
fn person_completion_uses_people_names() {
    let mut e = editor("hi @", 4);
    e.insert_char('b');
    assert_eq!(e.autocomplete_type, AutocompleteType::Person);
    assert_eq!(e.autocomplete_suggestions, vec!["bob".to_string(), "Bella".to_string()]);
    e.select_next();
    assert_eq!(e.autocomplete_index, 1);
    e.select_next();
    assert_eq!(e.autocomplete_index, 1);
    e.select_previous();
    assert_eq!(e.autocomplete_index, 0);
    e.insert_char(' ');
    assert!(!e.autocomplete_active);
    assert_eq!(e.autocomplete_type, AutocompleteType::Inactive);
    assert!(e.autocomplete_suggestions.is_empty());
}

#[test]
fn no_match_leaves_completion_inactive() {
    let mut e = editor("#zz", 2);
    e.insert_char('z');
    assert!(!e.autocomplete_active);
    assert!(e.autocomplete_suggestions.is_empty());
}

#[test]
fn accepting_replaces_the_typed_word() {
    let mut e = editor("hello #p", 8);
    e.insert_char('r');
    assert_eq!(e.content, "hello #pr");
    assert_eq!(e.autocomplete_suggestions, vec!["project-x".to_string()]);
    e.accept_autocomplete();
    assert_eq!(e.content, "hello #project-x ");
    assert_eq!(e.cursor, 17);
    assert!(!e.autocomplete_active);
    assert!(e.autocomplete_suggestions.is_empty());
}

#[test]
fn accepting_keeps_text_after_the_cursor() {
    let mut e = editor("a #PR b", 5);
    e.update_autocomplete();
    assert_eq!(e.autocomplete_suggestions, vec!["project-x".to_string()]);
    e.accept_autocomplete();
    assert_eq!(e.content, "a #project-x  b");
    assert_eq!(e.cursor, 13);
}

#[test]
fn accepting_without_completion_does_nothing() {
    let mut e = editor("plain", 5);
    e.update_autocomplete();
    e.accept_autocomplete();
    assert_eq!(e.content, "plain");
    assert_eq!(e.cursor, 5);
    let mut e = editor("#pr", 3);
    e.update_autocomplete();
    assert!(e.autocomplete_active);
    e.dismiss_autocomplete();
    e.accept_autocomplete();
    assert_eq!(e.content, "#pr");
}

#[test]
fn blank_text_is_not_saved() {
    assert!(editor("", 0).is_blank());
    assert!(editor(" \n\t ", 0).is_blank());
    assert!(!editor("  x ", 0).is_blank());
}
