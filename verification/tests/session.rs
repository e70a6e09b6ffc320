use word_suggest::session::{App, InputMode, Key};

fn cv(s: &str) -> Vec<char> {
    s.chars().collect()
}

fn dict(words: &[&str]) -> Vec<Vec<char>> {
    words.iter().map(|w| cv(w)).collect()
}

#[test]
fn new_session_is_idle_and_empty() {
    let app = App::new();
    assert!(matches!(app.input_mode, InputMode::Normal));
    assert!(app.input1.is_empty());
    assert!(app.input2.is_empty());
    assert_eq!(app.character_index, 0);
    assert_eq!(app.letters, vec![0i32; 26]);
    assert!(app.suggestions.is_empty());
}

#[test]
fn insert_then_delete_left_restores_state() {
    let mut app = App::new();
    app.input_mode = InputMode::Editing1;
    app.input1 = cv("word");
    app.character_index = 2;
    app.enter_char('x');
    assert_eq!(app.input1, cv("woxrd"));
    assert_eq!(app.character_index, 3);
    app.remove_char(true);
    assert_eq!(app.input1, cv("word"));
    assert_eq!(app.character_index, 2);
}

#[test]
fn delete_left_on_empty_buffer_is_noop() {
    let mut app = App::new();
    app.input_mode = InputMode::Editing1;
    app.remove_char(true);
    assert!(app.input1.is_empty());
    assert_eq!(app.character_index, 0);
}

#[test]
fn delete_right_at_end_is_noop() {
    let mut app = App::new();
    app.input_mode = InputMode::Editing2;
    app.input2 = cv("ab");
    app.character_index = 2;
    app.remove_char(false);
    assert_eq!(app.input2, cv("ab"));
    assert_eq!(app.character_index, 2);
}

#[test]
fn cursor_stays_in_bounds_under_edits() {
    let mut app = App::new();
    app.input_mode = InputMode::Editing1;
    app.enter_char('a');
    app.enter_char('b');
    app.move_cursor_right();
    app.move_cursor_right();
    assert_eq!(app.character_index, 2);
    app.move_cursor_left();
    app.move_cursor_left();
    app.move_cursor_left();
    assert_eq!(app.character_index, 0);
    app.remove_char(false);
    assert!(app.character_index <= app.input1.len());
}

#[test]
fn clamp_cursor_bounds() {
    let mut app = App::new();
    app.input_mode = InputMode::Editing1;
    app.input1 = cv("abc");
    assert_eq!(app.clamp_cursor(1), 1);
    assert_eq!(app.clamp_cursor(7), 3);
    app.input_mode = InputMode::Normal;
    assert_eq!(app.clamp_cursor(7), 0);
}

#[test]
fn byte_index_counts_utf8_widths() {
    let mut app = App::new();
    app.input_mode = InputMode::Editing1;
    app.input1 = cv("a\u{e9}\u{4e2d}x");
    app.character_index = 3;
    assert_eq!(app.byte_index(), 6);
    app.character_index = 0;
    assert_eq!(app.byte_index(), 0);
    app.character_index = 9;
    assert_eq!(app.byte_index(), 7);
}

#[test]
fn quit_only_from_idle() {
    let mut app = App::new();
    assert!(app.handle_key(Key::Char('q'), true));
    assert!(matches!(app.input_mode, InputMode::Normal));
    assert!(!app.handle_key(Key::Char('e'), true));
    assert!(matches!(app.input_mode, InputMode::Editing1));
    assert!(!app.handle_key(Key::Char('q'), true));
    assert_eq!(app.input1, cv("q"));
}

#[test]
fn mode_transitions() {
    let mut app = App::new();
    app.handle_key(Key::Char('e'), true);
    assert!(matches!(app.input_mode, InputMode::Editing1));
    app.handle_key(Key::Tab, true);
    assert!(matches!(app.input_mode, InputMode::Editing2));
    app.handle_key(Key::Tab, true);
    assert!(matches!(app.input_mode, InputMode::Editing1));
    app.handle_key(Key::Esc, true);
    assert!(matches!(app.input_mode, InputMode::Normal));
}

#[test]
fn edits_ignored_without_active_buffer() {
    let mut app = App::new();
    app.handle_key(Key::Char('x'), true);
    assert!(app.input1.is_empty());
    assert!(app.input2.is_empty());
}

#[test]
fn releases_ignored_while_editing() {
    let mut app = App::new();
    app.handle_key(Key::Char('e'), true);
    app.handle_key(Key::Char('x'), false);
    assert!(app.input1.is_empty());
}

#[test]
fn tab_reclamps_cursor_to_new_buffer() {
    let mut app = App::new();
    app.input1 = cv("abcdef");
    app.input2 = cv("ab");
    app.input_mode = InputMode::Editing1;
    app.character_index = 5;
    app.handle_key(Key::Tab, true);
    assert!(matches!(app.input_mode, InputMode::Editing2));
    assert_eq!(app.character_index, 2);
}

#[test]
fn idle_account_is_second_buffer_minus_first() {
    let mut app = App::new();
    app.input1 = cv("ab");
    app.input2 = cv("abc");
    app.compute_letters();
    assert_eq!(app.letters[0], 0);
    assert_eq!(app.letters[1], 0);
    assert_eq!(app.letters[2], 1);
}

#[test]
fn anagram_scenario_listen_silent() {
    let mut app = App::new();
    app.input1 = cv("listen");
    app.input_mode = InputMode::Editing2;
    app.word_list = dict(&["silent", "cat"]);
    app.compute_letters();
    for (i, v) in app.letters.iter().enumerate() {
        let c = (b'a' + i as u8) as char;
        if "listen".contains(c) {
            assert_eq!(*v, -1);
        } else {
            assert_eq!(*v, 0);
        }
    }
    app.compute_suggestions();
    assert!(app.suggestions.is_empty());

    for c in "silent".chars() {
        app.handle_key(Key::Char(c), true);
    }
    assert_eq!(app.input2, cv("silent"));
    assert_eq!(app.letters, vec![0i32; 26]);
    assert_eq!(app.suggestions, dict(&["silent"]));
}
