use zilang::iris::view::{requests_of_file, Console, Entry, Key, Step};

fn line(c: &Console, i: usize) -> String {
    c.char_tab[i].clone()
}

#[test]
fn console_starts_with_a_prompt() {
    let c = Console::new();
    assert_eq!(c.char_tab.len(), 20);
    assert_eq!(line(&c, 0), ">");
    assert_eq!(line(&c, 1), " ");
    assert_eq!((c.cursor_pos.x, c.cursor_pos.y), (1, 0));
}

#[test]
fn typing_then_backspace_restores_the_line() {
    let mut c = Console::new();
    c.new_entry("a");
    assert_eq!(line(&c, 0), ">a");
    assert_eq!(c.cursor_pos.x, 2);
    c.delete_char();
    assert_eq!(line(&c, 0), ">");
    assert_eq!(c.cursor_pos.x, 1);
}

#[test]
fn backspace_keeps_the_prompt() {
    let mut c = Console::new();
    c.delete_char();
    assert_eq!(line(&c, 0), ">");
    assert_eq!(c.cursor_pos.x, 1);
}

#[test]
fn arrows_stay_within_the_line() {
    let mut c = Console::new();
    c.new_entry("ab");
    assert_eq!(line(&c, 0), ">ab");
    assert_eq!(c.cursor_pos.x, 2);
    c.right();
    assert_eq!(c.cursor_pos.x, 3);
    c.right();
    assert_eq!(c.cursor_pos.x, 3);
    c.left();
    c.left();
    c.left();
    assert_eq!(c.cursor_pos.x, 1);
}

#[test]
fn return_gives_the_request() {
    let mut c = Console::new();
    c.new_entry("S");
    match c.key_down(Key::Return) {
        Step::Enter(Entry::Request(t)) => assert_eq!(t, "S"),
        _ => panic!("a request was expected"),
    }
    assert_eq!(line(&c, 0), "S");
    c.replace_cursor();
    assert_eq!(c.cursor_pos.y, 1);
    assert_eq!(line(&c, 1), ">");
}

#[test]
fn clear_blanks_the_screen() {
    let mut c = Console::new();
    for ch in ["c", "l", "e", "a", "r"] {
        c.new_entry(ch);
    }
    match c.entry_key() {
        Entry::Cleared => {}
        _ => panic!("clear was expected"),
    }
    assert_eq!(line(&c, 0), ">");
    assert_eq!((c.cursor_pos.x, c.cursor_pos.y), (1, 0));
}

#[test]
fn import_with_two_paths_is_refused() {
    let mut c = Console::new();
    c.new_entry("\\i a b");
    match c.entry_key() {
        Entry::Done => {}
        _ => panic!("a message was expected"),
    }
    assert_eq!(line(&c, 1), "\\i take only a path to a .sql file in argument. Two arguments found here.");
    assert_eq!(c.cursor_pos.y, 2);
    assert_eq!(line(&c, 2), ">");
}

#[test]
fn import_with_one_path() {
    let mut c = Console::new();
    c.new_entry("\\i f.sql");
    match c.entry_key() {
        Entry::Import(p) => assert_eq!(p, "f.sql"),
        _ => panic!("an import was expected"),
    }
    assert!(c.import_checked("f.sql", true));
    assert!(!c.import_checked("f.csv", true));
    assert_eq!(line(&c, 1), "The file in arguments of \\i have to be a sql file.");
    assert!(!c.import_checked("g.sql", false));
    assert_eq!(line(&c, 2), "The path g.sql is not valid.");
}

#[test]
fn result_shown_under_the_cursor() {
    let mut c = Console::new();
    let keys = vec!["id".to_string(), "n".to_string()];
    let columns = vec![vec!["1".to_string(), "2".to_string()], vec!["a".to_string(), "b".to_string()]];
    c.show_result(&keys, &columns);
    assert_eq!(line(&c, 1), " | id || n |");
    assert_eq!(line(&c, 2), " |1||a|");
    assert_eq!(line(&c, 3), " |2||b|");
    assert_eq!(c.cursor_pos.y, 3);
}

#[test]
fn error_message_on_next_line() {
    let mut c = Console::new();
    c.error_message("oops");
    assert_eq!(line(&c, 1), "oops");
    assert_eq!(c.cursor_pos.y, 1);
}

#[test]
fn screen_scrolls_at_the_bottom() {
    let mut c = Console::new();
    for _ in 0..19 {
        c.replace_cursor();
    }
    assert_eq!(c.cursor_pos.y, 19);
    c.new_entry("x");
    c.replace_cursor();
    assert_eq!(c.cursor_pos.y, 19);
    assert_eq!(line(&c, 18), ">x");
    assert_eq!(line(&c, 19), ">");
}

#[test]
fn requests_of_a_file() {
    assert_eq!(requests_of_file("A;\nB;C"), vec!["A".to_string(), "B".to_string()]);
    assert_eq!(requests_of_file("no request"), Vec::<String>::new());
}

#[test]
fn cursor_blinks() {
    let mut c = Console::new();
    assert!(!c.cursor_visible());
    for _ in 0..11 {
        c.tick();
    }
    assert!(c.cursor_visible());
}
