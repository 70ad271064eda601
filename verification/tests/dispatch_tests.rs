use todo_list::dispatch::{dispatch, Reply};
use todo_list::parse::{parse_input, str_eq};
use todo_list::store::Todo;

#[test]
fn scenario_new_then_list() {
    let mut todo = Todo::new();
    let r = dispatch(&mut todo, "new buy milk");
    assert_eq!(r, Reply::Created("buy milk".to_string()));
    assert_eq!(todo.len(), 1);
    assert_eq!(todo.get_status("buy milk"), Some(false));
    let r = dispatch(&mut todo, "list");
    assert_eq!(r, Reply::Listing(vec![("buy milk".to_string(), false)]));
}

#[test]
fn scenario_duplicate_new() {
    let mut todo = Todo::new();
    dispatch(&mut todo, "new buy milk");
    let r = dispatch(&mut todo, "new buy milk");
    assert_eq!(r, Reply::AlreadyExists("buy milk".to_string()));
    assert_eq!(todo.len(), 1);
}

#[test]
fn scenario_done_then_clear() {
    let mut todo = Todo::new();
    dispatch(&mut todo, "new a");
    dispatch(&mut todo, "new b");
    let r = dispatch(&mut todo, "done a");
    assert_eq!(r, Reply::Toggled("a".to_string(), true));
    let r = dispatch(&mut todo, "clear");
    assert_eq!(r, Reply::Cleared(1));
    assert_eq!(todo.list(), vec![("b".to_string(), false)]);
}

#[test]
fn scenario_remove_missing() {
    let mut todo = Todo::new();
    let r = dispatch(&mut todo, "remove nonexistent");
    assert_eq!(r, Reply::NotFound("nonexistent".to_string()));
    assert_eq!(todo.len(), 0);
}

#[test]
fn scenario_reset_then_list() {
    let mut todo = Todo::new();
    dispatch(&mut todo, "new a");
    dispatch(&mut todo, "new b");
    let r = dispatch(&mut todo, "reset");
    assert_eq!(r, Reply::ResetDone);
    assert_eq!(todo.len(), 0);
    let r = dispatch(&mut todo, "list");
    assert_eq!(r, Reply::Listing(vec![]));
}

#[test]
fn new_without_name_is_rejected() {
    let mut todo = Todo::new();
    assert_eq!(dispatch(&mut todo, "new"), Reply::MissingName);
    assert_eq!(dispatch(&mut todo, "new   "), Reply::MissingName);
    assert_eq!(todo.len(), 0);
}

#[test]
fn done_without_name_passes_through_as_not_found() {
    let mut todo = Todo::new();
    dispatch(&mut todo, "new a");
    assert_eq!(dispatch(&mut todo, "done"), Reply::NotFound("".to_string()));
    assert_eq!(todo.get_status("a"), Some(false));
}

#[test]
fn delete_is_a_synonym_of_remove() {
    let mut todo = Todo::new();
    dispatch(&mut todo, "new a");
    let r = dispatch(&mut todo, "delete a");
    assert_eq!(r, Reply::Deleted("a".to_string()));
    assert_eq!(todo.len(), 0);
}

#[test]
fn unknown_command_names_the_keyword() {
    let mut todo = Todo::new();
    let r = dispatch(&mut todo, "frobnicate the lawn");
    assert_eq!(r, Reply::Unknown("frobnicate".to_string()));
    assert_eq!(todo.len(), 0);
}

#[test]
fn empty_line_is_silent() {
    let mut todo = Todo::new();
    assert_eq!(dispatch(&mut todo, ""), Reply::Silent);
    assert_eq!(dispatch(&mut todo, "\n"), Reply::Silent);
    assert_eq!(dispatch(&mut todo, " list"), Reply::Silent);
}

#[test]
fn help_and_exit_touch_nothing() {
    let mut todo = Todo::new();
    dispatch(&mut todo, "new a");
    assert_eq!(dispatch(&mut todo, "help"), Reply::Help);
    assert_eq!(dispatch(&mut todo, "exit"), Reply::Exit);
    assert_eq!(todo.len(), 1);
}

#[test]
fn toggle_twice_restores_state() {
    let mut todo = Todo::new();
    dispatch(&mut todo, "new a");
    assert_eq!(
        dispatch(&mut todo, "done a"),
        Reply::Toggled("a".to_string(), true)
    );
    assert_eq!(
        dispatch(&mut todo, "done a"),
        Reply::Toggled("a".to_string(), false)
    );
    assert_eq!(todo.get_status("a"), Some(false));
}

#[test]
fn parse_splits_at_first_space() {
    let inp = parse_input("new buy milk");
    assert_eq!(inp.command, "new");
    assert_eq!(inp.arg, "buy milk");
}

#[test]
fn parse_strips_line_endings() {
    let inp = parse_input("done task\r\n");
    assert_eq!(inp.command, "done");
    assert_eq!(inp.arg, "task");
    let inp = parse_input("list\n");
    assert_eq!(inp.command, "list");
    assert_eq!(inp.arg, "");
}

#[test]
fn parse_without_space_has_empty_arg() {
    let inp = parse_input("list");
    assert_eq!(inp.command, "list");
    assert_eq!(inp.arg, "");
}

#[test]
fn parse_trims_both_parts() {
    let inp = parse_input("new   spaced out  ");
    assert_eq!(inp.command, "new");
    assert_eq!(inp.arg, "spaced out");
    let inp = parse_input(" list");
    assert_eq!(inp.command, "");
    assert_eq!(inp.arg, "list");
}

#[test]
fn str_eq_compares_contents() {
    assert!(str_eq("", ""));
    assert!(str_eq("abc", "abc"));
    assert!(!str_eq("abc", "abd"));
    assert!(!str_eq("abc", "ab"));
    assert!(str_eq("naïve ✓", "naïve ✓"));
}

#[test]
fn parse_trims_every_unicode_whitespace() {
    // Every character with the Unicode White_Space property is trimmed from
    // both parts, exactly as `str::trim` would leave them.
    for c in '\u{0}'..='\u{10FFFF}' {
        if c.is_whitespace() && c != ' ' {
            let line = format!("new{} {}task{}", c, c, c);
            let inp = parse_input(&line);
            assert_eq!(inp.command, "new", "command for U+{:04X}", c as u32);
            assert_eq!(inp.arg, "task", "arg for U+{:04X}", c as u32);
        }
    }
}

#[test]
fn parse_keeps_non_whitespace_lookalikes() {
    // Zero-width space, BOM and the Mongolian vowel separator are not
    // White_Space and must survive trimming, as under `str::trim`.
    for c in ['\u{200B}', '\u{FEFF}', '\u{180E}'] {
        assert!(!c.is_whitespace());
        let line = format!("new {}", c);
        let inp = parse_input(&line);
        assert_eq!(inp.command, "new");
        assert_eq!(inp.arg, c.to_string());
    }
}

#[test]
fn dispatch_trims_unicode_whitespace_around_names() {
    let mut todo = Todo::new();
    let r = dispatch(&mut todo, "new milk\u{00A0}");
    assert_eq!(r, Reply::Created("milk".to_string()));
    assert_eq!(todo.get_status("milk"), Some(false));
    let mut todo = Todo::new();
    let r = dispatch(&mut todo, "new\u{000B} x");
    assert_eq!(r, Reply::Created("x".to_string()));
    assert_eq!(todo.len(), 1);
}

#[test]
fn whitespace_only_name_is_missing() {
    let mut todo = Todo::new();
    assert_eq!(dispatch(&mut todo, "new \u{00A0}"), Reply::MissingName);
    assert_eq!(dispatch(&mut todo, "new \u{2003}\u{3000}"), Reply::MissingName);
    assert_eq!(todo.len(), 0);
}
