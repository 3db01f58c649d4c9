use std::collections::VecDeque;

use personal_site::prompt::{
    candidate_label, dir_from_pathname, ghost_suggestion, history_back, history_forward, tab_index,
    tab_replace, Key, LabelStyle, Prompt,
};
use personal_site::terminal::{TabCompletionItem, Terminal};

fn history(cmds: &[&str]) -> VecDeque<String> {
    cmds.iter().map(|s| s.to_string()).collect()
}

fn strings(v: &[&str]) -> Vec<String> {
    v.iter().map(|s| s.to_string()).collect()
}

#[test]
fn tab_replace_replaces_last_word() {
    assert_eq!(tab_replace("cat fo", "foo.txt"), "cat foo.txt");
    assert_eq!(tab_replace("cd blog/ru", "rust_for_web/"), "cd blog/rust_for_web/");
    assert_eq!(tab_replace("mine", "mines.sh*"), "mines.sh");
    assert_eq!(tab_replace("", "x*"), "x");
    assert_eq!(tab_replace("ls ", "a**"), "ls a*");
}

#[test]
fn prompt_dir_is_last_segment_or_site() {
    assert_eq!(dir_from_pathname("/"), "hansbaker.com");
    assert_eq!(dir_from_pathname("/blog/rust_for_web"), "rust_for_web");
    assert_eq!(dir_from_pathname("/blog/"), "hansbaker.com");
    assert_eq!(dir_from_pathname("cv"), "cv");
}

#[test]
fn suggestion_comes_from_latest_longer_command() {
    let h = history(&["ls", "ls -la", "cat x"]);
    assert_eq!(ghost_suggestion(&h, "ls"), Some(" -la".to_string()));
    assert_eq!(ghost_suggestion(&h, ""), None);
    assert_eq!(ghost_suggestion(&h, "ls -la"), None);
    assert_eq!(ghost_suggestion(&h, "c"), Some("at x".to_string()));
    let h2 = history(&["ls -l", "ls -a"]);
    assert_eq!(ghost_suggestion(&h2, "ls"), Some(" -a".to_string()));
}

#[test]
fn history_moves_skip_repeats() {
    let opts = strings(&["a", "b", "b"]);
    assert_eq!(history_back(&opts, 3, "b"), Some(0));
    assert_eq!(history_back(&opts, 1, "a"), None);
    assert_eq!(history_forward(&opts, 1, "b"), None);
    assert_eq!(history_forward(&opts, 1, "a"), Some(1));
}

#[test]
fn tab_index_wraps_both_ways() {
    assert_eq!(tab_index(None, false, 3), 0);
    assert_eq!(tab_index(Some(2), false, 3), 0);
    assert_eq!(tab_index(None, true, 3), 2);
    assert_eq!(tab_index(Some(0), true, 3), 2);
    assert_eq!(tab_index(Some(1), true, 3), 0);
    // Tab then Shift+Tab gives back the selection
    for i in 0..5 {
        assert_eq!(tab_index(Some(tab_index(Some(i), false, 5)), true, 5), i);
    }
}

#[test]
fn up_then_down_gives_back_what_was_typed() {
    let mut term = Terminal::new(&[], Some(history(&["ls", "ls -la", "cd blog"])));
    let mut p = Prompt::new();
    p.input("l".to_string(), 1, &term);
    let o = p.key(Key::Up, &mut term, "/");
    assert!(o.prevent_default);
    assert_eq!(p.value(), "ls -la");
    p.key(Key::Up, &mut term, "/");
    assert_eq!(p.value(), "ls");
    p.key(Key::Down, &mut term, "/");
    assert_eq!(p.value(), "ls -la");
    assert!(p.key_ok(Key::Down));
    let o = p.key(Key::Down, &mut term, "/");
    assert!(o.prevent_default);
    assert_eq!(p.value(), "l");
    assert_eq!(p.cursor(), 1);
    // not cycling any more: arrow down does nothing
    let o = p.key(Key::Down, &mut term, "/");
    assert!(!o.prevent_default);
    assert_eq!(p.value(), "l");
}

#[test]
fn up_on_blank_input_walks_all_history() {
    let mut term = Terminal::new(&[], Some(history(&["pwd", "pwd", "ls"])));
    let mut p = Prompt::new();
    p.key(Key::Up, &mut term, "/");
    assert_eq!(p.value(), "ls");
    p.key(Key::Up, &mut term, "/");
    assert_eq!(p.value(), "pwd");
    // only repeats are left: stays put
    p.key(Key::Up, &mut term, "/");
    assert_eq!(p.value(), "pwd");
    // any other key ends the cycle
    p.key(Key::Other, &mut term, "/");
    let o = p.key(Key::Down, &mut term, "/");
    assert!(!o.prevent_default);
}

#[test]
fn right_arrow_accepts_suggestion() {
    let mut term = Terminal::new(&[], Some(history(&["ls -la"])));
    let mut p = Prompt::new();
    p.input("ls".to_string(), 2, &term);
    assert_eq!(p.ghost_text(), Some(" -la".to_string()));
    let (before, after, shown) = p.display();
    assert_eq!((before.as_str(), after.as_str()), ("ls", ""));
    assert_eq!(shown, Some(" -la".to_string()));
    let o = p.key(Key::Right, &mut term, "/");
    assert!(o.prevent_default);
    assert_eq!(p.value(), "ls -la");
    assert_eq!(p.cursor(), 6);
    assert_eq!(p.ghost_text(), None);
    // cursor inside the text: no suggestion accepted, none shown
    p.input("ls".to_string(), 1, &term);
    let (before, after, shown) = p.display();
    assert_eq!((before.as_str(), after.as_str(), shown), ("l", "s", None));
    let o = p.key(Key::Right, &mut term, "/");
    assert!(!o.prevent_default);
    assert_eq!(p.value(), "ls");
}

#[test]
fn tab_cycles_through_commands() {
    let mut term = Terminal::new(&[], None);
    let mut p = Prompt::new();
    p.input("c".to_string(), 1, &term);
    let o = p.key(Key::Tab { shift: false }, &mut term, "/");
    assert!(o.prevent_default);
    assert_eq!(p.value(), "c");
    let (items, sel) = p.tab_candidates().expect("tab completion under way");
    let texts: Vec<String> = items.iter().map(|i| i.completion_text.clone()).collect();
    assert_eq!(texts, strings(&["cat", "cd", "clear", "cp"]));
    assert_eq!(sel, None);
    p.key(Key::Tab { shift: false }, &mut term, "/");
    assert_eq!(p.value(), "cat");
    p.key(Key::Tab { shift: false }, &mut term, "/");
    assert_eq!(p.value(), "cd");
    p.key(Key::Tab { shift: true }, &mut term, "/");
    assert_eq!(p.value(), "cat");
    p.key(Key::Tab { shift: true }, &mut term, "/");
    assert_eq!(p.value(), "cp");
    p.key(Key::Other, &mut term, "/");
    assert!(p.tab_candidates().is_none());
}

#[test]
fn tab_completes_single_candidate_at_once() {
    let mut term = Terminal::new(&[], None);
    let mut p = Prompt::new();
    p.input("cat t".to_string(), 5, &term);
    p.key(Key::Tab { shift: false }, &mut term, "/");
    assert_eq!(p.value(), "cat thanks.txt");
    assert!(p.tab_candidates().is_none());
    p.input("cd b".to_string(), 4, &term);
    p.key(Key::Tab { shift: false }, &mut term, "/");
    assert_eq!(p.value(), "cd blog/");
    // nothing to offer
    p.input("cat zzz".to_string(), 7, &term);
    let o = p.key(Key::Tab { shift: false }, &mut term, "/");
    assert!(o.prevent_default);
    assert_eq!(p.value(), "cat zzz");
    // empty input: Tab keeps its default effect
    p.input(String::new(), 0, &term);
    let o = p.key(Key::Tab { shift: false }, &mut term, "/");
    assert!(!o.prevent_default);
}

#[test]
fn shift_tab_selects_last_candidate_and_slash_ends_tabbing() {
    let mut term = Terminal::new(&[], None);
    let mut p = Prompt::new();
    p.input("ls ".to_string(), 3, &term);
    p.key(Key::Tab { shift: true }, &mut term, "/");
    assert_eq!(p.value(), "ls thanks.txt");
    let (items, sel) = p.tab_candidates().expect("tabbing");
    assert_eq!(items.len(), 5);
    assert_eq!(sel, Some(4));
    p.input("cd ".to_string(), 3, &term);
    p.key(Key::Other, &mut term, "/");
    p.key(Key::Tab { shift: false }, &mut term, "/");
    p.key(Key::Tab { shift: false }, &mut term, "/");
    assert_eq!(p.value(), "cd blog/");
    let o = p.key(Key::Slash, &mut term, "/");
    assert!(o.prevent_default);
    assert!(p.tab_candidates().is_none());
    let o = p.key(Key::Slash, &mut term, "/");
    assert!(!o.prevent_default);
}

#[test]
fn ctrl_keys_hand_over_commands() {
    let mut term = Terminal::new(&[], None);
    let mut p = Prompt::new();
    p.input("ls -z".to_string(), 5, &term);
    let o = p.key(Key::Interrupt, &mut term, "/");
    assert_eq!(o.command, Some(("ls -z".to_string(), true)));
    assert_eq!(p.value(), "");
    assert_eq!(p.cursor(), 0);
    let o = p.key(Key::ClearScreen, &mut term, "/");
    assert_eq!(o.command, Some(("clear".to_string(), false)));
    let o = p.key(Key::Modified, &mut term, "/");
    assert!(o.command.is_none() && !o.prevent_default);
}

#[test]
fn submit_empties_the_input() {
    let term = Terminal::new(&[], Some(history(&["pwd"])));
    let mut p = Prompt::new();
    p.input("p".to_string(), 1, &term);
    assert_eq!(p.ghost_text(), Some("wd".to_string()));
    let cmd = p.submit();
    assert_eq!(cmd, "p");
    assert_eq!(p.value(), "");
    assert_eq!(p.ghost_text(), None);
}

#[test]
fn picking_a_candidate_completes_and_ends_tabbing() {
    let mut term = Terminal::new(&[], None);
    let mut p = Prompt::new();
    p.input("c".to_string(), 1, &term);
    p.key(Key::Tab { shift: false }, &mut term, "/");
    p.pick("clear");
    assert_eq!(p.value(), "clear");
    assert!(p.tab_candidates().is_none());
}

#[test]
fn candidate_labels() {
    let dir = TabCompletionItem { completion_text: "blog/".to_string(), is_directory: true, is_executable: false };
    let exe = TabCompletionItem { completion_text: "mines.sh*".to_string(), is_directory: false, is_executable: true };
    let plain = TabCompletionItem { completion_text: "thanks.txt".to_string(), is_directory: false, is_executable: false };
    assert_eq!(candidate_label(&dir, false), ("blog".to_string(), LabelStyle::Directory));
    assert_eq!(candidate_label(&dir, true), ("blog/".to_string(), LabelStyle::Plain));
    assert_eq!(candidate_label(&exe, false), ("mines.sh".to_string(), LabelStyle::Executable));
    assert_eq!(candidate_label(&plain, false), ("thanks.txt".to_string(), LabelStyle::Plain));
}
