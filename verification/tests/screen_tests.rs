use personal_site::command::CommandRes;
use personal_site::screen::{OutputLine, Screen};
use personal_site::terminal::Terminal;

fn describe(line: &OutputLine) -> String {
    match line {
        OutputLine::Prompt { was_err, dir, cmd } => format!("prompt({was_err},{dir},{cmd})"),
        OutputLine::Error(e) => format!("error({e})"),
        OutputLine::Text(t) => format!("text({t})"),
        OutputLine::Listing(v) => format!("listing({})", v.long_format),
    }
}

fn lines(s: &Screen) -> Vec<String> {
    s.lines().iter().map(describe).collect()
}

#[test]
fn run_echoes_then_shows_output() {
    let mut term = Terminal::new(&[], None);
    let mut screen = Screen::new();
    let r = screen.run(&mut term, "/blog", "pwd", false);
    assert_eq!(r, None);
    assert_eq!(lines(&screen), vec!["prompt(false,blog,pwd)".to_string(), "text(/blog)".to_string()]);
    assert!(!screen.is_err());
}

#[test]
fn failed_command_turns_prompt_red() {
    let mut term = Terminal::new(&[], None);
    let mut screen = Screen::new();
    screen.run(&mut term, "/", "cat nothing", false);
    assert!(screen.is_err());
    screen.run(&mut term, "/", "whoami", false);
    assert_eq!(
        lines(&screen),
        vec![
            "prompt(false,hansbaker.com,cat nothing)".to_string(),
            "error(cat: nothing: No such file or directory)".to_string(),
            "prompt(true,hansbaker.com,whoami)".to_string(),
            "text(user)".to_string(),
        ]
    );
    assert!(!screen.is_err());
}

#[test]
fn clear_wipes_the_screen() {
    let mut term = Terminal::new(&[], None);
    let mut screen = Screen::new();
    screen.run(&mut term, "/", "pwd", false);
    screen.run(&mut term, "/", "  clear ", false);
    assert!(screen.lines().is_empty());
}

#[test]
fn interrupt_only_echoes_and_marks_error() {
    let mut term = Terminal::new(&[], None);
    let mut screen = Screen::new();
    let r = screen.run(&mut term, "/", "ls", true);
    assert_eq!(r, None);
    assert!(screen.is_err());
    assert_eq!(lines(&screen), vec!["prompt(false,hansbaker.com,ls)".to_string()]);
    // nothing was recorded
    assert!(term.history().is_empty());
}

#[test]
fn navigation_returns_location_and_clears_error() {
    let mut term = Terminal::new(&[], None);
    let mut screen = Screen::new();
    screen.run(&mut term, "/", "cat nothing", false);
    let r = screen.run(&mut term, "/", "cd blog", false);
    assert_eq!(r, Some("/blog".to_string()));
    assert!(!screen.is_err());
    assert_eq!(lines(&screen).len(), 3);
}

#[test]
fn listing_is_shown_as_listing() {
    let mut term = Terminal::new(&[], None);
    let mut screen = Screen::new();
    screen.run(&mut term, "/", "ls -l", false);
    assert_eq!(lines(&screen), vec!["prompt(false,hansbaker.com,ls -l)".to_string(), "listing(true)".to_string()]);
}

#[test]
fn show_skips_empty_texts() {
    let mut screen = Screen::new();
    let res = CommandRes::new().with_stdout_text("").with_stderr_text("");
    assert_eq!(screen.show(res), None);
    assert!(screen.lines().is_empty());
    let res = CommandRes::new().with_error().with_stderr("bad").with_stdout_text("half");
    screen.show(res);
    assert_eq!(lines(&screen), vec!["error(bad)".to_string(), "text(half)".to_string()]);
    assert!(screen.is_err());
}
