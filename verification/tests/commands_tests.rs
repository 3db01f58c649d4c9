use personal_site::command::CommandRes;
use personal_site::simple_tools::parse_unsigned;
use personal_site::fs_tools::{long_line, LsBlock};
use personal_site::simple_tools::UptimeCommand;
use personal_site::terminal::Terminal;

fn out(res: &CommandRes) -> Option<String> {
    match res {
        CommandRes::Output { stdout_text, .. } => stdout_text.clone(),
        _ => None,
    }
}

fn err(res: &CommandRes) -> Option<String> {
    match res {
        CommandRes::Output { stderr_text, .. } => stderr_text.clone(),
        _ => None,
    }
}

#[test]
fn uptime_line_formula() {
    let u = UptimeCommand;
    let elapsed = 3 * 86400 + 5 * 3600 + 7 * 60 + 9;
    assert_eq!(
        u.uptime_line("12:34:56", elapsed, "0.08, 0.12, 0.15"),
        "12:34:56 up 3 days, 5:07, load average: 0.08, 0.12, 0.15"
    );
    assert_eq!(u.uptime_line("t", 59, "l"), "t up 0 days, 0:00, load average: l");
    assert_eq!(u.uptime_line("t", 86400 * 42 + 13 * 3600 + 37 * 60, "l"), "t up 42 days, 13:37, load average: l");
    assert_eq!(u.uptime_line("t", -3700, "l"), "t up 0 days, -1:-1, load average: l");
    let res = u.execute("t", 60, "l");
    assert!(!res.is_error());
    assert_eq!(out(&res), Some("t up 0 days, 0:01, load average: l".to_string()));
}

#[test]
fn ps_lists_processes() {
    let mut t = Terminal::new(&[], None);
    let res = t.handle_command("/", "ps");
    assert_eq!(
        out(&res),
        Some("  PID COMMAND\n    1 leptos-server\n   42 blog-renderer\n   99 terminal-sim\n  128 wasm-hydrator\n  256 rss-generator".to_string())
    );
    let res = t.handle_command("/", "ps aux");
    assert_eq!(
        out(&res),
        Some(
            "USER       PID %CPU %MEM COMMAND\nroot         1  2.3 15.2 leptos-server\napp         42  0.1  8.7 blog-renderer\napp         99  0.2  3.1 terminal-sim\napp        128  0.0  2.5 wasm-hydrator\napp        256  0.0  1.8 rss-generator"
                .to_string()
        )
    );
    let res = t.handle_command("/", "ps -ef");
    assert!(res.is_error());
    assert_eq!(err(&res), Some("ps: invalid argument -- '-ef'\nUsage: ps [aux]".to_string()));
    let res = t.handle_command("/", "ps a b");
    assert_eq!(err(&res), Some("ps: too many arguments".to_string()));
}

#[test]
fn kill_answers() {
    let mut t = Terminal::new(&[], None);
    let cases = [
        ("kill", "kill: not enough arguments"),
        ("kill -9", "kill: not enough arguments"),
        ("kill -hup 99", "kill: kill 99 failed: operation not permitted"),
        ("kill -foo 1", "kill: unknown signal: SIGFOO"),
        ("kill -1x 1", "kill: usage: kill [-n signum] pid"),
        ("kill 42", "Answer to everything terminated\nkill: kill 42 failed: operation not permitted"),
        ("kill abc", "kill: illegal pid: abc"),
        ("kill 7", "kill: kill 7 failed: no such process"),
        ("kill -KILL 256", "kill: kill 256 failed: operation not permitted"),
    ];
    for (cmd, msg) in cases {
        let res = t.handle_command("/", cmd);
        assert!(res.is_error(), "{cmd}");
        assert_eq!(err(&res), Some(msg.to_string()), "{cmd}");
    }
}

#[test]
fn history_numbers_lines() {
    let mut t = Terminal::new(&[], None);
    t.handle_command("/", "ls");
    t.handle_command("/", "pwd");
    let res = t.handle_command("/", "history");
    assert_eq!(out(&res), Some("   1  ls\n   2  pwd\n   3  history".to_string()));
    let res = t.handle_command("/", "history 2");
    assert_eq!(out(&res), Some("   3  history\n   4  history 2".to_string()));
    let res = t.handle_command("/", "history x y");
    assert_eq!(err(&res), Some("history: too many arguments".to_string()));
    let res = t.handle_command("/", "history -c");
    assert_eq!(out(&res), Some("history cleared".to_string()));
    assert!(t.history().is_empty());
}

#[test]
fn history_keeps_the_last_thousand() {
    let mut t = Terminal::new(&[], None);
    for i in 0..1005 {
        t.handle_command("/", &format!("echo {i}"));
    }
    let h = t.history();
    assert_eq!(h.len(), 1000);
    assert_eq!(h.front().map(|s| s.as_str()), Some("echo 5"));
    assert_eq!(h.back().map(|s| s.as_str()), Some("echo 1004"));
}

#[test]
fn blank_input_changes_nothing() {
    let mut t = Terminal::new(&[], None);
    let res = t.handle_command("/", "   ");
    assert!(!res.is_error());
    assert_eq!(out(&res), None);
    assert!(t.history().is_empty());
}

#[test]
fn variables_and_aliases_expand() {
    let mut t = Terminal::new(&[], None);
    assert_eq!(out(&t.handle_command("/", "echo $USER")), Some("user".to_string()));
    assert_eq!(out(&t.handle_command("/", "echo $SITE/blog")), Some("hansbaker.com/blog".to_string()));
    assert_eq!(out(&t.handle_command("/blog", "echo $PWD")), Some("/blog".to_string()));
    assert_eq!(out(&t.handle_command("/", "echo $VERSION")), Some("0.1.0".to_string()));
    let ll = t.handle_command("/", "ll");
    match ll {
        CommandRes::Output { stdout_view: Some(v), .. } => {
            assert!(v.long_format);
        }
        _ => panic!("ll should list"),
    }
    assert_eq!(out(&t.handle_command("/", "h 1")), Some("   6  h 1".to_string()));
}

#[test]
fn date_with_format_prints_year() {
    let mut t = Terminal::new(&[], None);
    let res = t.handle_command("/", "date +%Y");
    let year = out(&res).expect("date prints");
    assert_eq!(year.len(), 4);
    assert!(year.chars().all(|c| c.is_ascii_digit()));
}

#[test]
fn touch_then_cat_reads_empty_and_rm_removes() {
    let mut t = Terminal::new(&[], None);
    let res = t.handle_command("/", "touch new.txt");
    assert!(!res.is_error());
    let res = t.handle_command("/", "cat new.txt");
    assert!(!res.is_error());
    assert_eq!(out(&res), None);
    let res = t.handle_command("/", "rm new.txt");
    assert!(!res.is_error());
    let res = t.handle_command("/", "cat new.txt");
    assert_eq!(err(&res), Some("cat: new.txt: No such file or directory".to_string()));
}

#[test]
fn mkdir_then_cd_goes_there() {
    let mut t = Terminal::new(&[], None);
    assert!(!t.handle_command("/", "mkdir projects").is_error());
    match t.handle_command("/", "cd projects") {
        CommandRes::Redirect(p) => assert_eq!(p, "/projects"),
        _ => panic!("cd should navigate"),
    }
    let res = t.handle_command("/", "mkdir projects");
    assert_eq!(err(&res), Some("mkdir: cannot create directory 'projects': File exists".to_string()));
}

#[test]
fn ls_parts_come_in_order() {
    let mut t = Terminal::new(&[], None);
    match t.handle_command("/", "ls cv thanks.txt blog") {
        CommandRes::Output { stdout_view: Some(v), .. } => {
            assert_eq!(
                v.blocks(),
                vec![
                    LsBlock::Files,
                    LsBlock::Break,
                    LsBlock::Heading(0),
                    LsBlock::Dir(0),
                    LsBlock::Break,
                    LsBlock::Heading(1),
                    LsBlock::Dir(1),
                ]
            );
            assert_eq!(v.heading(0), "blog:");
            assert_eq!(v.heading(1), "cv:");
            let item = &v.file_items[0];
            assert_eq!(long_line(item), format!("{}{}", item.node.long_meta_string(item.link_count), item.display_name));
            assert!(long_line(item).ends_with(" thanks.txt"));
        }
        _ => panic!("ls should list"),
    }
    match t.handle_command("/", "ls blog") {
        CommandRes::Output { stdout_view: Some(v), .. } => {
            assert_eq!(v.blocks(), vec![LsBlock::Dir(0)]);
        }
        _ => panic!("ls should list"),
    }
}

#[test]
fn touch_of_rooted_name_lands_in_current_directory() {
    let mut t = Terminal::new(&[], None);
    assert!(!t.handle_command("/", "mkdir d").is_error());
    assert!(!t.handle_command("/d", "touch /y").is_error());
    let res = t.handle_command("/d", "cat /y");
    assert_eq!(err(&res), Some("cat: /y: No such file or directory".to_string()));
    let res = t.handle_command("/d", "cat y");
    assert!(!res.is_error());
    let res = t.handle_command("/", "cat d/y");
    assert!(!res.is_error());
}

#[test]
fn variables_in_the_location_are_expanded_too() {
    let mut t = Terminal::new(&[], None);
    assert_eq!(out(&t.handle_command("/a$b", "echo $PWD")), Some("/a".to_string()));
    assert_eq!(out(&t.handle_command("/x$USER", "echo $PWD!")), Some("/xuser!".to_string()));
}

fn parts(r: CommandRes) -> (bool, bool, Option<String>, Option<String>) {
    match r {
        CommandRes::Output { is_err, stdout_view, stdout_text, stderr_text } => {
            (is_err, stdout_view.is_some(), stdout_text, stderr_text)
        }
        CommandRes::Redirect(_) => panic!("not an output"),
    }
}

#[test]
fn builder_order_does_not_matter() {
    let a = parts(CommandRes::new().with_error().with_stderr("bad"));
    let b = parts(CommandRes::new().with_stderr("bad").with_error());
    assert_eq!(a, (true, false, None, Some("bad".to_string())));
    assert_eq!(a, b);
    let c = parts(CommandRes::new().with_stdout_text("out").with_stderr_text("err"));
    let d = parts(CommandRes::new().with_stderr("err").with_stdout_text("out"));
    assert_eq!(c, (false, false, Some("out".to_string()), Some("err".to_string())));
    assert_eq!(c, d);
    assert_eq!(parts(CommandRes::new().with_error().with_error()), parts(CommandRes::new().with_error()));
    match CommandRes::redirect("https://x".to_string()).with_error().with_stderr("e") {
        CommandRes::Redirect(u) => assert_eq!(u, "https://x"),
        _ => panic!("a navigation stays one"),
    }
}

#[test]
fn unsigned_numbers_read_as_str_parse_reads_them() {
    let max = u32::MAX as u64;
    for s in ["0", "12", "+7", "007", "4294967295", "4294967296", "", "+", "-1", "1a", " 1", "99999999999999999999999"] {
        assert_eq!(parse_unsigned(s, max), s.parse::<u32>().ok().map(|v| v as u64), "{s}");
    }
    assert_eq!(parse_unsigned("18446744073709551615", u64::MAX), Some(u64::MAX));
    assert_eq!(parse_unsigned("18446744073709551616", u64::MAX), None);
}
