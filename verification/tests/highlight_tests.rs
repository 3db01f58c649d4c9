use personal_site::highlight::{blocks_closed, highlight, render_events, render_markdown, MdEvent, PulldownHighlighter};
use pulldown_cmark::Event;
use syntect::highlighting::ThemeSet;
use syntect::html::highlighted_html_for_string;
use syntect::parsing::SyntaxSet;

fn describe(e: &MdEvent) -> String {
    match e {
        MdEvent::CodeStart(l) => format!("start({:?})", l),
        MdEvent::CodeEnd => "end".to_string(),
        MdEvent::Text(t) => format!("text({t})"),
        MdEvent::Html(h) => format!("html({h})"),
        MdEvent::Other(e) => format!("other({:?})", e),
    }
}

/// What syntect makes of `code` in the syntax for `token`, plain text when none.
fn coloured(token: Option<&str>, code: &str) -> String {
    let ss = SyntaxSet::load_defaults_newlines();
    let ts = ThemeSet::load_defaults();
    let syntax = match token {
        Some(t) => ss.find_syntax_by_token(t).expect("known token"),
        None => ss.find_syntax_plain_text(),
    };
    highlighted_html_for_string(code, &ss, syntax, &ts.themes["InspiredGitHub"]).expect("highlights")
}

#[test]
fn code_blocks_come_out_as_one_html_event() {
    let events = vec![
        MdEvent::Other(Event::SoftBreak),
        MdEvent::Text("intro".to_string()),
        MdEvent::Other(Event::Rule),
        MdEvent::CodeStart(Some("rust".to_string())),
        MdEvent::Text("fn main() {\n".to_string()),
        MdEvent::Text("}\n".to_string()),
        MdEvent::CodeEnd,
        MdEvent::Text("outro".to_string()),
        MdEvent::Html("<br>".to_string()),
    ];
    let out: Vec<String> = highlight(events).expect("highlights").iter().map(describe).collect();
    assert_eq!(
        out,
        vec![
            "other(SoftBreak)".to_string(),
            "text(intro)".to_string(),
            "other(Rule)".to_string(),
            format!("html({})", coloured(Some("rust"), "fn main() {\n}\n")),
            "text(outro)".to_string(),
            "html(<br>)".to_string(),
        ]
    );
}

#[test]
fn unknown_token_keeps_previous_syntax() {
    let events = vec![
        MdEvent::CodeStart(Some("zzz-no-such-language".to_string())),
        MdEvent::Text("a".to_string()),
        MdEvent::CodeEnd,
        MdEvent::CodeStart(Some("rs".to_string())),
        MdEvent::Text("let b = 1;".to_string()),
        MdEvent::CodeEnd,
        MdEvent::CodeStart(None),
        MdEvent::Text("c".to_string()),
        MdEvent::CodeEnd,
        MdEvent::CodeStart(Some("zzz-no-such-language".to_string())),
        MdEvent::CodeEnd,
    ];
    let out: Vec<String> =
        PulldownHighlighter::new().highlight(events).expect("highlights").iter().map(describe).collect();
    assert_eq!(
        out,
        vec![
            format!("html({})", coloured(None, "a")),
            format!("html({})", coloured(Some("rs"), "let b = 1;")),
            format!("html({})", coloured(Some("rs"), "c")),
            format!("html({})", coloured(Some("rs"), "")),
        ]
    );
}

#[test]
fn highlighting_leaves_no_code_markers() {
    let events = vec![
        MdEvent::CodeStart(None),
        MdEvent::Text("x".to_string()),
        MdEvent::CodeEnd,
        MdEvent::Text("y".to_string()),
    ];
    let out = highlight(events).expect("highlights");
    assert_eq!(out.len(), 2);
    assert!(out.iter().all(|e| !matches!(e, MdEvent::CodeStart(_) | MdEvent::CodeEnd)));
}

#[test]
fn an_unopened_block_end_is_refused() {
    assert!(!blocks_closed(&vec![MdEvent::Text("a".to_string()), MdEvent::CodeEnd]));
    assert!(blocks_closed(&vec![MdEvent::CodeStart(None), MdEvent::CodeEnd, MdEvent::Text("a".to_string())]));
    assert!(render_events(vec![MdEvent::CodeEnd]).is_none());
}

#[test]
fn render_events_writes_html() {
    let events = vec![MdEvent::Text("a < b".to_string()), MdEvent::Html("<hr>".to_string())];
    assert_eq!(render_events(events), Some("a &lt; b<hr>".to_string()));
}

#[test]
fn markdown_renders_with_highlighted_code() {
    let text = "# Title\n\nSome *text*.\n\n```rust\nlet x = 1;\n```\n";
    let expected = format!("<h1>Title</h1>\n<p>Some <em>text</em>.</p>\n{}", coloured(Some("rust"), "let x = 1;\n"));
    assert!(expected.contains("background-color:#ffffff;"));
    assert_eq!(render_markdown(text), Some(expected));
}

#[test]
fn markdown_without_code_passes_through() {
    assert_eq!(render_markdown("Middle post."), Some("<p>Middle post.</p>\n".to_string()));
    assert_eq!(render_markdown(""), Some(String::new()));
}
