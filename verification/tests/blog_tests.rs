use personal_site::blog::{
    collect_posts, front_matter, get_meta, get_post, post_name, search_command, sort_newest, Assets, BlogError,
    FrontMatter, PostMeta, PostSource, SearchPattern,
};

fn front(title: &str, date: (i64, u32)) -> FrontMatter {
    FrontMatter {
        title: title.to_string(),
        description: format!("about {title}"),
        author: "Hans".to_string(),
        date,
        tags: vec!["rust".to_string()],
    }
}

fn source(file: &str, content: &str, front: Option<FrontMatter>) -> PostSource {
    PostSource {
        file: file.to_string(),
        content: content.to_string(),
        front,
    }
}

fn assets() -> Assets {
    Assets {
        files: vec![
            source("old.md", "An old post about Rust.", Some(front("Old", (100, 0)))),
            source("new.md", "A new post\nabout leaving leadership.", Some(front("New", (300, 0)))),
            source("mid.md", "Middle post.", Some(front("Mid", (200, 5)))),
            source("tie.md", "Same day as mid.", Some(front("Tie", (200, 5)))),
        ],
    }
}

fn names(v: &[PostMeta]) -> Vec<String> {
    v.iter().map(|m| m.name.clone()).collect()
}

#[test]
fn post_name_drops_extension() {
    assert_eq!(post_name("rust_for_web.md"), "rust_for_web");
    assert_eq!(post_name(".md"), "");
}

#[test]
fn search_command_text() {
    assert_eq!(search_command(""), "ls -lt blog");
    assert_eq!(search_command("rust"), "grep -Eil 'rust' blog/* | xargs ls -lt");
}

#[test]
fn empty_search_lists_every_post_newest_first() {
    let a = assets();
    let metas = get_meta("", &a).expect("all headers read");
    assert_eq!(names(&metas), vec!["new", "mid", "tie", "old"]);
    assert_eq!(metas[0].title, "New");
    assert_eq!(metas[0].description, "about New");
    assert_eq!(metas[0].author, "Hans");
    assert_eq!(metas[0].date, (300, 0));
    assert_eq!(metas[0].tags, vec!["rust".to_string()]);
}

#[test]
fn search_is_case_insensitive_and_multi_line() {
    let a = assets();
    let metas = get_meta("RUST", &a).expect("compiles");
    assert_eq!(names(&metas), vec!["old"]);
    let metas = get_meta("^about", &a).expect("compiles");
    assert_eq!(names(&metas), vec!["new"]);
    let metas = get_meta("post", &a).expect("compiles");
    assert_eq!(names(&metas), vec!["new", "mid", "old"]);
    let metas = get_meta("nothing matches this", &a).expect("compiles");
    assert!(metas.is_empty());
}

#[test]
fn bad_pattern_gives_nothing() {
    let a = assets();
    assert!(get_meta("(", &a).is_none());
    assert!(SearchPattern::new("[a-").is_none());
    assert!(SearchPattern::new("a+b").is_some());
}

#[test]
fn unreadable_header_spoils_listing_only_when_selected() {
    let mut a = assets();
    a.files.push(source("broken.md", "no header here", None));
    assert!(get_meta("", &a).is_none());
    assert!(get_meta("header", &a).is_none());
    let metas = get_meta("rust", &a).expect("broken post not selected");
    assert_eq!(names(&metas), vec!["old"]);
}

#[test]
fn collect_posts_keeps_flagged_ones() {
    let a = assets();
    let metas = collect_posts(&a.files, &vec![true, false, true, false]).expect("headers read");
    assert_eq!(names(&metas), vec!["mid", "old"]);
    let none = collect_posts(&a.files, &vec![false, false, false, false]).expect("nothing to read");
    assert!(none.is_empty());
}

#[test]
fn sort_newest_is_stable() {
    let m = |n: &str, d: (i64, u32)| PostMeta {
        name: n.to_string(),
        title: String::new(),
        description: String::new(),
        author: String::new(),
        date: d,
        tags: vec![],
    };
    let v = vec![m("a", (1, 0)), m("b", (2, 0)), m("c", (1, 0)), m("d", (2, 1)), m("e", (-5, 0))];
    assert_eq!(names(&sort_newest(v)), vec!["d", "b", "a", "c", "e"]);
}

#[test]
fn get_post_finds_by_file_name() {
    let a = assets();
    let p = get_post("mid.md", &a).expect("exists");
    assert_eq!(p.meta.name, "mid");
    assert_eq!(p.meta.title, "Mid");
    assert_eq!(p.content, "<p>Middle post.</p>\n");
    assert!(get_post("mid", &a).is_none());
    assert!(get_post("missing.md", &a).is_none());
    let mut b = assets();
    b.files.push(source("broken.md", "x", None));
    assert!(get_post("broken.md", &b).is_none());
}

#[test]
fn assets_list_and_read_files() {
    let a = assets();
    assert_eq!(a.iter(), vec!["old.md", "new.md", "mid.md", "tie.md"]);
    assert_eq!(a.post_names(), vec!["old", "new", "mid", "tie"]);
    assert_eq!(a.get("tie.md"), Some("Same day as mid.".to_string()));
    assert_eq!(a.get("nope.md"), None);
}

#[test]
fn blog_error_messages() {
    assert_eq!(BlogError::NotFound.message(), "Blog post not found");
    assert_eq!(BlogError::ParseError.message(), "Couldn't parse blog posts");
}

#[test]
fn get_post_renders_the_whole_file() {
    let text = "---\ntitle: T\n---\n# Hello\n\nSome *words*.\n";
    let a = Assets { files: vec![source("t.md", text, Some(front("T", (1, 0))))] };
    let p = get_post("t.md", &a).expect("exists");
    assert_eq!(p.content, "<h1>Hello</h1>\n<p>Some <em>words</em>.</p>\n");
}

#[test]
fn front_matter_reads_the_date() {
    let f = front_matter(
        "T".to_string(),
        "D".to_string(),
        "A".to_string(),
        "2024-01-02T03:04:05.5Z",
        vec!["x".to_string()],
    )
    .expect("date reads");
    assert_eq!(f.date, (1704164645, 500_000_000));
    assert_eq!(f.title, "T");
    assert_eq!(f.tags, vec!["x".to_string()]);
    let g = front_matter(String::new(), String::new(), String::new(), "2024-01-02 03:04:05+01:00", vec![]).expect("reads");
    assert_eq!(g.date, (1704161045, 0));
    assert!(front_matter(String::new(), String::new(), String::new(), "yesterday", vec![]).is_none());
}
