use personal_site::fs::{path_target_to_target_path, Dir, DirContentItem, File, Target};
use personal_site::vfs::VirtualFilesystem;

fn names(items: &[DirContentItem]) -> Vec<String> {
    items.iter().map(|i| i.0.clone()).collect()
}

#[test]
fn blog_listing_is_sorted_with_nav() {
    let posts = vec!["zeta".to_string(), "alpha".to_string()];
    assert_eq!(names(&Dir::Blog.contents(&posts, false)), vec!["alpha", "nav.rs", "zeta"]);
    assert_eq!(names(&Dir::Blog.contents(&posts, true)), vec![".", "..", "alpha", "nav.rs", "zeta"]);
}

#[test]
fn hidden_entries_add_dots_and_zshrc_at_the_top() {
    let posts: Vec<String> = vec![];
    assert_eq!(names(&Dir::Base.contents(&posts, false)), vec!["blog", "cv", "mines.sh", "nav.rs", "thanks.txt"]);
    assert_eq!(
        names(&Dir::Base.contents(&posts, true)),
        vec![".", "..", ".zshrc", "blog", "cv", "mines.sh", "nav.rs", "thanks.txt"]
    );
    assert_eq!(names(&Dir::CV.contents(&posts, true)), vec![".", "..", "nav.rs"]);
}

#[test]
fn resolved_path_resolves_to_itself() {
    let r = path_target_to_target_path("/blog", "../cv/./x/..", false);
    assert_eq!(r, "/cv");
    assert_eq!(path_target_to_target_path("/anything/else", &r, false), r);
    assert_eq!(path_target_to_target_path("/blog/post", "/cv/nav.rs", false), "/cv/nav.rs");
    assert_eq!(path_target_to_target_path("/", "/cv/nav.rs", false), "/cv/nav.rs");
}

#[test]
fn directory_base_names_the_directory() {
    let posts = vec!["my-post".to_string()];
    for d in [Dir::Base, Dir::Blog, Dir::CV, Dir::BlogPost("my-post".to_string())] {
        let back = Target::from_str(&d.base(), &posts);
        match (d, back) {
            (Dir::Base, Target::Dir(Dir::Base)) => {}
            (Dir::Blog, Target::Dir(Dir::Blog)) => {}
            (Dir::CV, Target::Dir(Dir::CV)) => {}
            (Dir::BlogPost(a), Target::Dir(Dir::BlogPost(b))) => assert_eq!(a, b),
            _ => panic!("base did not name its directory"),
        }
    }
}

#[test]
fn nav_with_empty_path_goes_to_the_top() {
    assert_eq!(File::Nav(String::new()).contents(), File::Nav("/".to_string()).contents());
}

#[test]
fn site_files_read_as_in_the_site_map() {
    let vfs = VirtualFilesystem::new(vec!["p".to_string()]);
    let root = vfs.get_root();
    for (path, f) in [
        ("/mines.sh", File::MinesSh),
        ("/thanks.txt", File::ThanksTxt),
        ("/nav.rs", File::Nav("/".to_string())),
    ] {
        let node = vfs.resolve_path(root, path).expect("exists");
        assert_eq!(vfs.read_file(node).expect("reads"), f.contents());
    }
}

#[test]
fn redundant_separators_change_nothing() {
    let vfs = VirtualFilesystem::new(vec!["p".to_string()]);
    let root = vfs.get_root();
    let blog = vfs.resolve_path(root, "/blog").expect("exists");
    for p in ["/blog/p/nav.rs", "p", "~/cv", "/", "nav.rs", "../cv", "~/missing", "."] {
        let plain = vfs.resolve_path(blog, p).ok();
        assert_eq!(vfs.resolve_path(blog, &p.replace('/', "/./")).ok(), plain, "{p}");
        assert_eq!(vfs.resolve_path(blog, &p.replace('/', "//")).ok(), plain, "{p}");
    }
}

#[test]
fn site_map_and_filesystem_agree_on_executables() {
    let posts = vec!["p".to_string()];
    let vfs = VirtualFilesystem::new(posts.clone());
    let root = vfs.get_root();
    for p in ["/mines.sh", "/thanks.txt", "/.zshrc", "/nav.rs", "/blog/nav.rs", "/cv/nav.rs"] {
        let node = vfs.resolve_path(root, p).expect("exists");
        let on_disk = vfs.get_node(node).expect("live").is_executable();
        assert_eq!(Target::from_str(p, &posts).is_executable(), on_disk, "{p}");
    }
    assert!(!Target::Dir(Dir::Blog).is_executable());
    assert!(!Target::Invalid.is_executable());
}

#[test]
fn parent_of_a_removed_node_is_none() {
    let mut vfs = VirtualFilesystem::new(vec![]);
    let root = vfs.get_root();
    let f = vfs
        .create_file(root, "x.txt", personal_site::vfs::FileContent::Dynamic(String::new()))
        .expect("created");
    assert_eq!(vfs.get_parent(f), Some(root));
    assert!(vfs.delete_node(f).is_ok());
    assert_eq!(vfs.get_parent(f), None);
    assert_eq!(vfs.get_parent(root), None);
}

#[test]
fn node_path_leads_back_to_the_node() {
    let vfs = VirtualFilesystem::new(vec!["p".to_string()]);
    let root = vfs.get_root();
    let n = vfs.resolve_path(root, "/blog/p/nav.rs").expect("exists");
    let cv = vfs.resolve_path(root, "/cv").expect("exists");
    assert_eq!(vfs.resolve_path(cv, &vfs.get_node_path(n)).ok(), Some(n));
}
