use vstd::prelude::*;

use crate::text::{
    chars_of, skip_chars, split_nonempty, split_nonempty_chars, string_of, views_of,
};
use crate::sort::{key_of, lemma_multiset_map, lemma_sort_map, sort_by_key, sorted_by_key, stable_sort, Keyed};
use crate::text::{ends_with, names_of, starts_with, str_eq, take_chars, seq_ends_with, seq_starts_with};
use crate::vfs::{join_with, spec_nav_content, generate_nav_content, MINES_SH, THANKS_TXT};

verus! {

/// Every character but `-`.
pub open spec fn not_dash() -> spec_fn(char) -> bool {
    |c: char| c != '-'
}

/// The option letters an argument contributes: for one that starts with
/// `-`, all its characters but `-`.
pub open spec fn arg_options(s: Seq<char>) -> Seq<char> {
    if s.len() > 0 && s[0] == '-' {
        s.filter(not_dash())
    } else {
        Seq::empty()
    }
}

/// The operand an argument contributes, if it is not an option: `~/x`
/// becomes `/x` and `~` becomes `/`.
pub open spec fn arg_target(s: Seq<char>) -> Option<Seq<char>> {
    if s.len() > 0 && s[0] == '-' {
        None
    } else if s.len() >= 2 && s[0] == '~' && s[1] == '/' {
        Some(s.drop_first())
    } else if s == seq!['~'] {
        Some(seq!['/'])
    } else {
        Some(s)
    }
}

/// The option letters of all arguments, in order.
pub open spec fn options_of(args: Seq<Seq<char>>) -> Seq<char>
    decreases args.len(),
{
    if args.len() == 0 {
        Seq::empty()
    } else {
        options_of(args.drop_last()) + arg_options(args.last())
    }
}

/// The operands of all arguments, in order.
pub open spec fn targets_of(args: Seq<Seq<char>>) -> Seq<Seq<char>>
    decreases args.len(),
{
    if args.len() == 0 {
        Seq::empty()
    } else {
        match arg_target(args.last()) {
            Some(t) => targets_of(args.drop_last()).push(t),
            None => targets_of(args.drop_last()),
        }
    }
}

/// The character sequences of a sequence of string slices.
pub open spec fn strs_view(v: Seq<&str>) -> Seq<Seq<char>> {
    v.map_values(|s: &str| s@)
}

/// The option letters of one argument.
fn option_letters(s: &str, out: &mut Vec<char>)
    requires
        s@.len() > 0,
        s@[0] == '-',
    ensures
        final(out)@ == old(out)@ + s@.filter(not_dash()),
{
    let cs = chars_of(s);
    let ghost start = out@;
    let mut i: usize = 0;
    reveal(Seq::filter);
    assert(cs@.take(0).filter(not_dash()) =~= Seq::<char>::empty());
    assert(start + Seq::<char>::empty() =~= start);
    while i < cs.len()
        invariant
            i <= cs.len(),
            cs@ == s@,
            out@ == start + cs@.take(i as int).filter(not_dash()),
        decreases cs.len() - i,
    {
        reveal(Seq::filter);
        assert(cs@.take(i + 1).drop_last() =~= cs@.take(i as int));
        assert(cs@.take(i + 1).last() == cs@[i as int]);
        if cs[i] != '-' {
            out.push(cs[i]);
            assert(out@ =~= start + cs@.take(i + 1).filter(not_dash()));
        } else {
            assert(out@ =~= start + cs@.take(i + 1).filter(not_dash()));
        }
        i = i + 1;
    }
    assert(cs@.take(cs.len() as int) =~= cs@);
}

/// Splits arguments into option letters (from arguments starting with `-`)
/// and operands (the others, with `~` standing for `/`).
pub fn parse_multitarget<'a>(args: Vec<&'a str>) -> (r: (Vec<char>, Vec<&'a str>))
    ensures
        r.0@ == options_of(strs_view(args@)),
        strs_view(r.1@) == targets_of(strs_view(args@)),
{
    let mut options: Vec<char> = Vec::new();
    let mut targets: Vec<&'a str> = Vec::new();
    let mut i: usize = 0;
    assert(strs_view(args@).take(0) =~= Seq::<Seq<char>>::empty());
    assert(strs_view(targets@) =~= Seq::<Seq<char>>::empty());
    while i < args.len()
        invariant
            i <= args.len(),
            options@ == options_of(strs_view(args@).take(i as int)),
            strs_view(targets@) == targets_of(strs_view(args@).take(i as int)),
        decreases args.len() - i,
    {
        let s = args[i];
        let ghost pre = strs_view(args@).take(i as int);
        let ghost now = strs_view(args@).take(i + 1);
        assert(now.drop_last() =~= pre);
        assert(now.last() == s@);
        let n = s.unicode_len();
        if n > 0 && s.get_char(0) == '-' {
            option_letters(s, &mut options);
            assert(arg_target(s@) is None);
            assert(targets_of(now) =~= targets_of(pre));
            assert(options@ =~= options_of(now));
        } else if n >= 2 && s.get_char(0) == '~' && s.get_char(1) == '/' {
            let t = skip_chars(s, 1);
            assert(t@ =~= s@.drop_first());
            assert(targets_of(now) == targets_of(pre).push(t@));
            targets.push(t);
            assert(strs_view(targets@) =~= strs_view(targets@.drop_last()).push(t@));
            assert(options_of(now) =~= options_of(pre));
        } else if n == 1 && s.get_char(0) == '~' {
            assert(s@ =~= seq!['~']);
            proof {
                reveal_strlit("/");
                assert("/"@ =~= seq!['/']);
                assert(arg_target(s@) == Some(seq!['/']));
                assert(targets_of(now) == targets_of(pre).push("/"@));
            }
            targets.push("/");
            assert(strs_view(targets@) =~= strs_view(targets@.drop_last()).push("/"@));
            assert(options_of(now) =~= options_of(pre));
        } else {
            assert(s@ != seq!['~']) by {
                if s@ == seq!['~'] {
                    assert(s@.len() == 1);
                }
            }
            assert(targets_of(now) == targets_of(pre).push(s@));
            targets.push(s);
            assert(strs_view(targets@) =~= strs_view(targets@.drop_last()).push(s@));
            assert(options_of(now) =~= options_of(pre));
        }
        i = i + 1;
    }
    assert(strs_view(args@).take(args.len() as int) =~= strs_view(args@));
    (options, targets)
}

/// `t` without any leading `./`.
pub open spec fn strip_dot_slash(t: Seq<char>) -> Seq<char>
    decreases t.len(),
{
    if t.len() >= 2 && t[0] == '.' && t[1] == '/' {
        strip_dot_slash(t.skip(2))
    } else {
        t
    }
}

/// The path parts after applying `comps[k..]` to `parts`: `.` does nothing,
/// `..` drops the last part (if any), anything else is added.
pub open spec fn apply_from(parts: Seq<Seq<char>>, comps: Seq<Seq<char>>, k: int) -> Seq<Seq<char>>
    decreases comps.len() - k,
{
    if k < 0 || k >= comps.len() {
        parts
    } else {
        let c = comps[k];
        let next = if c == seq!['.'] {
            parts
        } else if c == seq!['.', '.'] {
            if parts.len() > 0 {
                parts.drop_last()
            } else {
                parts
            }
        } else {
            parts.push(c)
        };
        apply_from(next, comps, k + 1)
    }
}

/// `target` resolved against the directory path `path`, purely by text: a
/// leading `/` or `~` starts from the top, `.` and `..` are followed, and
/// the result is `/` and the parts joined by `/`. With `preserve_dot`, a
/// target ending in `.` keeps a final `.` part.
pub open spec fn spec_target_path(path: Seq<char>, target: Seq<char>, preserve_dot: bool) -> Seq<char> {
    let ends_dot = target.len() > 0 && target.last() == '.';
    let t1 = strip_dot_slash(target);
    let absolute = t1.len() > 0 && t1[0] == '/';
    let home = t1 == seq!['~'] || (t1.len() >= 2 && t1[0] == '~' && t1[1] == '/');
    let base = if absolute || home { Seq::empty() } else { split_nonempty(path, '/') };
    let t2 = if home { t1.drop_first() } else { t1 };
    let parts = apply_from(base, split_nonempty(t2, '/'), 0);
    let parts2 = if ends_dot && preserve_dot { parts.push(seq!['.']) } else { parts };
    "/"@ + join_with(parts2, "/"@)
}

/// The absolute path `target` names when typed in directory `path`.
pub fn path_target_to_target_path(path: &str, target: &str, preserve_dot: bool) -> (r: String)
    ensures
        r@ == spec_target_path(path@, target@, preserve_dot),
{
    let tchars = chars_of(target);
    let ends_with_dot = tchars.len() > 0 && tchars[tchars.len() - 1] == '.';
    let pchars = chars_of(path);
    let mut parts = split_nonempty_chars(&pchars, '/');
    let mut t: &str = target;
    while t.unicode_len() >= 2 && t.get_char(0) == '.' && t.get_char(1) == '/'
        invariant
            strip_dot_slash(target@) == strip_dot_slash(t@),
        decreases t@.len(),
    {
        t = skip_chars(t, 2);
    }
    let n = t.unicode_len();
    if n > 0 && t.get_char(0) == '/' {
        parts = Vec::new();
    }
    let home = (n == 1 && t.get_char(0) == '~') || (n >= 2 && t.get_char(0) == '~' && t.get_char(1) == '/');
    assert(home == (t@ == seq!['~'] || (t@.len() >= 2 && t@[0] == '~' && t@[1] == '/'))) by {
        if n == 1 && t@[0] == '~' {
            assert(t@ =~= seq!['~']);
        }
        if t@ == seq!['~'] {
            assert(t@.len() == 1);
        }
    }
    if home {
        parts = Vec::new();
        t = skip_chars(t, 1);
        assert(t@ =~= strip_dot_slash(target@).drop_first());
    }
    let ghost base = views_of(parts@);
    assert(base == (if (strip_dot_slash(target@).len() > 0 && strip_dot_slash(target@)[0] == '/') || home { Seq::<Seq<char>>::empty() } else { split_nonempty(path@, '/') })) by {
        assert(views_of(Seq::<Vec<char>>::empty()) =~= Seq::<Seq<char>>::empty());
    }
    let rest = chars_of(t);
    let comps = split_nonempty_chars(&rest, '/');
    let ghost cs = views_of(comps@);
    let mut k: usize = 0;
    while k < comps.len()
        invariant
            k <= comps.len(),
            cs == views_of(comps@),
            apply_from(base, cs, 0) == apply_from(views_of(parts@), cs, k as int),
        decreases comps.len() - k,
    {
        let c = &comps[k];
        assert(cs[k as int] == c@);
        if c.len() == 1 && c[0] == '.' {
            assert(c@ =~= seq!['.']);
        } else if c.len() == 2 && c[0] == '.' && c[1] == '.' {
            assert(c@ =~= seq!['.', '.']);
            assert(c@ != seq!['.']);
            if parts.len() > 0 {
                let ghost before = views_of(parts@);
                parts.pop();
                assert(views_of(parts@) =~= before.drop_last());
            }
        } else {
            assert(c@ != seq!['.']) by {
                if c@ == seq!['.'] { assert(c@.len() == 1); }
            }
            assert(c@ != seq!['.', '.']) by {
                if c@ == seq!['.', '.'] { assert(c@.len() == 2); }
            }
            let ghost before = views_of(parts@);
            parts.push(c.clone());
            assert(views_of(parts@) =~= before.push(c@));
        }
        k = k + 1;
    }
    if ends_with_dot && preserve_dot {
        let ghost before = views_of(parts@);
        let dot = vec!['.'];
        assert(dot@ =~= seq!['.']);
        parts.push(dot);
        assert(views_of(parts@) =~= before.push(seq!['.']));
    }
    proof {
        assert(ends_with_dot == (target@.len() > 0 && target@.last() == '.'));
    }
    let ghost ps = views_of(parts@);
    let mut out = String::from_str("/");
    let mut i: usize = 0;
    proof {
        reveal_strlit("/");
        assert(ps.take(0) =~= Seq::<Seq<char>>::empty());
        assert(out@ =~= "/"@ + join_with(ps.take(0), "/"@));
    }
    while i < parts.len()
        invariant
            i <= parts.len(),
            ps == views_of(parts@),
            out@ == "/"@ + join_with(ps.take(i as int), "/"@),
        decreases parts.len() - i,
    {
        if i > 0 {
            out.append("/");
        }
        let piece = string_of(&parts[i]);
        out.append(piece.as_str());
        assert(ps.take(i + 1).drop_last() =~= ps.take(i as int));
        assert(ps.take(i + 1).last() == ps[i as int]);
        assert(i == 0 ==> ps.take(i + 1) =~= seq![ps[0]]);
        i = i + 1;
    }
    assert(ps.take(parts.len() as int) =~= ps);
    out
}


/// The `.zshrc` shown by the static site map.
pub const ZSHRC_CONTENT: &'static str = "# Simple zsh configuration\nunsetopt beep\n\n# Basic completion\nautoload -Uz compinit\ncompinit\n\n# plugins\nplugins = (zsh-autosuggestions, zsh-history-substring-search)\n\n# Aliases\nalias ll='ls -la'\nalias la='ls -a'\nalias h='history'\n\n# robbyrussell theme prompt\n# Arrow changes color based on exit status, directory in cyan, git status\nPROMPT='%(?:%{$fg_bold[green]%}➜ :%{$fg_bold[red]%}➜ )%{$fg[cyan]%}%c%{$reset_color%} $(git_prompt_info)'\n\nZSH_THEME_GIT_PROMPT_PREFIX=\"%{$fg_bold[blue]%}git:(%{$fg[red]%}\"\nZSH_THEME_GIT_PROMPT_SUFFIX=\"%{$reset_color%} \"\nZSH_THEME_GIT_PROMPT_DIRTY=\"%{$fg[blue]%}) %{$fg[yellow]%}✗\"\nZSH_THEME_GIT_PROMPT_CLEAN=\"%{$fg[blue]%})\"\n\n# History settings\nHISTFILE=window.localStorage[\\\"cmd_history\\\"]\nHISTSIZE=1000\nSAVEHIST=1000\nsetopt SHARE_HISTORY\nsetopt APPEND_HISTORY\n\n# zsh-history-substring-search configuration\nbindkey '^[[A' history-substring-search-up # or '\\eOA'\nbindkey '^[[B' history-substring-search-down # or '\\eOB'\nHISTORY_SUBSTRING_SEARCH_ENSURE_UNIQUE=1\nHISTORY_SUBSTRING_SEARCH_HIGHLIGHT_FOUND=0\nHISTORY_SUBSTRING_SEARCH_HIGHLIGHT_NOT_FOUND=0\n";

/// A directory of the static site map.
#[derive(Debug, Clone)]
pub enum Dir {
    Base,
    Blog,
    CV,
    BlogPost(String),
}

/// A file of the static site map.
#[derive(Debug, Clone)]
pub enum File {
    MinesSh,
    ThanksTxt,
    ZshRc,
    Nav(String),
}

/// What a path of the static site map names.
#[derive(Debug, Clone)]
pub enum Target {
    Dir(Dir),
    File(File),
    Invalid,
}

/// A name in a directory and what it names.
#[derive(Debug, Clone)]
pub struct DirContentItem(pub String, pub Target);

pub enum DirV {
    Base,
    Blog,
    CV,
    BlogPost(Seq<char>),
}

pub enum FileV {
    MinesSh,
    ThanksTxt,
    ZshRc,
    Nav(Seq<char>),
}

pub enum TargetV {
    Dir(DirV),
    File(FileV),
    Invalid,
}

impl View for Dir {
    type V = DirV;

    open spec fn view(&self) -> DirV {
        match self {
            Dir::Base => DirV::Base,
            Dir::Blog => DirV::Blog,
            Dir::CV => DirV::CV,
            Dir::BlogPost(s) => DirV::BlogPost(s@),
        }
    }
}

impl View for File {
    type V = FileV;

    open spec fn view(&self) -> FileV {
        match self {
            File::MinesSh => FileV::MinesSh,
            File::ThanksTxt => FileV::ThanksTxt,
            File::ZshRc => FileV::ZshRc,
            File::Nav(s) => FileV::Nav(s@),
        }
    }
}

impl View for Target {
    type V = TargetV;

    open spec fn view(&self) -> TargetV {
        match self {
            Target::Dir(d) => TargetV::Dir(d@),
            Target::File(f) => TargetV::File(f@),
            Target::Invalid => TargetV::Invalid,
        }
    }
}

impl View for DirContentItem {
    type V = (Seq<char>, TargetV);

    open spec fn view(&self) -> (Seq<char>, TargetV) {
        (self.0@, self.1@)
    }
}

impl Keyed for DirContentItem {
    open spec fn key(&self) -> Seq<char> {
        self.0@
    }

    fn key_str(&self) -> (r: &str) {
        self.0.as_str()
    }
}

/// The directory entry of a blog post.
pub open spec fn post_item() -> spec_fn(Seq<char>) -> (Seq<char>, TargetV) {
    |bp: Seq<char>| (bp, TargetV::Dir(DirV::BlogPost(bp)))
}

/// The name of a directory entry, by which listings are sorted.
pub open spec fn entry_key() -> spec_fn((Seq<char>, TargetV)) -> Seq<char> {
    |x: (Seq<char>, TargetV)| x.0
}

pub open spec fn item_views(v: Seq<DirContentItem>) -> Seq<(Seq<char>, TargetV)> {
    v.map_values(|x: DirContentItem| x@)
}

/// The entries of each directory of the site map, before sorting; with
/// `all`, the `.`/`..` entries and hidden files too.
pub open spec fn spec_dir_items(d: DirV, posts: Seq<Seq<char>>, all: bool) -> Seq<(Seq<char>, TargetV)> {
    match d {
        DirV::Base => seq![
            ("blog"@, TargetV::Dir(DirV::Blog)),
            ("cv"@, TargetV::Dir(DirV::CV)),
            ("mines.sh"@, TargetV::File(FileV::MinesSh)),
            ("thanks.txt"@, TargetV::File(FileV::ThanksTxt)),
            ("nav.rs"@, TargetV::File(FileV::Nav("/"@))),
        ] + (if all {
            seq![
                ("."@, TargetV::Dir(DirV::Base)),
                (".."@, TargetV::Dir(DirV::Base)),
                (".zshrc"@, TargetV::File(FileV::ZshRc)),
            ]
        } else {
            Seq::empty()
        }),
        DirV::Blog => posts.map_values(post_item())
            + seq![("nav.rs"@, TargetV::File(FileV::Nav("/blog"@)))] + (if all {
            seq![("."@, TargetV::Dir(DirV::Blog)), (".."@, TargetV::Dir(DirV::Base))]
        } else {
            Seq::empty()
        }),
        DirV::CV => seq![("nav.rs"@, TargetV::File(FileV::Nav("/cv"@)))] + (if all {
            seq![("."@, TargetV::Dir(DirV::Blog)), (".."@, TargetV::Dir(DirV::CV))]
        } else {
            Seq::empty()
        }),
        DirV::BlogPost(bp) => seq![(bp, TargetV::Dir(DirV::BlogPost(bp)))] + (if all {
            seq![("."@, TargetV::Dir(DirV::BlogPost(bp))), (".."@, TargetV::Dir(DirV::Blog))]
        } else {
            Seq::empty()
        }),
    }
}

/// The site path of a directory.
pub open spec fn spec_dir_base(d: DirV) -> Seq<char> {
    match d {
        DirV::Base => "/"@,
        DirV::Blog => "/blog"@,
        DirV::CV => "/cv"@,
        DirV::BlogPost(s) => "/blog/"@ + s,
    }
}

fn item(name: &str, t: Target) -> (r: DirContentItem)
    ensures
        r@ == (name@, t@),
{
    DirContentItem(String::from_str(name), t)
}

impl Dir {
    /// The entries of this directory sorted by name.
    pub fn contents(&self, blog_posts: &[String], all: bool) -> (r: Vec<DirContentItem>)
        ensures
            item_views(r@) == stable_sort(spec_dir_items(self@, blog_posts@.map_values(|p: String| p@), all), entry_key()),
            sorted_by_key(r@),
            item_views(r@).to_multiset() == spec_dir_items(self@, blog_posts@.map_values(|p: String| p@), all).to_multiset(),
    {
        let ghost posts = blog_posts@.map_values(|p: String| p@);
        let mut items: Vec<DirContentItem> = Vec::new();
        match self {
            Dir::Base => {
                items.push(item("blog", Target::Dir(Dir::Blog)));
                items.push(item("cv", Target::Dir(Dir::CV)));
                items.push(item("mines.sh", Target::File(File::MinesSh)));
                items.push(item("thanks.txt", Target::File(File::ThanksTxt)));
                items.push(item("nav.rs", Target::File(File::Nav(String::from_str("/")))));
                if all {
                    items.push(item(".", Target::Dir(Dir::Base)));
                    items.push(item("..", Target::Dir(Dir::Base)));
                    items.push(item(".zshrc", Target::File(File::ZshRc)));
                }
            },
            Dir::Blog => {
                let mut i: usize = 0;
                while i < blog_posts.len()
                    invariant
                        i <= blog_posts.len(),
                        posts == blog_posts@.map_values(|p: String| p@),
                        item_views(items@) == posts.take(i as int).map_values(post_item()),
                    decreases blog_posts.len() - i,
                {
                    let bp = &blog_posts[i];
                    let ghost old_items = items@;
                    let it = item(bp.as_str(), Target::Dir(Dir::BlogPost(bp.clone())));
                    items.push(it);
                    proof {
                        assert(items@ == old_items.push(it));
                        assert(item_views(items@) =~= item_views(old_items).push(it@));
                        assert(posts.take(i + 1) =~= posts.take(i as int).push(bp@));
                        assert(item_views(items@) =~= posts.take(i + 1).map_values(post_item()));
                    }
                    i = i + 1;
                }
                assert(posts.take(blog_posts.len() as int) =~= posts);
                items.push(item("nav.rs", Target::File(File::Nav(String::from_str("/blog")))));
                if all {
                    items.push(item(".", Target::Dir(Dir::Blog)));
                    items.push(item("..", Target::Dir(Dir::Base)));
                }
            },
            Dir::CV => {
                items.push(item("nav.rs", Target::File(File::Nav(String::from_str("/cv")))));
                if all {
                    items.push(item(".", Target::Dir(Dir::Blog)));
                    items.push(item("..", Target::Dir(Dir::CV)));
                }
            },
            Dir::BlogPost(bp) => {
                items.push(item(bp.as_str(), Target::Dir(Dir::BlogPost(bp.clone()))));
                if all {
                    items.push(item(".", Target::Dir(Dir::BlogPost(bp.clone()))));
                    items.push(item("..", Target::Dir(Dir::Blog)));
                }
            },
        }
        proof {
            assert(item_views(items@) =~= spec_dir_items(self@, posts, all));
        }
        let ghost u = items@;
        let r = sort_by_key(items);
        proof {
            lemma_multiset_map(r@, u, |x: DirContentItem| x@);
            lemma_sort_map(u, key_of::<DirContentItem>(), |x: DirContentItem| x@, entry_key());
            assert(item_views(r@) =~= stable_sort(u, key_of::<DirContentItem>()).map_values(|x: DirContentItem| x@));
            assert(u.map_values(|x: DirContentItem| x@) =~= item_views(u));
        }
        r
    }

    /// The site path of this directory.
    pub fn base(&self) -> (r: String)
        ensures
            r@ == spec_dir_base(self@),
    {
        match self {
            Dir::Base => String::from_str("/"),
            Dir::Blog => String::from_str("/blog"),
            Dir::CV => String::from_str("/cv"),
            Dir::BlogPost(s) => {
                let mut r = String::from_str("/blog/");
                r.append(s.as_str());
                r
            },
        }
    }
}

pub open spec fn spec_file_name(f: FileV) -> Seq<char> {
    match f {
        FileV::MinesSh => "mines.sh"@,
        FileV::ThanksTxt => "thanks.txt"@,
        FileV::ZshRc => ".zshrc"@,
        FileV::Nav(_) => "nav.rs"@,
    }
}

pub open spec fn spec_file_contents(f: FileV) -> Seq<char> {
    match f {
        FileV::MinesSh => MINES_SH@,
        FileV::ThanksTxt => THANKS_TXT@,
        FileV::ZshRc => ZSHRC_CONTENT@,
        FileV::Nav(s) => spec_nav_content(s),
    }
}

impl File {
    pub fn name(&self) -> (r: &'static str)
        ensures
            r@ == spec_file_name(self@),
    {
        match self {
            File::MinesSh => "mines.sh",
            File::ThanksTxt => "thanks.txt",
            File::ZshRc => ".zshrc",
            File::Nav(_) => "nav.rs",
        }
    }

    pub fn contents(&self) -> (r: String)
        ensures
            r@ == spec_file_contents(self@),
    {
        match self {
            File::MinesSh => String::from_str(MINES_SH),
            File::ThanksTxt => String::from_str(THANKS_TXT),
            File::ZshRc => String::from_str(ZSHRC_CONTENT),
            File::Nav(s) => generate_nav_content(s.as_str()),
        }
    }
}

/// A name with a leading `/blog/` taken off, if it has one.
pub open spec fn strip_blog_prefix(name: Seq<char>) -> Seq<char> {
    if seq_starts_with(name, "/blog/"@) {
        name.skip("/blog/"@.len() as int)
    } else {
        name
    }
}

/// The part of `s` after its last `/` (all of `s` when it has none).
pub open spec fn last_segment(s: Seq<char>) -> Seq<char>
    decreases s.len(),
{
    if s.len() == 0 {
        s
    } else if s.last() == '/' {
        Seq::empty()
    } else {
        last_segment(s.drop_last()).push(s.last())
    }
}

pub proof fn lemma_last_segment(s: Seq<char>, i: int)
    requires
        0 <= i < s.len(),
        s[i] == '/',
        forall|j: int| i < j < s.len() ==> s[j] != '/',
    ensures
        last_segment(s) == s.skip(i + 1),
    decreases s.len(),
{
    if i == s.len() - 1 {
        assert(s.skip(i + 1) =~= Seq::<char>::empty());
    } else {
        lemma_last_segment(s.drop_last(), i);
        assert(s.skip(i + 1) =~= s.drop_last().skip(i + 1).push(s.last()));
    }
}

proof fn lemma_last_segment_none(s: Seq<char>)
    requires
        forall|j: int| 0 <= j < s.len() ==> s[j] != '/',
    ensures
        last_segment(s) == s,
    decreases s.len(),
{
    if s.len() > 0 {
        lemma_last_segment_none(s.drop_last());
        assert(s =~= s.drop_last().push(s.last()));
    }
}

/// The part of `s` after its last `/`.
pub(crate) fn last_segment_of(s: &str) -> (r: &str)
    ensures
        r@ == last_segment(s@),
{
    let n = s.unicode_len();
    match crate::text::rfind_char(s, '/') {
        Some(i) => {
            proof {
                lemma_last_segment(s@, i as int);
            }
            skip_chars(s, i + 1)
        },
        None => {
            proof {
                lemma_last_segment_none(s@);
            }
            s
        },
    }
}

/// Whether `name`, with or without a leading `/blog/`, is a blog post.
fn blog_post_exists(name: &str, blog_posts: &[String]) -> (r: bool)
    ensures
        r == names_of(blog_posts@).contains(strip_blog_prefix(name@)),
{
    let prefix = "/blog/";
    let key = if starts_with(name, prefix) {
        skip_chars(name, prefix.unicode_len())
    } else {
        name
    };
    assert(key@ == strip_blog_prefix(name@));
    let ghost posts = names_of(blog_posts@);
    let mut i: usize = 0;
    while i < blog_posts.len()
        invariant
            i <= blog_posts.len(),
            posts == names_of(blog_posts@),
            key@ == strip_blog_prefix(name@),
            forall|k: int| 0 <= k < i ==> posts[k] != key@,
        decreases blog_posts.len() - i,
    {
        if str_eq(blog_posts[i].as_str(), key) {
            assert(posts[i as int] == key@);
            return true;
        }
        i = i + 1;
    }
    false
}

/// What a path of the static site map names.
pub open spec fn spec_target_from(path: Seq<char>, posts: Seq<Seq<char>>) -> TargetV {
    let nav = "/nav.rs"@;
    if path == "/"@ {
        TargetV::Dir(DirV::Base)
    } else if path == "/blog"@ {
        TargetV::Dir(DirV::Blog)
    } else if path == "/cv"@ {
        TargetV::Dir(DirV::CV)
    } else if seq_starts_with(path, "/blog/"@) && posts.contains(strip_blog_prefix(path)) {
        TargetV::Dir(DirV::BlogPost(last_segment(path)))
    } else if path == "/mines.sh"@ {
        TargetV::File(FileV::MinesSh)
    } else if path == "/thanks.txt"@ {
        TargetV::File(FileV::ThanksTxt)
    } else if path == "/.zshrc"@ {
        TargetV::File(FileV::ZshRc)
    } else if path == "/nav.rs"@ {
        TargetV::File(FileV::Nav("/"@))
    } else if path == "/blog/nav.rs"@ || path == "/cv/nav.rs"@ {
        TargetV::File(FileV::Nav(path.take(path.len() - nav.len())))
    } else if seq_starts_with(path, "/blog/"@) && seq_ends_with(path, nav) && posts.contains(
        strip_blog_prefix(path.take(path.len() - nav.len())),
    ) {
        TargetV::File(FileV::Nav(path.take(path.len() - nav.len())))
    } else {
        TargetV::Invalid
    }
}

/// Whether a target can be run: `mines.sh` and the `nav.rs` files.
pub open spec fn target_executable(t: TargetV) -> bool {
    t matches TargetV::File(FileV::MinesSh) || t matches TargetV::File(FileV::Nav(_))
}

impl Target {
    /// What `path`, an absolute path of the site map, names.
    pub fn from_str(path: &str, blog_posts: &[String]) -> (r: Target)
        ensures
            r@ == spec_target_from(path@, names_of(blog_posts@)),
    {
        let nav = "/nav.rs";
        if str_eq(path, "/") {
            Target::Dir(Dir::Base)
        } else if str_eq(path, "/blog") {
            Target::Dir(Dir::Blog)
        } else if str_eq(path, "/cv") {
            Target::Dir(Dir::CV)
        } else if starts_with(path, "/blog/") && blog_post_exists(path, blog_posts) {
            Target::Dir(Dir::BlogPost(String::from_str(last_segment_of(path))))
        } else if str_eq(path, "/mines.sh") {
            Target::File(File::MinesSh)
        } else if str_eq(path, "/thanks.txt") {
            Target::File(File::ThanksTxt)
        } else if str_eq(path, "/.zshrc") {
            Target::File(File::ZshRc)
        } else if str_eq(path, "/nav.rs") {
            Target::File(File::Nav(String::from_str("/")))
        } else if str_eq(path, "/blog/nav.rs") || str_eq(path, "/cv/nav.rs") {
            proof {
                reveal_strlit("/blog/nav.rs");
                reveal_strlit("/cv/nav.rs");
                reveal_strlit("/nav.rs");
            }
            let n = path.unicode_len();
            Target::File(File::Nav(String::from_str(take_chars(path, n - nav.unicode_len()))))
        } else if starts_with(path, "/blog/") && ends_with(path, nav) {
            let n = path.unicode_len();
            let dir = take_chars(path, n - nav.unicode_len());
            if blog_post_exists(dir, blog_posts) {
                Target::File(File::Nav(String::from_str(dir)))
            } else {
                Target::Invalid
            }
        } else {
            Target::Invalid
        }
    }

    /// Whether the target can be run: `mines.sh` and the `nav.rs` files.
    pub fn is_executable(&self) -> (r: bool)
        ensures
            r == target_executable(self@),
    {
        match self {
            Target::File(File::MinesSh) => true,
            Target::File(File::Nav(_)) => true,
            _ => false,
        }
    }
}

} // verus!
