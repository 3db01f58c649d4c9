use std::collections::VecDeque;

use indextree::NodeId;
use vstd::prelude::*;

use crate::command::{alias_body, alias_name, spec_cmd_of, Cmd, CmdAlias, CommandRes};
use crate::cp_mv_tools::{cp_result, mv_result};
use crate::fs::strs_view;
use crate::fs_tools::{
    cat_result, cd_result, ls_result, mkdir_result, rm_result, touch_result, CatCommand,
    CdCommand, CpCommand, LsCommand, MkdirCommand, MvCommand, RmCommand, TouchCommand,
};
use crate::ps_tools::{kill_result, ps_result, KillCommand, Process, PsCommand};
use crate::simple_tools::{
    date_result, echo_result, history_result, pwd_result, strs_of, whoami_result, ClearCommand,
    DateCommand, EchoCommand, HelpCommand, HistoryCommand, MinesCommand, NeofetchCommand,
    PwdCommand, SudoCommand, WhoAmICommand, HELP_TEXT, MINES_URL,
};
use crate::system_tools::{unknown_result, which_result, UnknownCommand, WhichCommand};
use crate::fs_tools::hidden_name;
use crate::sort::{key_of, lemma_sort_map, sort_by_key, stable_sort, Keyed};
use crate::text::{
    chars_of, concat, contains_char, ends_with, last_index_of, names_of, rfind_char,
    seq_ends_with, seq_starts_with, skip_chars, split_words, starts_with, str_eq, string_of, take_chars, trim, trim_ws, words,
};
use crate::vfs::{
    initial_layout, list_error, spec_listing, spec_resolve_path, DirEntry, FsModel, VfsError,
    VirtualFilesystem,
};

verus! {

/// The aliases, in the order they are tried.
pub open spec fn aliases() -> Seq<CmdAlias> {
    seq![CmdAlias::Ll, CmdAlias::La, CmdAlias::H]
}

/// The expansion of the first alias (from `k` on) that the trimmed input
/// `t` is, or starts with followed by a space; `None` when there is none.
pub open spec fn alias_from(t: Seq<char>, k: int) -> Option<Seq<char>>
    decreases 3 - k,
{
    if k < 0 || k >= 3 {
        None
    } else {
        let a = aliases()[k];
        let name = alias_name(a);
        if seq_starts_with(t, name) && t == name {
            Some(alias_body(a))
        } else if seq_starts_with(t, name) && seq_starts_with(t, name + " "@) {
            Some(alias_body(a) + t.skip(name.len() as int))
        } else {
            alias_from(t, k + 1)
        }
    }
}

/// The input with an alias at its start expanded (its arguments follow
/// the expansion); input without an alias is kept as typed.
pub open spec fn spec_process_aliases(input: Seq<char>) -> Seq<char> {
    match alias_from(trim_ws(input), 0) {
        Some(e) => e,
        None => input,
    }
}

/// Expands an alias at the start of the input.
pub fn process_aliases(input: &str) -> (r: String)
    ensures
        r@ == spec_process_aliases(input@),
{
    let trimmed = trim(input);
    let all = CmdAlias::all();
    let mut k: usize = 0;
    while k < all.len()
        invariant
            all@ == aliases(),
            k <= 3,
            trimmed@ == trim_ws(input@),
            alias_from(trimmed@, 0) == alias_from(trimmed@, k as int),
        decreases 3 - k,
    {
        let alias = &all[k];
        let name = alias.as_str();
        if starts_with(trimmed, name) {
            if str_eq(trimmed, name) {
                proof {
                    reveal_strlit("");
                    assert(""@ =~= Seq::<char>::empty());
                }
                let r = alias.expand("");
                assert(r@ =~= alias_body(*alias));
                return r;
            }
            let with_space = concat(name, " ");
            if starts_with(trimmed, with_space.as_str()) {
                let n = name.unicode_len();
                let rest = crate::text::skip_chars(trimmed, n);
                return alias.expand(rest);
            }
        }
        k = k + 1;
    }
    String::from_str(input)
}

/// Whether a character is alphanumeric, as `char::is_alphanumeric` (Unicode's
/// `Alphabetic` or `Numeric`) says.
pub uninterp spec fn is_alnum(c: char) -> bool;

/// `char::is_alphanumeric`.
#[verifier::external_body]
fn char_is_alphanumeric(c: char) -> (r: bool)
    ensures
        r == is_alnum(c),
{
    c.is_alphanumeric()
}

/// A character that may stand in a variable name.
pub open spec fn name_char(c: char) -> bool {
    is_alnum(c) || c == '_'
}

/// The length of the variable name at the start of `s`.
pub open spec fn name_len(s: Seq<char>) -> nat
    decreases s.len(),
{
    if s.len() > 0 && name_char(s[0]) {
        1 + name_len(s.drop_first())
    } else {
        0
    }
}

/// The first position of `c` in `s`.
pub open spec fn first_index_of(s: Seq<char>, c: char) -> Option<nat>
    decreases s.len(),
{
    if s.len() == 0 {
        None
    } else if s[0] == c {
        Some(0)
    } else {
        match first_index_of(s.drop_first(), c) {
            Some(i) => Some(i + 1),
            None => None,
        }
    }
}

/// `str::replace`: every match of `pat` in `s`, left to right and not
/// overlapping, replaced by `with`.
pub open spec fn replace_all(s: Seq<char>, pat: Seq<char>, with: Seq<char>) -> Seq<char>
    decreases s.len(),
{
    if pat.len() == 0 || s.len() < pat.len() {
        s
    } else if s.take(pat.len() as int) == pat {
        with + replace_all(s.skip(pat.len() as int), pat, with)
    } else {
        seq![s[0]] + replace_all(s.drop_first(), pat, with)
    }
}

/// The value of variable `name`: `PWD` is the current path, the others
/// come from `vars` (the first pair with that name).
pub open spec fn var_value(vars: Seq<(Seq<char>, Seq<char>)>, path: Seq<char>, name: Seq<char>) -> Option<Seq<char>>
    decreases vars.len(),
{
    if name == "PWD"@ {
        Some(path)
    } else if vars.len() == 0 {
        None
    } else if vars[0].0 == name {
        Some(vars[0].1)
    } else {
        var_value(vars.drop_first(), path, name)
    }
}

/// One round of expansion: the variable named after the first `$` is
/// replaced, everywhere it is referred to, by its value (or by nothing).
pub open spec fn expand_round(s: Seq<char>, vars: Seq<(Seq<char>, Seq<char>)>, path: Seq<char>) -> Seq<char> {
    match first_index_of(s, '$') {
        None => s,
        Some(start) => {
            let rest = s.skip((start + 1) as int);
            let name = rest.take(name_len(rest) as int);
            let value = match var_value(vars, path, name) {
                Some(v) => v,
                None => Seq::empty(),
            };
            replace_all(s, seq!['$'] + name, value)
        },
    }
}

/// Expansion of `$` variables, at most `fuel` rounds, stopping once no
/// `$` is left.
pub open spec fn expand_vars(s: Seq<char>, vars: Seq<(Seq<char>, Seq<char>)>, path: Seq<char>, fuel: nat) -> Seq<char>
    decreases fuel,
{
    if fuel == 0 || first_index_of(s, '$') is None {
        s
    } else {
        expand_vars(expand_round(s, vars, path), vars, path, (fuel - 1) as nat)
    }
}

/// The number of `$` characters in `s`.
pub open spec fn dollars(s: Seq<char>) -> nat
    decreases s.len(),
{
    if s.len() == 0 {
        0
    } else {
        (if s[0] == '$' {
            1nat
        } else {
            0nat
        }) + dollars(s.drop_first())
    }
}

/// The number of `$` characters in `s`.
fn count_dollars(s: &str) -> (r: usize)
    ensures
        r == dollars(s@),
{
    let n = s.unicode_len();
    let mut fuel: usize = 0;
    let mut k: usize = 0;
    assert(s@.skip(0) =~= s@);
    while k < n
        invariant
            n == s@.len(),
            k <= n,
            fuel <= k,
            dollars(s@) == fuel + dollars(s@.skip(k as int)),
        decreases n - k,
    {
        assert(s@.skip(k as int).drop_first() =~= s@.skip(k + 1));
        if s.get_char(k) == '$' {
            fuel = fuel + 1;
        }
        k = k + 1;
    }
    assert(s@.skip(k as int) =~= Seq::<char>::empty());
    fuel
}

/// Expanding `a` rounds, then `b` more, is expanding `a + b` rounds.
proof fn lemma_expand_vars_add(s: Seq<char>, vars: Seq<(Seq<char>, Seq<char>)>, path: Seq<char>, a: nat, b: nat)
    ensures
        expand_vars(s, vars, path, a + b) == expand_vars(expand_vars(s, vars, path, a), vars, path, b),
    decreases a,
{
    if a > 0 && first_index_of(s, '$') is Some {
        lemma_expand_vars_add(expand_round(s, vars, path), vars, path, (a - 1) as nat, b);
        assert((a + b - 1) as nat == ((a - 1) as nat + b));
    } else if a > 0 {
        assert(expand_vars(s, vars, path, b) == s);
    }
}

/// The first position of `c` in `s`, if any.
pub fn find_char(s: &str, c: char) -> (r: Option<usize>)
    ensures
        match r {
            Some(i) => first_index_of(s@, c) == Some(i as nat),
            None => first_index_of(s@, c) is None,
        },
{
    let n = s.unicode_len();
    let mut i: usize = 0;
    while i < n
        invariant
            n == s@.len(),
            i <= n,
            forall|k: int| 0 <= k < i ==> s@[k] != c,
        decreases n - i,
    {
        if s.get_char(i) == c {
            proof {
                lemma_first_index(s@, c, i as int);
            }
            return Some(i);
        }
        i = i + 1;
    }
    proof {
        lemma_first_index_none(s@, c);
    }
    None
}

proof fn lemma_first_index(s: Seq<char>, c: char, i: int)
    requires
        0 <= i < s.len(),
        s[i] == c,
        forall|k: int| 0 <= k < i ==> s[k] != c,
    ensures
        first_index_of(s, c) == Some(i as nat),
    decreases i,
{
    if i > 0 {
        lemma_first_index(s.drop_first(), c, i - 1);
    }
}

proof fn lemma_first_index_none(s: Seq<char>, c: char)
    requires
        forall|k: int| 0 <= k < s.len() ==> s[k] != c,
    ensures
        first_index_of(s, c) is None,
    decreases s.len(),
{
    if s.len() > 0 {
        lemma_first_index_none(s.drop_first(), c);
    }
}

/// The length of the variable name at the start of `s`.
fn name_length(s: &Vec<char>, from: usize) -> (r: usize)
    requires
        from <= s@.len(),
    ensures
        r == name_len(s@.skip(from as int)),
        from + r <= s@.len(),
{
    let mut i: usize = from;
    while i < s.len() && (char_is_alphanumeric(s[i]) || s[i] == '_')
        invariant
            from <= i <= s@.len(),
            name_len(s@.skip(from as int)) == (i - from) + name_len(s@.skip(i as int)),
        decreases s@.len() - i,
    {
        assert(s@.skip(i as int).drop_first() =~= s@.skip(i + 1));
        i = i + 1;
    }
    i - from
}

/// `str::replace` with a non-empty pattern.
pub fn replace_str(s: &Vec<char>, pat: &Vec<char>, with: &Vec<char>) -> (r: Vec<char>)
    requires
        pat@.len() > 0,
    ensures
        r@ == replace_all(s@, pat@, with@),
{
    let n = s.len();
    let m = pat.len();
    let mut out: Vec<char> = Vec::new();
    let mut i: usize = 0;
    assert(s@.skip(0) =~= s@);
    assert(out@ + replace_all(s@, pat@, with@) =~= replace_all(s@, pat@, with@));
    while i < n
        invariant
            n == s@.len(),
            m == pat@.len(),
            m > 0,
            i <= n,
            out@ + replace_all(s@.skip(i as int), pat@, with@) == replace_all(s@, pat@, with@),
        ensures
            i <= n,
            n - i < m,
            out@ + replace_all(s@.skip(i as int), pat@, with@) == replace_all(s@, pat@, with@),
        decreases n - i,
    {
        let ghost rest = s@.skip(i as int);
        if n - i < m {
            break;
        }
        let mut k: usize = 0;
        while k < m && s[i + k] == pat[k]
            invariant
                i + m <= n,
                n == s@.len(),
                m == pat@.len(),
                k <= m,
                forall|q: int| 0 <= q < k ==> s@[i + q] == pat@[q],
            decreases m - k,
        {
            k = k + 1;
        }
        if k == m {
            assert(rest.take(m as int) =~= pat@);
            assert(rest.skip(m as int) =~= s@.skip(i + m));
            let mut j: usize = 0;
            let ghost before = out@;
            while j < with.len()
                invariant
                    j <= with@.len(),
                    out@ == before + with@.take(j as int),
                decreases with@.len() - j,
            {
                out.push(with[j]);
                assert(with@.take(j + 1) =~= with@.take(j as int).push(with@[j as int]));
                j = j + 1;
            }
            assert(with@.take(j as int) =~= with@);
            assert(out@ + replace_all(s@.skip(i + m), pat@, with@) =~= before + (with@ + replace_all(rest.skip(m as int), pat@, with@)));
            i = i + m;
        } else {
            assert(rest.take(m as int) != pat@) by {
                assert(rest.take(m as int)[k as int] == s@[i + k]);
            }
            assert(rest.drop_first() =~= s@.skip(i + 1));
            let ghost before = out@;
            out.push(s[i]);
            assert(out@ + replace_all(s@.skip(i + 1), pat@, with@) =~= before + (seq![rest[0]] + replace_all(rest.drop_first(), pat@, with@)));
            i = i + 1;
        }
    }
    let ghost rest = s@.skip(i as int);
    let mut j: usize = i;
    let ghost before = out@;
    while j < n
        invariant
            i <= j <= n,
            n == s@.len(),
            out@ == before + s@.subrange(i as int, j as int),
        decreases n - j,
    {
        out.push(s[j]);
        assert(s@.subrange(i as int, j + 1) =~= s@.subrange(i as int, j as int).push(s@[j as int]));
        j = j + 1;
    }
    assert(s@.subrange(i as int, n as int) =~= rest);
    assert(replace_all(rest, pat@, with@) == rest);
    out
}

} // verus!

verus! {

/// How many commands the history keeps.
pub const HISTORY_SIZE: usize = 1000;

/// The version shown in `$VERSION`.
pub const VERSION: &'static str = "0.1.0";

/// A candidate offered by tab completion.
#[derive(Debug, Clone)]
pub struct TabCompletionItem {
    pub completion_text: String,
    pub is_directory: bool,
    pub is_executable: bool,
}

/// The variables a new terminal starts with.
pub open spec fn default_vars() -> Seq<(Seq<char>, Seq<char>)> {
    seq![("USER"@, "user"@), ("HOME"@, "/"@), ("SITE"@, "hansbaker.com"@), ("VERSION"@, VERSION@)]
}

/// One process of the initial list.
pub open spec fn is_proc(p: Process, pid: u32, user: Seq<char>, cpu: u32, mem: u32, command: Seq<char>) -> bool {
    p.pid == pid && p.user@ == user && p.cpu_tenths == cpu && p.mem_tenths == mem && p.command@ == command
}

/// The processes a new terminal shows.
pub open spec fn is_initial_processes(ps: Seq<Process>) -> bool {
    &&& ps.len() == 5
    &&& is_proc(ps[0], 1, "root"@, 23, 152, "leptos-server"@)
    &&& is_proc(ps[1], 42, "app"@, 1, 87, "blog-renderer"@)
    &&& is_proc(ps[2], 99, "app"@, 2, 31, "terminal-sim"@)
    &&& is_proc(ps[3], 128, "app"@, 0, 25, "wasm-hydrator"@)
    &&& is_proc(ps[4], 256, "app"@, 0, 18, "rss-generator"@)
}

/// The history after `input` is recorded: appended, the oldest entry
/// dropped beyond the limit.
pub open spec fn record(h: Seq<Seq<char>>, input: Seq<char>) -> Seq<Seq<char>> {
    let h2 = h.push(input);
    if h2.len() > HISTORY_SIZE {
        h2.drop_first()
    } else {
        h2
    }
}

/// The input with aliases and variables expanded.
pub open spec fn expanded_input(vars: Seq<(Seq<char>, Seq<char>)>, path: Seq<char>, input: Seq<char>) -> Seq<char> {
    let al = spec_process_aliases(input);
    expand_vars(al, vars, path, dollars(al) + dollars(path))
}

/// The directory a command runs in: the one `path` names, or the root.
pub open spec fn current_node(m: FsModel, path: Seq<char>) -> NodeId {
    match spec_resolve_path(m, m.root, path) {
        Ok(n) => n,
        Err(_) => m.root,
    }
}

/// What command `cmd`, run with `args` in `cur` (at `path`) on `a`,
/// answers and leaves; `word` is the command word and `h` the history.
pub open spec fn command_result(
    r: CommandRes,
    a: FsModel,
    b: FsModel,
    cur: NodeId,
    path: Seq<char>,
    cmd: Cmd,
    word: Seq<char>,
    args: Seq<Seq<char>>,
    h: Seq<Seq<char>>,
    procs: Seq<Process>,
) -> bool {
    match cmd {
        Cmd::Ls => ls_result(r, a, cur, args, true) && b == a,
        Cmd::Cd => cd_result(r, a, cur, args) && b == a,
        Cmd::Cat => cat_result(r, a, cur, args) && b == a,
        Cmd::Touch => touch_result(r, a, b, cur, args),
        Cmd::MkDir => mkdir_result(r, a, b, cur, args),
        Cmd::Rm => rm_result(r, a, b, cur, args),
        Cmd::Which => which_result(r, a, cur, args) && b == a,
        Cmd::Cp => cp_result(r, a, b, cur, args),
        Cmd::Mv => mv_result(r, a, b, cur, args),
        Cmd::Help => r.is_success_text(HELP_TEXT@) && b == a,
        Cmd::Pwd => pwd_result(r, path, args.len()) && b == a,
        Cmd::WhoAmI => whoami_result(r, args.len()) && b == a,
        Cmd::Clear => r.is_empty_output() && b == a,
        Cmd::Neofetch => r.is_success_text(Seq::empty()) && b == a,
        Cmd::Mines => r.redirect_target() == Some(MINES_URL@) && b == a,
        Cmd::Sudo => r.is_failure("user is not in the sudoers file. This incident will be reported."@) && b == a,
        Cmd::Echo => echo_result(r, args) && b == a,
        Cmd::Date => date_result(r, args) && b == a,
        Cmd::Uptime => r.is_empty_output() && b == a,
        Cmd::Ps => ps_result(r, procs, args) && b == a,
        Cmd::Kill => kill_result(r, procs.map_values(|p: Process| p.pid), args) && b == a,
        Cmd::History => history_result(r, h, args) && b == a,
        Cmd::Unknown => unknown_result(r, a, cur, word, args) && b == a,
    }
}

/// What the terminal answers for `input` typed at `path`, and what it
/// leaves: blank input is ignored; otherwise the input is recorded in the
/// history, aliases and variables are expanded, and the first word picks
/// the command, which runs on the other words in the directory `path`
/// names. `history -c` empties the history.
pub open spec fn terminal_result(
    r: CommandRes,
    a: FsModel,
    b: FsModel,
    h1: Seq<Seq<char>>,
    h2: Seq<Seq<char>>,
    vars: Seq<(Seq<char>, Seq<char>)>,
    procs: Seq<Process>,
    path: Seq<char>,
    input: Seq<char>,
) -> bool {
    if trim_ws(input).len() == 0 {
        r.is_empty_output() && b == a && h2 == h1
    } else {
        let h = record(h1, input);
        let ws = words(expanded_input(vars, path, input));
        if ws.len() == 0 {
            r.is_empty_output() && b == a && h2 == h
        } else {
            let cmd = spec_cmd_of(ws[0]);
            let args = ws.drop_first();
            if cmd is History && args == seq!["-c"@] {
                r.is_success_text("history cleared"@) && b == a && h2 == Seq::<Seq<char>>::empty()
            } else {
                h2 == h && command_result(r, a, b, current_node(a, path), path, cmd, ws[0], args, h, procs)
            }
        }
    }
}

/// A simulated shell over the site's filesystem.
pub struct Terminal {
    history: Vec<String>,
    env_vars: Vec<(String, String)>,
    processes: Vec<Process>,
    vfs: VirtualFilesystem,
}

fn process(pid: u32, user: &str, cpu_tenths: u32, mem_tenths: u32, command: &str) -> (p: Process)
    ensures
        is_proc(p, pid, user@, cpu_tenths, mem_tenths, command@),
{
    Process { pid, user: String::from_str(user), cpu_tenths, mem_tenths, command: String::from_str(command) }
}

/// A copy of the process list, equal to it.
fn copy_processes(ps: &Vec<Process>) -> (r: Vec<Process>)
    ensures
        r@ == ps@,
{
    let mut r: Vec<Process> = Vec::new();
    let mut i: usize = 0;
    while i < ps.len()
        invariant
            i <= ps@.len(),
            r@ == ps@.take(i as int),
        decreases ps@.len() - i,
    {
        let p = &ps[i];
        r.push(Process {
            pid: p.pid,
            user: p.user.clone(),
            cpu_tenths: p.cpu_tenths,
            mem_tenths: p.mem_tenths,
            command: p.command.clone(),
        });
        assert(ps@.take(i + 1) =~= ps@.take(i as int).push(ps@[i as int]));
        i = i + 1;
    }
    assert(ps@.take(i as int) =~= ps@);
    r
}

fn var(name: &str, value: &str) -> (r: (String, String))
    ensures
        r.0@ == name@,
        r.1@ == value@,
{
    (String::from_str(name), String::from_str(value))
}

impl Terminal {
    /// The filesystem is well formed.
    pub closed spec fn wf(&self) -> bool {
        self.vfs.wf()
    }

    pub closed spec fn fs(&self) -> FsModel {
        self.vfs@
    }

    /// The recorded commands, oldest first.
    pub closed spec fn hist(&self) -> Seq<Seq<char>> {
        names_of(self.history@)
    }

    pub closed spec fn vars(&self) -> Seq<(Seq<char>, Seq<char>)> {
        self.env_vars@.map_values(|p: (String, String)| (p.0@, p.1@))
    }

    pub closed spec fn procs(&self) -> Seq<Process> {
        self.processes@
    }

    /// A terminal over a new filesystem for `blog_posts`, with the given
    /// history (or none).
    pub fn new(blog_posts: &[String], history: Option<VecDeque<String>>) -> (r: Self)
        ensures
            r.wf(),
            initial_layout(r.fs(), names_of(blog_posts@)),
            r.hist() == match history {
                Some(h) => names_of(h@),
                None => Seq::empty(),
            },
            r.vars() == default_vars(),
            is_initial_processes(r.procs()),
    {
        let mut hist: Vec<String> = Vec::new();
        match &history {
            Some(h) => {
                let mut i: usize = 0;
                while i < h.len()
                    invariant
                        i <= h@.len(),
                        names_of(hist@) == names_of(h@.take(i as int)),
                    decreases h@.len() - i,
                {
                    let ghost before = names_of(hist@);
                    hist.push(h[i].clone());
                    assert(names_of(hist@) =~= before.push(h@[i as int]@));
                    assert(h@.take(i + 1) =~= h@.take(i as int).push(h@[i as int]));
                    assert(names_of(hist@) =~= names_of(h@.take(i + 1)));
                    i = i + 1;
                }
                assert(h@.take(i as int) =~= h@);
            },
            None => {},
        }
        let env_vars = vec![
            var("USER", "user"),
            var("HOME", "/"),
            var("SITE", "hansbaker.com"),
            var("VERSION", VERSION),
        ];
        let processes = vec![
            process(1, "root", 23, 152, "leptos-server"),
            process(42, "app", 1, 87, "blog-renderer"),
            process(99, "app", 2, 31, "terminal-sim"),
            process(128, "app", 0, 25, "wasm-hydrator"),
            process(256, "app", 0, 18, "rss-generator"),
        ];
        let mut posts: Vec<String> = Vec::new();
        let mut j: usize = 0;
        while j < blog_posts.len()
            invariant
                j <= blog_posts@.len(),
                names_of(posts@) == names_of(blog_posts@.take(j as int)),
            decreases blog_posts@.len() - j,
        {
            let ghost before = names_of(posts@);
            posts.push(blog_posts[j].clone());
            assert(names_of(posts@) =~= before.push(blog_posts@[j as int]@));
            assert(blog_posts@.take(j + 1) =~= blog_posts@.take(j as int).push(blog_posts@[j as int]));
            assert(names_of(posts@) =~= names_of(blog_posts@.take(j + 1)));
            j = j + 1;
        }
        assert(blog_posts@.take(j as int) =~= blog_posts@);
        assert(names_of(posts@) =~= posts@.map_values(|p: String| p@));
        let vfs = VirtualFilesystem::new(posts);
        let t = Terminal { history: hist, env_vars, processes, vfs };
        assert(t.vars() =~= default_vars());
        t
    }

    /// The value of variable `name` at `path`.
    fn var_lookup(&self, path: &str, name: &Vec<char>) -> (r: Option<String>)
        ensures
            match r {
                Some(v) => var_value(self.vars(), path@, name@) == Some(v@),
                None => var_value(self.vars(), path@, name@) is None,
            },
    {
        let key = string_of(name);
        if str_eq(key.as_str(), "PWD") {
            return Some(String::from_str(path));
        }
        let ghost vs = self.vars();
        let mut i: usize = 0;
        assert(vs.skip(0) =~= vs);
        while i < self.env_vars.len()
            invariant
                vs == self.vars(),
                i <= vs.len(),
                key@ == name@,
                name@ != "PWD"@,
                var_value(vs, path@, name@) == var_value(vs.skip(i as int), path@, name@),
            decreases vs.len() - i,
        {
            assert(vs.skip(i as int).drop_first() =~= vs.skip(i + 1));
            assert(vs.skip(i as int)[0] == vs[i as int]);
            if str_eq(self.env_vars[i].0.as_str(), key.as_str()) {
                return Some(self.env_vars[i].1.clone());
            }
            i = i + 1;
        }
        None
    }

    /// `s` after up to `fuel` rounds of expansion.
    fn expand_rounds(&self, path: &str, s: Vec<char>, fuel: usize) -> (r: Vec<char>)
        ensures
            r@ == expand_vars(s@, self.vars(), path@, fuel as nat),
    {
        let mut result = s;
        let mut fuel = fuel;
        let ghost total = fuel as nat;
        let ghost orig = result@;
        loop
            invariant
                expand_vars(orig, self.vars(), path@, total) == expand_vars(result@, self.vars(), path@, fuel as nat),
            ensures
                expand_vars(orig, self.vars(), path@, total) == result@,
            decreases fuel,
        {
            if fuel == 0 {
                break;
            }
            let mut start: usize = 0;
            while start < result.len() && result[start] != '$'
                invariant
                    start <= result@.len(),
                    forall|q: int| 0 <= q < start ==> result@[q] != '$',
                decreases result@.len() - start,
            {
                start = start + 1;
            }
            if start == result.len() {
                proof {
                    lemma_first_index_none(result@, '$');
                }
                break;
            }
            proof {
                lemma_first_index(result@, '$', start as int);
            }
            let base = start + 1;
            let len = name_length(&result, base);
            let rl = result.len();
            let mut name: Vec<char> = Vec::new();
            let mut q: usize = 0;
            while q < len
                invariant
                    rl == result@.len(),
                    base == start + 1,
                    base + len <= rl,
                    q <= len,
                    name@ == result@.skip(start + 1).take(q as int),
                decreases len - q,
            {
                name.push(result[base + q]);
                assert(result@.skip(start + 1).take(q + 1) =~= result@.skip(start + 1).take(q as int).push(result@[start + 1 + q]));
                q = q + 1;
            }
            let value = match self.var_lookup(path, &name) {
                Some(v) => chars_of(v.as_str()),
                None => Vec::new(),
            };
            let mut pat: Vec<char> = Vec::new();
            pat.push('$');
            let mut w: usize = 0;
            while w < name.len()
                invariant
                    w <= name@.len(),
                    pat@ == seq!['$'] + name@.take(w as int),
                decreases name@.len() - w,
            {
                pat.push(name[w]);
                assert(name@.take(w + 1) =~= name@.take(w as int).push(name@[w as int]));
                w = w + 1;
            }
            assert(name@.take(w as int) =~= name@);
            let ghost before = result@;
            result = replace_str(&result, &pat, &value);
            assert(result@ == expand_round(before, self.vars(), path@));
            fuel = fuel - 1;
        }
        result
    }

    /// The input with its `$` variables expanded: as many rounds as there
    /// are `$` in the input and in the location, which is enough for every
    /// expansion that ends.
    fn expand_env_vars(&self, path: &str, input: &str) -> (r: String)
        ensures
            r@ == expand_vars(input@, self.vars(), path@, dollars(input@) + dollars(path@)),
    {
        let f1 = count_dollars(input);
        let f2 = count_dollars(path);
        let r1 = self.expand_rounds(path, chars_of(input), f1);
        let r2 = self.expand_rounds(path, r1, f2);
        proof {
            lemma_expand_vars_add(input@, self.vars(), path@, f1 as nat, f2 as nat);
        }
        string_of(&r2)
    }

    /// Whether a blank input: nothing but white space.
    fn is_blank(input: &str) -> (r: bool)
        ensures
            r == (trim_ws(input@).len() == 0),
    {
        trim(input).unicode_len() == 0
    }

    /// Runs one line typed at `path` and answers it.
    pub fn handle_command(&mut self, path: &str, input: &str) -> (r: CommandRes)
        requires
            old(self).wf(),
        ensures
            final(self).wf(),
            final(self).vars() == old(self).vars(),
            final(self).procs() == old(self).procs(),
            terminal_result(
                r,
                old(self).fs(),
                final(self).fs(),
                old(self).hist(),
                final(self).hist(),
                old(self).vars(),
                old(self).procs(),
                path@,
                input@,
            ),
    {
        if Self::is_blank(input) {
            return CommandRes::new();
        }
        let ghost h1 = self.hist();
        self.history.push(String::from_str(input));
        if self.history.len() > HISTORY_SIZE {
            self.history.remove(0);
        }
        assert(self.hist() =~= record(h1, input@));
        let aliased = process_aliases(input);
        let expanded = self.expand_env_vars(path, aliased.as_str());
        let ws = split_words(expanded.as_str());
        if ws.len() == 0 {
            return CommandRes::new();
        }
        let cmd_text = ws[0];
        let mut args: Vec<&str> = Vec::new();
        let mut i: usize = 1;
        while i < ws.len()
            invariant
                1 <= i <= ws.len(),
                strs_view(args@) == strs_view(ws@).subrange(1, i as int),
            decreases ws.len() - i,
        {
            let ghost before = strs_view(args@);
            args.push(ws[i]);
            assert(strs_view(args@) =~= before.push(ws@[i as int]@));
            assert(strs_view(ws@)[i as int] == ws@[i as int]@);
            assert(strs_view(ws@).subrange(1, i + 1) =~= strs_view(ws@).subrange(1, i as int).push(strs_view(ws@)[i as int]));
            i = i + 1;
        }
        assert(strs_view(ws@) == ws@.map_values(|w: &str| w@));
        assert(strs_view(args@) =~= strs_view(ws@).drop_first());
        assert(strs_of(args@) == strs_view(args@));
        let cmd = Cmd::from_name(cmd_text);
        proof {
            self.vfs.lemma_wf();
        }
        let root = self.vfs.get_root();
        let cur = match self.vfs.resolve_path(root, path) {
            Ok(n) => n,
            Err(_) => root,
        };
        match cmd {
            Cmd::Ls => LsCommand::new().execute(&mut self.vfs, cur, args, None, true),
            Cmd::Cd => CdCommand::new().execute(&mut self.vfs, cur, args, None, true),
            Cmd::Cat => CatCommand::new().execute(&mut self.vfs, cur, args, None, true),
            Cmd::Touch => TouchCommand::new().execute(&mut self.vfs, cur, args, None, true),
            Cmd::MkDir => MkdirCommand::new().execute(&mut self.vfs, cur, args, None, true),
            Cmd::Rm => RmCommand::new().execute(&mut self.vfs, cur, args, None, true),
            Cmd::Which => WhichCommand::new().execute(&mut self.vfs, cur, args, None, true),
            Cmd::Cp => CpCommand::new().execute(&mut self.vfs, cur, args, None, true),
            Cmd::Mv => MvCommand::new().execute(&mut self.vfs, cur, args, None, true),
            Cmd::Help => HelpCommand.execute(path, args, None, true),
            Cmd::Pwd => PwdCommand.execute(path, args, None, true),
            Cmd::WhoAmI => WhoAmICommand.execute(path, args, None, true),
            Cmd::Clear => ClearCommand.execute(path, args, None, true),
            Cmd::Neofetch => {
                let none: Vec<&str> = Vec::new();
                let r = NeofetchCommand.execute(path, args, None, true, none.as_slice(), none.as_slice());
                assert(crate::simple_tools::side_by_side(strs_of(none@), strs_of(none@)) =~= Seq::<Seq<char>>::empty());
                r
            },
            Cmd::Mines => MinesCommand.execute(path, args, None, true),
            Cmd::Sudo => SudoCommand.execute(path, args, None, true),
            Cmd::Echo => EchoCommand.execute(path, args, None, true),
            Cmd::Date => DateCommand.execute(path, args, None, true),
            Cmd::Uptime => CommandRes::new(),
            Cmd::Ps => PsCommand::new(copy_processes(&self.processes)).execute(path, args, None, true),
            Cmd::Kill => KillCommand::new(copy_processes(&self.processes)).execute(path, args, None, true),
            Cmd::History => {
                if args.len() == 1 && str_eq(args[0], "-c") {
                    assert(strs_view(args@) =~= seq!["-c"@]);
                    self.history = Vec::new();
                    assert(self.hist() =~= Seq::<Seq<char>>::empty());
                    return CommandRes::new().with_stdout_text("history cleared");
                }
                HistoryCommand::new(self.history.as_slice()).execute(path, args, None, true)
            },
            Cmd::Unknown => UnknownCommand::new(String::from_str(cmd_text)).execute(&mut self.vfs, cur, args, None, true),
        }
    }
}

/// A completion candidate as a plain value: text, directory, executable.
pub type TabV = (Seq<char>, bool, bool);

impl View for TabCompletionItem {
    type V = (Seq<char>, bool, bool);

    open spec fn view(&self) -> (Seq<char>, bool, bool) {
        (self.completion_text@, self.is_directory, self.is_executable)
    }
}

impl Keyed for TabCompletionItem {
    open spec fn key(&self) -> Seq<char> {
        self.completion_text@
    }

    fn key_str(&self) -> (r: &str) {
        self.completion_text.as_str()
    }
}

pub open spec fn tab_view() -> spec_fn(TabCompletionItem) -> (Seq<char>, bool, bool) {
    |t: TabCompletionItem| t@
}

pub open spec fn tab_key() -> spec_fn((Seq<char>, bool, bool)) -> Seq<char> {
    |t: (Seq<char>, bool, bool)| t.0
}

pub open spec fn tab_views(v: Seq<TabCompletionItem>) -> Seq<(Seq<char>, bool, bool)> {
    v.map_values(tab_view())
}

/// Names that start with `prefix`.
pub open spec fn starts_with_fn(prefix: Seq<char>) -> spec_fn(Seq<char>) -> bool {
    |s: Seq<char>| seq_starts_with(s, prefix)
}

pub open spec fn command_item() -> spec_fn(Seq<char>) -> (Seq<char>, bool, bool) {
    |s: Seq<char>| (s, false, true)
}

pub open spec fn alias_names() -> Seq<Seq<char>> {
    seq!["ll"@, "la"@, "h"@]
}

/// The command and alias names starting with `prefix`, sorted.
pub open spec fn tab_cmds(prefix: Seq<char>) -> Seq<(Seq<char>, bool, bool)> {
    stable_sort(
        (crate::command::spec_all_names().filter(starts_with_fn(prefix)) + alias_names().filter(
            starts_with_fn(prefix),
        )).map_values(command_item()),
        tab_key(),
    )
}

/// Splits a path being completed into the directory part (kept with its
/// `/`) and the prefix of the name.
pub open spec fn tab_split(t: Seq<char>) -> (Seq<char>, Seq<char>) {
    if seq_ends_with(t, "/"@) || t.len() == 0 {
        (t, Seq::empty())
    } else {
        match last_index_of(t, '/') {
            Some(p) => (t.take(p + 1), t.skip(p + 1)),
            None => (Seq::empty(), t),
        }
    }
}

/// `s` without the `/` characters at its end.
pub open spec fn trim_end_slashes(s: Seq<char>) -> Seq<char>
    decreases s.len(),
{
    if s.len() > 0 && s.last() == '/' {
        trim_end_slashes(s.drop_last())
    } else {
        s
    }
}

/// The directory whose entries are offered.
pub open spec fn tab_dir(m: FsModel, cur: NodeId, dp: Seq<char>) -> Result<NodeId, VfsError> {
    if dp.len() == 0 {
        Ok(cur)
    } else {
        match spec_resolve_path(m, cur, dp) {
            Ok(n) => Ok(n),
            Err(_) => {
                let t = trim_end_slashes(dp);
                if t.len() == 0 {
                    Ok(m.root)
                } else {
                    spec_resolve_path(m, cur, t)
                }
            },
        }
    }
}

/// The entries offered for `prefix`: those starting with it, hidden ones
/// only when it starts with `.`.
pub open spec fn offered(prefix: Seq<char>) -> spec_fn(DirEntry) -> bool {
    |e: DirEntry|
        (prefix.len() == 0 || seq_starts_with(e.name@, prefix)) && !(hidden_name(e.name@) && !(prefix.len() > 0
            && prefix[0] == '.'))
}

/// The candidate for an entry: directories end in `/`, executables in `*`.
pub open spec fn completion_of() -> spec_fn(DirEntry) -> (Seq<char>, bool, bool) {
    |e: DirEntry|
        (
            if e.is_directory {
                e.name@ + "/"@
            } else if e.is_executable {
                e.name@ + "*"@
            } else {
                e.name@
            },
            e.is_directory,
            e.is_executable,
        )
}

/// The candidates for completing the path `t` from `cur`, sorted.
pub open spec fn tab_opts(m: FsModel, cur: NodeId, t: Seq<char>) -> Seq<(Seq<char>, bool, bool)> {
    let (dp, prefix) = tab_split(t);
    match tab_dir(m, cur, dp) {
        Err(_) => Seq::empty(),
        Ok(n) => if list_error(m, n) is Some {
            Seq::empty()
        } else {
            stable_sort(spec_listing(m, n).filter(offered(prefix)).map_values(completion_of()), tab_key())
        },
    }
}

pub open spec fn is_dir_item() -> spec_fn((Seq<char>, bool, bool)) -> bool {
    |t: (Seq<char>, bool, bool)| t.1
}

/// The candidates offered for `input` typed at `path`: a first word is
/// completed as a command (or as a path when it holds `/`); later words as
/// paths (directories only after `cd`).
pub open spec fn spec_tab(m: FsModel, path: Seq<char>, input: Seq<char>) -> Seq<(Seq<char>, bool, bool)> {
    let ws = words(input);
    if ws.len() == 0 {
        Seq::empty()
    } else {
        let cmd = spec_cmd_of(ws[0]);
        let rest = ws.drop_first();
        let cur = current_node(m, path);
        let last = if rest.len() == 0 {
            Seq::empty()
        } else {
            rest.last()
        };
        if cmd is Unknown && rest.len() == 0 && !seq_ends_with(input, " "@) {
            if ws[0].contains('/') {
                tab_opts(m, cur, ws[0])
            } else {
                tab_cmds(ws[0])
            }
        } else if rest.len() == 0 && !seq_ends_with(input, " "@) {
            Seq::empty()
        } else if cmd is Cd {
            tab_opts(m, cur, last).filter(is_dir_item())
        } else {
            tab_opts(m, cur, last)
        }
    }
}

fn tab_item(text: String, is_directory: bool, is_executable: bool) -> (r: TabCompletionItem)
    ensures
        r@ == (text@, is_directory, is_executable),
{
    TabCompletionItem { completion_text: text, is_directory, is_executable }
}

/// `s` without the `/` characters at its end.
fn trim_end_slash(s: &str) -> (r: &str)
    ensures
        r@ == trim_end_slashes(s@),
{
    let mut j = s.unicode_len();
    assert(s@.take(j as int) =~= s@);
    while j > 0 && s.get_char(j - 1) == '/'
        invariant
            j <= s@.len(),
            trim_end_slashes(s@) == trim_end_slashes(s@.take(j as int)),
        decreases j,
    {
        assert(s@.take(j as int).drop_last() =~= s@.take(j - 1));
        j = j - 1;
    }
    assert(s@.take(j as int) =~= s@.subrange(0, j as int));
    s.substring_char(0, j)
}

impl Terminal {
    /// The recorded commands starting with `input` (all of them for blank
    /// input), oldest first.
    pub fn handle_start_hist(&self, input: &str) -> (r: Vec<String>)
        ensures
            names_of(r@) == if trim_ws(input@).len() == 0 {
                self.hist()
            } else {
                self.hist().filter(starts_with_fn(input@))
            },
    {
        let blank = Self::is_blank(input);
        let ghost h = self.hist();
        let mut out: Vec<String> = Vec::new();
        let mut i: usize = 0;
        reveal(Seq::filter);
        assert(h.take(0).filter(starts_with_fn(input@)) =~= Seq::<Seq<char>>::empty());
        while i < self.history.len()
            invariant
                h == self.hist(),
                i <= h.len(),
                names_of(out@) == if blank {
                    h.take(i as int)
                } else {
                    h.take(i as int).filter(starts_with_fn(input@))
                },
            decreases h.len() - i,
        {
            reveal(Seq::filter);
            let s = &self.history[i];
            assert(h.take(i + 1).drop_last() =~= h.take(i as int));
            assert(h.take(i + 1).last() == s@);
            let ghost before = names_of(out@);
            if blank || starts_with(s.as_str(), input) {
                out.push(s.clone());
                assert(names_of(out@) =~= before.push(s@));
            }
            i = i + 1;
        }
        assert(h.take(i as int) =~= h);
        out
    }

    /// The command and alias names starting with `cmd_text`, sorted.
    fn tab_commands(&self, cmd_text: &str) -> (r: Vec<TabCompletionItem>)
        ensures
            tab_views(r@) == tab_cmds(cmd_text@),
    {
        let names = Cmd::all();
        let ghost all = crate::command::spec_all_names();
        let ghost p = starts_with_fn(cmd_text@);
        let mut items: Vec<TabCompletionItem> = Vec::new();
        let mut i: usize = 0;
        reveal(Seq::filter);
        assert(all.take(0).filter(p) =~= Seq::<Seq<char>>::empty());
        while i < names.len()
            invariant
                names@.map_values(|s: &'static str| s@) == all,
                all == crate::command::spec_all_names(),
                p == starts_with_fn(cmd_text@),
                i <= names.len(),
                tab_views(items@) == all.take(i as int).filter(p).map_values(command_item()),
            decreases names.len() - i,
        {
            reveal(Seq::filter);
            let s = names[i];
            assert(all[i as int] == s@);
            assert(all.take(i + 1).drop_last() =~= all.take(i as int));
            let ghost before = all.take(i as int).filter(p);
            let ghost old_items = tab_views(items@);
            if starts_with(s, cmd_text) {
                items.push(tab_item(String::from_str(s), false, true));
                assert(tab_views(items@) =~= old_items.push((s@, false, true)));
                assert(all.take(i + 1).filter(p) == before.push(s@));
                assert(before.push(s@).map_values(command_item()) =~= before.map_values(command_item()).push((s@, false, true)));
            }
            i = i + 1;
        }
        assert(all.take(i as int) =~= all);
        let ghost cmd_part = all.filter(p);
        let aliases_all = CmdAlias::all();
        let ghost an = alias_names();
        let mut k: usize = 0;
        assert(an.take(0).filter(p) =~= Seq::<Seq<char>>::empty());
        assert(cmd_part + an.take(0).filter(p) =~= cmd_part);
        while k < aliases_all.len()
            invariant
                aliases_all@ == aliases(),
                an == alias_names(),
                p == starts_with_fn(cmd_text@),
                k <= 3,
                tab_views(items@) == (cmd_part + an.take(k as int).filter(p)).map_values(command_item()),
            decreases 3 - k,
        {
            reveal(Seq::filter);
            let name = aliases_all[k].as_str();
            proof {
                reveal_strlit("ll");
                reveal_strlit("la");
                reveal_strlit("h");
            }
            assert(an[k as int] == name@);
            assert(an.take(k + 1).drop_last() =~= an.take(k as int));
            let ghost before = an.take(k as int).filter(p);
            let ghost old_items = tab_views(items@);
            if starts_with(name, cmd_text) {
                items.push(tab_item(String::from_str(name), false, true));
                assert(an.take(k + 1).filter(p) == before.push(name@));
                assert(cmd_part + before.push(name@) =~= (cmd_part + before).push(name@));
                assert(tab_views(items@) =~= old_items.push((name@, false, true)));
                assert((cmd_part + before).push(name@).map_values(command_item()) =~= (cmd_part + before).map_values(command_item()).push((name@, false, true)));
            }
            k = k + 1;
        }
        assert(an.take(3) =~= an);
        let ghost u = items@;
        let sorted = sort_by_key(items);
        proof {
            lemma_sort_map(u, key_of::<TabCompletionItem>(), tab_view(), tab_key());
        }
        sorted
    }

    /// The candidates for completing the path `target` from `current_dir`.
    fn vfs_tab_opts(&self, current_dir: NodeId, target: &str) -> (r: Vec<TabCompletionItem>)
        requires
            self.wf(),
        ensures
            tab_views(r@) == tab_opts(self.fs(), current_dir, target@),
    {
        let ghost m = self.fs();
        proof {
            self.vfs.lemma_wf();
        }
        let n = target.unicode_len();
        let no_prefix = ends_with(target, "/") || n == 0;
        let (dir_path, prefix): (&str, &str) = if no_prefix {
            proof {
                reveal_strlit("");
                assert(""@ =~= Seq::<char>::empty());
            }
            (target, "")
        } else {
            match rfind_char(target, '/') {
                Some(pos) => (take_chars(target, pos + 1), skip_chars(target, pos + 1)),
                None => {
                    proof {
                        reveal_strlit("");
                        assert(""@ =~= Seq::<char>::empty());
                    }
                    ("", target)
                },
            }
        };
        assert((dir_path@, prefix@) == tab_split(target@));
        let dir = if dir_path.unicode_len() == 0 {
            Ok(current_dir)
        } else {
            match self.vfs.resolve_path(current_dir, dir_path) {
                Ok(d) => Ok(d),
                Err(_) => {
                    let trimmed = trim_end_slash(dir_path);
                    if trimmed.unicode_len() == 0 {
                        Ok(self.vfs.get_root())
                    } else {
                        self.vfs.resolve_path(current_dir, trimmed)
                    }
                },
            }
        };
        let d = match dir {
            Ok(d) => d,
            Err(_) => {
                return Vec::new();
            },
        };
        let entries = match self.vfs.list_directory(d) {
            Ok(es) => es,
            Err(_) => {
                return Vec::new();
            },
        };
        let ghost es = entries@;
        let ghost q = offered(prefix@);
        let mut items: Vec<TabCompletionItem> = Vec::new();
        let mut i: usize = 0;
        reveal(Seq::filter);
        assert(es.take(0).filter(q) =~= Seq::<DirEntry>::empty());
        let plen = prefix.unicode_len();
        let dot_prefix = plen > 0 && prefix.get_char(0) == '.';
        while i < entries.len()
            invariant
                es == entries@,
                q == offered(prefix@),
                plen == prefix@.len(),
                dot_prefix == (prefix@.len() > 0 && prefix@[0] == '.'),
                i <= es.len(),
                tab_views(items@) == es.take(i as int).filter(q).map_values(completion_of()),
            decreases es.len() - i,
        {
            reveal(Seq::filter);
            let e = &entries[i];
            assert(es.take(i + 1).drop_last() =~= es.take(i as int));
            assert(es.take(i + 1).last() == *e);
            let ghost before = es.take(i as int).filter(q);
            let ghost old_items = tab_views(items@);
            let name = e.name.as_str();
            let matches_prefix = plen == 0 || starts_with(name, prefix);
            let hidden = name.unicode_len() > 0 && name.get_char(0) == '.';
            if matches_prefix && !(hidden && !dot_prefix) {
                let text = if e.is_directory {
                    concat(name, "/")
                } else if e.is_executable {
                    concat(name, "*")
                } else {
                    String::from_str(name)
                };
                items.push(tab_item(text, e.is_directory, e.is_executable));
                assert(es.take(i + 1).filter(q) == before.push(*e));
                assert(tab_views(items@) =~= old_items.push(completion_of()(*e)));
                assert(before.push(*e).map_values(completion_of()) =~= before.map_values(completion_of()).push(completion_of()(*e)));
            } else {
                assert(es.take(i + 1).filter(q) == before);
            }
            i = i + 1;
        }
        assert(es.take(i as int) =~= es);
        let ghost u = items@;
        let sorted = sort_by_key(items);
        proof {
            lemma_sort_map(u, key_of::<TabCompletionItem>(), tab_view(), tab_key());
        }
        sorted
    }

    /// The directory candidates for completing `target`.
    fn vfs_tab_dirs(&self, current_dir: NodeId, target: &str) -> (r: Vec<TabCompletionItem>)
        requires
            self.wf(),
        ensures
            tab_views(r@) == tab_opts(self.fs(), current_dir, target@).filter(is_dir_item()),
    {
        let all = self.vfs_tab_opts(current_dir, target);
        let ghost av = tab_views(all@);
        let mut out: Vec<TabCompletionItem> = Vec::new();
        let mut i: usize = 0;
        reveal(Seq::filter);
        assert(av.take(0).filter(is_dir_item()) =~= Seq::<(Seq<char>, bool, bool)>::empty());
        while i < all.len()
            invariant
                av == tab_views(all@),
                i <= all.len(),
                tab_views(out@) == av.take(i as int).filter(is_dir_item()),
            decreases all.len() - i,
        {
            reveal(Seq::filter);
            assert(av.take(i + 1).drop_last() =~= av.take(i as int));
            assert(av.take(i + 1).last() == all@[i as int]@);
            let ghost before = tab_views(out@);
            if all[i].is_directory {
                let it = tab_item(all[i].completion_text.clone(), all[i].is_directory, all[i].is_executable);
                out.push(it);
                assert(tab_views(out@) =~= before.push(it@));
            }
            i = i + 1;
        }
        assert(av.take(i as int) =~= av);
        out
    }

    /// The candidates offered for `input` typed at `path`. The filesystem
    /// and the history are only read.
    pub fn handle_start_tab(&mut self, path: &str, input: &str) -> (r: Vec<TabCompletionItem>)
        requires
            old(self).wf(),
        ensures
            final(self).wf(),
            final(self).fs() == old(self).fs(),
            final(self).hist() == old(self).hist(),
            final(self).vars() == old(self).vars(),
            final(self).procs() == old(self).procs(),
            tab_views(r@) == spec_tab(old(self).fs(), path@, input@),
    {
        let ws = split_words(input);
        if ws.len() == 0 {
            return Vec::new();
        }
        let ghost wv = ws@.map_values(|w: &str| w@);
        let cmd_text = ws[0];
        let cmd = Cmd::from_name(cmd_text);
        proof {
            self.vfs.lemma_wf();
        }
        let root = self.vfs.get_root();
        let cur = match self.vfs.resolve_path(root, path) {
            Ok(n) => n,
            Err(_) => root,
        };
        let has_rest = ws.len() > 1;
        let last: &str = if has_rest {
            ws[ws.len() - 1]
        } else {
            proof {
                reveal_strlit("");
                assert(""@ =~= Seq::<char>::empty());
            }
            ""
        };
        assert(wv.drop_first().len() == wv.len() - 1);
        assert(has_rest ==> wv.drop_first().last() == last@);
        let ends_space = ends_with(input, " ");
        match cmd {
            Cmd::Unknown => {
                if !has_rest && !ends_space {
                    if contains_char(cmd_text, '/') {
                        return self.vfs_tab_opts(cur, cmd_text);
                    } else {
                        return self.tab_commands(cmd_text);
                    }
                }
            },
            _ => {},
        }
        if !has_rest && !ends_space {
            return Vec::new();
        }
        match cmd {
            Cmd::Cd => self.vfs_tab_dirs(cur, last),
            _ => self.vfs_tab_opts(cur, last),
        }
    }

    /// The command the first word of `input` typed at `path` picks, after
    /// aliases and variables are expanded (`Unknown` for blank input).
    pub fn resolve_command(&self, path: &str, input: &str) -> (r: Cmd)
        ensures
            ({
                let ws = words(expanded_input(self.vars(), path@, input@));
                r == if ws.len() == 0 {
                    Cmd::Unknown
                } else {
                    spec_cmd_of(ws[0])
                }
            }),
    {
        let aliased = process_aliases(input);
        let expanded = self.expand_env_vars(path, aliased.as_str());
        let ws = split_words(expanded.as_str());
        if ws.len() == 0 {
            return Cmd::Unknown;
        }
        Cmd::from_name(ws[0])
    }

    /// The recorded commands, oldest first.
    pub fn history(&self) -> (r: VecDeque<String>)
        ensures
            names_of(r@) == self.hist(),
    {
        let mut r: VecDeque<String> = VecDeque::new();
        let mut i: usize = 0;
        while i < self.history.len()
            invariant
                i <= self.history@.len(),
                names_of(r@) == names_of(self.history@.take(i as int)),
            decreases self.history@.len() - i,
        {
            let ghost before = names_of(r@);
            r.push_back(self.history[i].clone());
            assert(names_of(r@) =~= before.push(self.history@[i as int]@));
            assert(self.history@.take(i + 1) =~= self.history@.take(i as int).push(self.history@[i as int]));
            assert(names_of(r@) =~= names_of(self.history@.take(i + 1)));
            i = i + 1;
        }
        assert(self.history@.take(i as int) =~= self.history@);
        r
    }

    /// Replaces the recorded commands.
    pub fn set_history(&mut self, history: VecDeque<String>)
        requires
            old(self).wf(),
        ensures
            final(self).wf(),
            final(self).hist() == names_of(history@),
            final(self).fs() == old(self).fs(),
            final(self).vars() == old(self).vars(),
            final(self).procs() == old(self).procs(),
    {
        let mut hist: Vec<String> = Vec::new();
        let mut i: usize = 0;
        while i < history.len()
            invariant
                i <= history@.len(),
                names_of(hist@) == names_of(history@.take(i as int)),
            decreases history@.len() - i,
        {
            let ghost before = names_of(hist@);
            hist.push(history[i].clone());
            assert(names_of(hist@) =~= before.push(history@[i as int]@));
            assert(history@.take(i + 1) =~= history@.take(i as int).push(history@[i as int]));
            assert(names_of(hist@) =~= names_of(history@.take(i + 1)));
            i = i + 1;
        }
        assert(history@.take(i as int) =~= history@);
        self.history = hist;
    }
}

} // verus!
