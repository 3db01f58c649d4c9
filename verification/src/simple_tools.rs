use std::fmt::Write;
use vstd::prelude::*;

use crate::command::CommandRes;
use crate::text::{
    chars_of, concat, decimal, join_strings, names_of, pad_left, padded_left, seq_contains, contains_str,
    spec_decimal, string_push,
};
use crate::vfs::join_with;

verus! {

/// Where the minesweeper app lives.
pub const MINES_URL: &'static str = "https://mines.hansbaker.com";

/// What `help` prints.
pub const HELP_TEXT: &'static str = "This is Hans Baker's personal website.  Use this terminal to navigate the site.\nThe commands should feel familiar:\n    cat     concatenate files and print to the standard output\n    cd      change directory (navigate site)\n    clear   clear the terminal screen\n    ls      list directory contents (sitemap)\n    mines   minesweeper app\n    pwd     print name of the current/working directory (current URL path)\n";

/// The format `date` uses when given none.
pub const DEFAULT_DATE_FORMAT: &'static str = "%a %b %d %H:%M:%S %Z %Y";

/// Prints the help text.
pub struct HelpCommand;

impl HelpCommand {
    pub fn execute(&self, path: &str, args: Vec<&str>, stdin: Option<&str>, is_output_tty: bool) -> (r: CommandRes)
        ensures
            r.is_success_text(HELP_TEXT@),
    {
        CommandRes::new().with_stdout_text(HELP_TEXT)
    }
}

/// What `pwd` answers: the path, taking no arguments.
pub open spec fn pwd_result(r: CommandRes, path: Seq<char>, nargs: nat) -> bool {
    if nargs > 0 {
        r.is_failure("pwd: too many arguments"@)
    } else {
        r.is_success_text(path)
    }
}

/// Prints the current path.
pub struct PwdCommand;

impl PwdCommand {
    pub fn execute(&self, path: &str, args: Vec<&str>, stdin: Option<&str>, is_output_tty: bool) -> (r: CommandRes)
        ensures
            pwd_result(r, path@, args@.len()),
    {
        if args.len() > 0 {
            return CommandRes::new().with_error().with_stderr("pwd: too many arguments");
        }
        CommandRes::new().with_stdout_text(path)
    }
}

/// What `whoami` answers: `user`, taking no arguments.
pub open spec fn whoami_result(r: CommandRes, nargs: nat) -> bool {
    if nargs > 0 {
        r.is_failure("usage: whoami"@)
    } else {
        r.is_success_text("user"@)
    }
}

/// Prints the user's name.
pub struct WhoAmICommand;

impl WhoAmICommand {
    pub fn execute(&self, path: &str, args: Vec<&str>, stdin: Option<&str>, is_output_tty: bool) -> (r: CommandRes)
        ensures
            whoami_result(r, args@.len()),
    {
        if args.len() > 0 {
            return CommandRes::new().with_error().with_stderr("usage: whoami");
        }
        CommandRes::new().with_stdout_text("user")
    }
}

/// Clears the screen (the display does the clearing).
pub struct ClearCommand;

impl ClearCommand {
    pub fn execute(&self, path: &str, args: Vec<&str>, stdin: Option<&str>, is_output_tty: bool) -> (r: CommandRes)
        ensures
            r.is_empty_output(),
    {
        CommandRes::new()
    }
}

/// Opens the minesweeper app.
pub struct MinesCommand;

impl MinesCommand {
    pub fn execute(&self, path: &str, args: Vec<&str>, stdin: Option<&str>, is_output_tty: bool) -> (r: CommandRes)
        ensures
            r.redirect_target() == Some(MINES_URL@),
    {
        CommandRes::redirect(String::from_str(MINES_URL))
    }
}

/// Refuses, as the user is no sudoer.
pub struct SudoCommand;

impl SudoCommand {
    pub fn execute(&self, path: &str, args: Vec<&str>, stdin: Option<&str>, is_output_tty: bool) -> (r: CommandRes)
        ensures
            r.is_failure("user is not in the sudoers file. This incident will be reported."@),
    {
        CommandRes::new().with_error().with_stderr("user is not in the sudoers file. This incident will be reported.")
    }
}

/// The lines of two blocks side by side, two spaces apart, as far as both
/// go.
pub open spec fn side_by_side(a: Seq<Seq<char>>, b: Seq<Seq<char>>) -> Seq<Seq<char>> {
    Seq::new(if a.len() < b.len() { a.len() } else { b.len() }, |i: int| a[i] + "  "@ + b[i])
}

pub open spec fn strs_of(v: Seq<&str>) -> Seq<Seq<char>> {
    v.map_values(|s: &str| s@)
}

/// Prints a picture beside a summary of the system.
pub struct NeofetchCommand;

impl NeofetchCommand {
    /// The lines of `avatar` and `info` side by side, one per line.
    pub fn as_text(&self, avatar: &[&str], info: &[&str]) -> (r: String)
        ensures
            r@ == join_with(side_by_side(strs_of(avatar@), strs_of(info@)), "\n"@),
    {
        let n = if avatar.len() < info.len() {
            avatar.len()
        } else {
            info.len()
        };
        let ghost want = side_by_side(strs_of(avatar@), strs_of(info@));
        let mut lines: Vec<String> = Vec::new();
        let mut i: usize = 0;
        while i < n
            invariant
                n <= avatar.len(),
                n <= info.len(),
                n == want.len(),
                want == side_by_side(strs_of(avatar@), strs_of(info@)),
                i <= n,
                names_of(lines@) == want.take(i as int),
            decreases n - i,
        {
            let mut line = concat(avatar[i], "  ");
            line.append(info[i]);
            let ghost before = names_of(lines@);
            lines.push(line);
            assert(names_of(lines@) =~= before.push(lines@.last()@));
            assert(want.take(i + 1) =~= want.take(i as int).push(want[i as int]));
            i = i + 1;
        }
        assert(want.take(i as int) =~= want);
        join_strings(&lines, "\n")
    }

    /// Prints `avatar` and `info` side by side.
    pub fn execute(
        &self,
        path: &str,
        args: Vec<&str>,
        stdin: Option<&str>,
        is_output_tty: bool,
        avatar: &[&str],
        info: &[&str],
    ) -> (r: CommandRes)
        ensures
            r.is_success_text(join_with(side_by_side(strs_of(avatar@), strs_of(info@)), "\n"@)),
    {
        let text = self.as_text(avatar, info);
        CommandRes::new().with_stdout_text(text.as_str())
    }
}

/// `s` without its `"` characters.
pub open spec fn unquoted(s: Seq<char>) -> Seq<char> {
    s.filter(|c: char| c != '"')
}

/// `s` without its `"` characters.
pub fn remove_quotes(s: &str) -> (r: String)
    ensures
        r@ == unquoted(s@),
{
    let n = s.unicode_len();
    let mut r = String::new();
    let mut i: usize = 0;
    reveal(Seq::filter);
    assert(s@.take(0).filter(|c: char| c != '"') =~= Seq::<char>::empty());
    while i < n
        invariant
            n == s@.len(),
            i <= n,
            r@ == s@.take(i as int).filter(|c: char| c != '"'),
        decreases n - i,
    {
        reveal(Seq::filter);
        let c = s.get_char(i);
        assert(s@.take(i + 1).drop_last() =~= s@.take(i as int));
        assert(s@.take(i + 1).last() == c);
        if c != '"' {
            string_push(&mut r, c);
        }
        i = i + 1;
    }
    assert(s@.take(i as int) =~= s@);
    r
}

/// What `echo` prints for its arguments: each without its quotes, joined
/// with spaces.
pub open spec fn echo_message(args: Seq<Seq<char>>) -> Seq<char> {
    join_with(args.map_values(|a: Seq<char>| unquoted(a)), " "@)
}

/// What `echo` answers: its arguments; `$(` is refused.
pub open spec fn echo_result(r: CommandRes, args: Seq<Seq<char>>) -> bool {
    let msg = echo_message(args);
    if seq_contains(msg, "$("@) {
        r.is_failure("echo: command substitution not supported"@)
    } else {
        r.is_success_text(msg)
    }
}

/// Prints its arguments.
pub struct EchoCommand;

impl EchoCommand {
    /// `$(` (command substitution) is refused.
    pub fn execute(&self, path: &str, args: Vec<&str>, stdin: Option<&str>, is_output_tty: bool) -> (r: CommandRes)
        ensures
            echo_result(r, strs_of(args@)),
    {
        let mut parts: Vec<String> = Vec::new();
        let mut i: usize = 0;
        while i < args.len()
            invariant
                i <= args.len(),
                names_of(parts@) == strs_of(args@).take(i as int).map_values(|a: Seq<char>| unquoted(a)),
            decreases args.len() - i,
        {
            let ghost before = names_of(parts@);
            parts.push(remove_quotes(args[i]));
            assert(names_of(parts@) =~= before.push(parts@.last()@));
            assert(strs_of(args@).take(i + 1) =~= strs_of(args@).take(i as int).push(args@[i as int]@));
            i = i + 1;
        }
        assert(strs_of(args@).take(i as int) =~= strs_of(args@));
        let message = join_strings(&parts, " ");
        if contains_str(message.as_str(), "$(") {
            return CommandRes::new().with_error().with_stderr("echo: command substitution not supported");
        }
        CommandRes::new().with_stdout_text(message.as_str())
    }
}

/// `s` without the `"` characters at its start and at its end.
pub open spec fn trim_quotes(s: Seq<char>) -> Seq<char>
    decreases s.len(),
{
    if s.len() > 0 && s[0] == '"' {
        trim_quotes(s.drop_first())
    } else if s.len() > 0 && s.last() == '"' {
        trim_quotes(s.drop_last())
    } else {
        s
    }
}

proof fn lemma_trim_quotes(s: Seq<char>, i: int, j: int)
    requires
        0 <= i <= j <= s.len(),
        forall|k: int| 0 <= k < i ==> s[k] == '"',
        forall|k: int| j <= k < s.len() ==> s[k] == '"',
        i < j ==> s[i] != '"',
    ensures
        trim_quotes(s) == trim_quotes(s.subrange(i, j)),
    decreases s.len(),
{
    if i > 0 {
        lemma_trim_quotes(s.drop_first(), i - 1, j - 1);
        assert(s.drop_first().subrange(i - 1, j - 1) =~= s.subrange(i, j));
    } else if j < s.len() {
        if s.len() > 0 && s[0] == '"' {
            assert(i == j);
            lemma_trim_quotes(s.drop_first(), 0, 0);
            assert(s.drop_first().subrange(0, 0) =~= s.subrange(0, 0));
        } else {
            lemma_trim_quotes(s.drop_last(), i, j);
            assert(s.drop_last().subrange(i, j) =~= s.subrange(i, j));
        }
    } else {
        assert(s.subrange(i, j) =~= s);
    }
}

proof fn lemma_trim_stable(s: Seq<char>)
    requires
        s.len() == 0 || (s[0] != '"' && s.last() != '"'),
    ensures
        trim_quotes(s) == s,
{
}

/// `s` without the `"` characters at its start and at its end.
pub fn trim_quote_chars(s: &str) -> (r: &str)
    ensures
        r@ == trim_quotes(s@),
{
    let n = s.unicode_len();
    let mut i: usize = 0;
    while i < n && s.get_char(i) == '"'
        invariant
            n == s@.len(),
            i <= n,
            forall|k: int| 0 <= k < i ==> s@[k] == '"',
        decreases n - i,
    {
        i = i + 1;
    }
    let mut j: usize = n;
    while j > i && s.get_char(j - 1) == '"'
        invariant
            n == s@.len(),
            i <= j <= n,
            forall|k: int| j <= k < n ==> s@[k] == '"',
        decreases j - i,
    {
        j = j - 1;
    }
    let r = s.substring_char(i, j);
    proof {
        lemma_trim_quotes(s@, i as int, j as int);
        lemma_trim_stable(s@.subrange(i as int, j as int));
    }
    r
}

/// Whether chrono can write the strftime-style `format`: it fails exactly
/// when the format holds an item it does not know, whatever the time.
pub uninterp spec fn strftime_ok(format: Seq<char>) -> bool;

/// The current local time written in `format` (strftime style), or `None`
/// when the format has an item that cannot be written.
/// Calls `chrono::Local::now` and `DateTime::format`: the result is `Some`
/// exactly when chrono can write the format; nothing is promised of the
/// text, which depends on the clock and the time zone.
#[verifier::external_body]
fn format_local_now(format: &str) -> (r: Option<String>)
    ensures
        r is Some <==> strftime_ok(format@),
{
    let mut out = String::new();
    match write!(out, "{}", chrono::Local::now().format(format)) {
        Ok(()) => Some(out),
        Err(_) => None,
    }
}

/// The answer of `date` once the time has been written: the text, or an
/// error for a format that cannot be written.
pub fn date_output(formatted: Option<String>) -> (r: CommandRes)
    ensures
        match formatted {
            Some(t) => r.is_success_text(t@),
            None => r.is_failure("date: invalid format"@),
        },
{
    match formatted {
        Some(t) => CommandRes::new().with_stdout_text(t.as_str()),
        None => CommandRes::new().with_error().with_stderr("date: invalid format"),
    }
}

/// What `date` answers: at most one argument, which (without surrounding
/// quotes) must start with `+`; then some text, the time, or an error for
/// a format that cannot be written.
pub open spec fn date_result(r: CommandRes, args: Seq<Seq<char>>) -> bool {
    if args.len() > 1 {
        r.is_failure("date: too many arguments"@)
    } else if args.len() == 1 && !(trim_quotes(args[0]).len() > 0 && trim_quotes(args[0])[0] == '+') {
        r.is_failure("date: invalid format (must start with +)"@)
    } else {
        let f = spec_date_format(if args.len() == 1 {
            Some(args[0])
        } else {
            None
        });
        if strftime_ok(f) {
            exists|t: Seq<char>| #[trigger] r.is_success_text(t)
        } else {
            r.is_failure("date: invalid format"@)
        }
    }
}

/// The format `date` writes the time in: the default, or the argument
/// without its surrounding quotes and its leading `+`.
pub open spec fn spec_date_format(arg: Option<Seq<char>>) -> Seq<char> {
    match arg {
        None => DEFAULT_DATE_FORMAT@,
        Some(a) => trim_quotes(a).drop_first(),
    }
}

/// The format `date` writes the time in, for its argument `arg`.
pub fn date_format(arg: Option<&str>) -> (r: &str)
    requires
        arg matches Some(a) ==> trim_quotes(a@).len() > 0,
    ensures
        r@ == spec_date_format(
            match arg {
                Some(a) => Some(a@),
                None => None,
            },
        ),
{
    match arg {
        None => DEFAULT_DATE_FORMAT,
        Some(a) => {
            let t = trim_quote_chars(a);
            let n = t.unicode_len();
            let f = t.substring_char(1, n);
            assert(f@ =~= t@.drop_first());
            f
        },
    }
}

/// Prints the date and time.
pub struct DateCommand;

impl DateCommand {
    /// The current time in `format`, or in the default format.
    fn get_date(&self, format: Option<&str>) -> (r: Option<String>)
        ensures
            r is Some <==> strftime_ok(
                match format {
                    Some(f) => f@,
                    None => DEFAULT_DATE_FORMAT@,
                },
            ),
    {
        match format {
            None => format_local_now(DEFAULT_DATE_FORMAT),
            Some(f) => format_local_now(f),
        }
    }

    /// Runs `date`: at most one argument, which (without surrounding
    /// quotes) must start with `+`; what follows is the format.
    pub fn execute(&self, path: &str, args: Vec<&str>, stdin: Option<&str>, is_output_tty: bool) -> (r: CommandRes)
        ensures
            date_result(r, strs_of(args@)),
    {
        if args.len() > 1 {
            return CommandRes::new().with_error().with_stderr("date: too many arguments");
        }
        let formatted = if args.len() == 1 {
            let arg = trim_quote_chars(args[0]);
            if !(arg.unicode_len() > 0 && arg.get_char(0) == '+') {
                return CommandRes::new().with_error().with_stderr("date: invalid format (must start with +)");
            }
            self.get_date(Some(date_format(Some(args[0]))))
        } else {
            self.get_date(None)
        };
        let ghost f = formatted;
        let r = date_output(formatted);
        proof {
            match f {
                    Some(t) => {
                    assert(r.is_success_text(t@));
                },
                None => {},
            }
        }
        r
    }
}

/// One line of `history`: the number right-aligned in four columns, two
/// spaces, the command.
pub open spec fn history_line(n: nat, cmd: Seq<char>) -> Seq<char> {
    pad_left(spec_decimal(n), 4) + "  "@ + cmd
}

/// The lines of `history` for `cmds`, numbered from `start + 1`.
pub open spec fn history_lines(start: nat, cmds: Seq<Seq<char>>) -> Seq<Seq<char>> {
    Seq::new(cmds.len(), |i: int| history_line((start + i + 1) as nat, cmds[i]))
}

/// The digits of `s` as a number.
pub open spec fn digits_value(s: Seq<char>) -> nat
    decreases s.len(),
{
    if s.len() == 0 {
        0
    } else {
        digits_value(s.drop_last()) * 10 + ((s.last() as nat) - ('0' as nat)) as nat
    }
}

/// What `str::parse` gives for an unsigned number: an optional `+`, then
/// one or more ASCII digits.
pub open spec fn spec_parse_unsigned(s: Seq<char>) -> Option<nat> {
    let d = unsigned_digits(s);
    if d.len() > 0 && all_digits(d) {
        Some(digits_value(d))
    } else {
        None
    }
}

/// `s` without a leading `+`.
pub open spec fn unsigned_digits(s: Seq<char>) -> Seq<char> {
    if s.len() > 0 && s[0] == '+' {
        s.drop_first()
    } else {
        s
    }
}

/// Whether every character of `d` is an ASCII digit.
pub open spec fn all_digits(d: Seq<char>) -> bool {
    forall|i: int| 0 <= i < d.len() ==> '0' <= #[trigger] d[i] <= '9'
}

/// The number written in `s` as `str::parse` reads an unsigned one (an
/// optional `+`, then one or more ASCII digits), when it is at most `max`.
pub fn parse_unsigned(s: &str, max: u64) -> (r: Option<u64>)
    ensures
        r == match spec_parse_unsigned(s@) {
            Some(v) => if v <= max {
                Some(v as u64)
            } else {
                None::<u64>
            },
            None => None::<u64>,
        },
{
    let chars = chars_of(s);
    let n = chars.len();
    let mut i: usize = 0;
    if n > 0 && chars[0] == '+' {
        i = 1;
    }
    let start = i;
    let ghost d = s@.skip(start as int);
    assert(d =~= unsigned_digits(s@));
    if start == n {
        return None;
    }
    let mut v: u64 = 0;
    let mut over = false;
    assert(s@.subrange(start as int, start as int) =~= Seq::<char>::empty());
    while i < n
        invariant
            start <= i <= n,
            n == s@.len(),
            chars@ == s@,
            d == s@.skip(start as int),
            d == unsigned_digits(s@),
            forall|k: int| start <= k < i ==> '0' <= #[trigger] s@[k] <= '9',
            !over ==> v == digits_value(s@.subrange(start as int, i as int)) && v <= max,
            over ==> digits_value(s@.subrange(start as int, i as int)) > max,
        decreases n - i,
    {
        let c = chars[i];
        if !('0' <= c && c <= '9') {
            proof {
                let k = (i - start) as int;
                assert(d[k] == c);
                assert(!('0' <= d[k] <= '9'));
                assert(!all_digits(d));
            }
            return None;
        }
        let ghost pre = s@.subrange(start as int, i as int);
        assert(s@.subrange(start as int, i + 1).drop_last() =~= pre);
        assert(s@.subrange(start as int, i + 1).last() == c);
        let dv: u64 = (c as u32 - '0' as u32) as u64;
        if !over {
            let nv: u128 = (v as u128) * 10 + (dv as u128);
            if nv > max as u128 {
                over = true;
            } else {
                v = nv as u64;
            }
        }
        i = i + 1;
    }
    assert(s@.subrange(start as int, n as int) =~= d);
    assert forall|k: int| 0 <= k < d.len() implies '0' <= #[trigger] d[k] <= '9' by {
        assert(d[k] == s@[k + start]);
    }
    assert(all_digits(d));
    if over {
        None
    } else {
        Some(v)
    }
}

/// `str::parse::<usize>`: the number when the text is an optional `+` and
/// one or more ASCII digits whose value fits in a `usize`, else `None`.
pub(crate) fn parse_usize(s: &str) -> (r: Option<usize>)
    ensures
        r == match spec_parse_unsigned(s@) {
            Some(v) => if v <= usize::MAX {
                Some(v as usize)
            } else {
                None::<usize>
            },
            None => None::<usize>,
        },
{
    match parse_unsigned(s, usize::MAX as u64) {
        Some(v) => Some(v as usize),
        None => None,
    }
}

/// What `history` answers for the entries `h`: all of them numbered, or
/// with a number `n` the last `n`.
pub open spec fn history_result(r: CommandRes, h: Seq<Seq<char>>, args: Seq<Seq<char>>) -> bool {
    if args.len() > 1 {
        r.is_failure("history: too many arguments"@)
    } else if args.len() == 1 {
        match spec_parse_unsigned(args[0]) {
            Some(v) if v <= usize::MAX => {
                let count = if v < h.len() {
                    v
                } else {
                    h.len()
                };
                let start = (h.len() - count) as nat;
                r.is_success_text(join_with(history_lines(start, h.skip(start as int)), "\n"@))
            },
            _ => r.is_failure("history: numeric argument required"@),
        }
    } else {
        r.is_success_text(join_with(history_lines(0, h), "\n"@))
    }
}

/// Shows the command history.
pub struct HistoryCommand<'a> {
    history: &'a [String],
}

impl<'a> HistoryCommand<'a> {
    pub fn new(history: &'a [String]) -> (r: Self)
        ensures
            r.entries() == history@,
    {
        HistoryCommand { history }
    }

    pub closed spec fn entries(&self) -> Seq<String> {
        self.history@
    }

    /// The numbered lines for `cmds`, counted from `start_idx + 1`.
    fn format_history(&self, start_idx: usize, cmds: &[String]) -> (r: String)
        requires
            start_idx + cmds@.len() <= usize::MAX,
        ensures
            r@ == join_with(history_lines(start_idx as nat, names_of(cmds@)), "\n"@),
    {
        let ghost want = history_lines(start_idx as nat, names_of(cmds@));
        let mut lines: Vec<String> = Vec::new();
        let mut i: usize = 0;
        while i < cmds.len()
            invariant
                start_idx + cmds@.len() <= usize::MAX,
                want == history_lines(start_idx as nat, names_of(cmds@)),
                i <= cmds.len(),
                names_of(lines@) == want.take(i as int),
            decreases cmds.len() - i,
        {
            let num = decimal((start_idx + i + 1) as u64);
            let mut line = padded_left(num.as_str(), 4);
            line.append("  ");
            line.append(cmds[i].as_str());
            let ghost before = names_of(lines@);
            lines.push(line);
            assert(names_of(lines@) =~= before.push(lines@.last()@));
            assert(want.take(i + 1) =~= want.take(i as int).push(want[i as int]));
            i = i + 1;
        }
        assert(want.take(i as int) =~= want);
        join_strings(&lines, "\n")
    }

    /// Runs `history`: all entries, or with a number `n` the last `n`.
    /// Clearing (`-c`) is the terminal's business.
    pub fn execute(&self, path: &str, args: Vec<&str>, stdin: Option<&str>, is_output_tty: bool) -> (r: CommandRes)
        requires
            args.len() == 1 ==> args@[0]@ != "-c"@,
        ensures
            history_result(r, names_of(self.entries()), strs_of(args@)),
    {
        if args.len() > 1 {
            return CommandRes::new().with_error().with_stderr("history: too many arguments");
        }
        if args.len() == 1 {
            match parse_usize(args[0]) {
                Some(n) => {
                    let count = if n < self.history.len() {
                        n
                    } else {
                        self.history.len()
                    };
                    let start_idx = self.history.len() - count;
                    let slice = vstd::slice::slice_subrange(self.history, start_idx, self.history.len());
                    assert(slice@ =~= self.history@.skip(start_idx as int));
                    assert(names_of(slice@) =~= names_of(self.history@).skip(start_idx as int));
                    let output = self.format_history(start_idx, slice);
                    return CommandRes::new().with_stdout_text(output.as_str());
                },
                None => {
                    return CommandRes::new().with_error().with_stderr("history: numeric argument required");
                },
            }
        }
        let total = self.history.len();
        assert(total == self.history@.len());
        let output = self.format_history(0, self.history);
        CommandRes::new().with_stdout_text(output.as_str())
    }
}

/// The decimal notation of a signed number.
pub open spec fn spec_signed(v: int) -> Seq<char> {
    if v < 0 {
        "-"@ + spec_decimal((-v) as nat)
    } else {
        spec_decimal(v as nat)
    }
}

/// A signed number written with at least two characters, zero-padded.
pub open spec fn spec_two_digits(v: int) -> Seq<char> {
    if 0 <= v < 10 {
        "0"@ + spec_decimal(v as nat)
    } else {
        spec_signed(v)
    }
}

/// The days, hours past the day and minutes past the hour of `s`
/// seconds, each cut toward zero.
pub open spec fn uptime_fields(s: int) -> (int, int, int) {
    if s >= 0 {
        (s / 86400, (s / 3600) % 24, (s / 60) % 60)
    } else {
        let t = -s;
        (-(t / 86400), -((t / 3600) % 24), -((t / 60) % 60))
    }
}

/// What `uptime` prints at clock time `time`, `elapsed` seconds after the
/// site was built, with the load averages `loads`.
pub open spec fn spec_uptime_line(time: Seq<char>, elapsed: int, loads: Seq<char>) -> Seq<char> {
    let (d, h, m) = uptime_fields(elapsed);
    time + " up "@ + spec_signed(d) + " days, "@ + spec_signed(h) + ":"@ + spec_two_digits(m)
        + ", load average: "@ + loads
}

/// The decimal notation of `v`.
fn signed_decimal(v: i64) -> (r: String)
    ensures
        r@ == spec_signed(v as int),
{
    if v < 0 {
        let m: u64 = ((-(v + 1)) as u64) + 1;
        let d = decimal(m);
        let minus = "-";
        concat(minus, d.as_str())
    } else {
        decimal(v as u64)
    }
}

/// `v` with at least two characters, zero-padded.
fn two_digits(v: i64) -> (r: String)
    ensures
        r@ == spec_two_digits(v as int),
{
    if 0 <= v && v < 10 {
        let d = decimal(v as u64);
        let zero = "0";
        concat(zero, d.as_str())
    } else {
        signed_decimal(v)
    }
}

/// Prints how long the site has been up.
pub struct UptimeCommand;

impl UptimeCommand {
    /// The line printed at clock time `time`, `elapsed` whole seconds
    /// (cut toward zero) after the build, with the load averages `loads`.
    pub fn uptime_line(&self, time: &str, elapsed: i64, loads: &str) -> (r: String)
        ensures
            r@ == spec_uptime_line(time@, elapsed as int, loads@),
    {
        let (d, h, m) = if elapsed >= 0 {
            (elapsed / 86400, (elapsed / 3600) % 24, (elapsed / 60) % 60)
        } else {
            let t: u64 = ((-(elapsed + 1)) as u64) + 1;
            let d = (t / 86400) as i64;
            let h = ((t / 3600) % 24) as i64;
            let m = ((t / 60) % 60) as i64;
            (-d, -h, -m)
        };
        let mut out = String::from_str(time);
        out.append(" up ");
        let ds = signed_decimal(d);
        out.append(ds.as_str());
        out.append(" days, ");
        let hs = signed_decimal(h);
        out.append(hs.as_str());
        out.append(":");
        let ms = two_digits(m);
        out.append(ms.as_str());
        out.append(", load average: ");
        out.append(loads);
        out
    }

    /// Answers `uptime` with `uptime_line`.
    pub fn execute(&self, time: &str, elapsed: i64, loads: &str) -> (r: CommandRes)
        ensures
            r.is_success_text(spec_uptime_line(time@, elapsed as int, loads@)),
    {
        let line = self.uptime_line(time, elapsed, loads);
        CommandRes::new().with_stdout_text(line.as_str())
    }
}

} // verus!
