use vstd::prelude::*;

use crate::fs_tools::LsView;
use crate::text::str_eq;

verus! {

/// The outcome of a shell command: output (with an error flag, the text
/// for standard output and standard error, and a directory listing to
/// display), or a navigation to another location.
pub enum CommandRes {
    Output {
        is_err: bool,
        stdout_view: Option<LsView>,
        stdout_text: Option<String>,
        stderr_text: Option<String>,
    },
    Redirect(String),
}

/// A command's outcome as a value: output with its error flag, listing,
/// standard output and standard error, or a navigation.
pub ghost enum ResV {
    Output { is_err: bool, listing: Option<LsView>, stdout: Option<Seq<char>>, stderr: Option<Seq<char>> },
    Redirect(Seq<char>),
}

impl View for CommandRes {
    type V = ResV;

    open spec fn view(&self) -> ResV {
        match self {
            CommandRes::Output { is_err, stdout_view, .. } => ResV::Output {
                is_err: *is_err,
                listing: *stdout_view,
                stdout: self.stdout(),
                stderr: self.stderr(),
            },
            CommandRes::Redirect(s) => ResV::Redirect(s@),
        }
    }
}

/// `v` marked as failed, when it is an output.
pub open spec fn marked_failed(v: ResV) -> ResV {
    match v {
        ResV::Output { listing, stdout, stderr, .. } => ResV::Output { is_err: true, listing, stdout, stderr },
        ResV::Redirect(u) => ResV::Redirect(u),
    }
}

/// `v` with standard-error text `t`, when it is an output.
pub open spec fn with_err_text(v: ResV, t: Seq<char>) -> ResV {
    match v {
        ResV::Output { is_err, listing, stdout, .. } => ResV::Output { is_err, listing, stdout, stderr: Some(t) },
        ResV::Redirect(u) => ResV::Redirect(u),
    }
}

/// `v` with standard-output text `t`, when it is an output.
pub open spec fn with_out_text(v: ResV, t: Seq<char>) -> ResV {
    match v {
        ResV::Output { is_err, listing, stderr, .. } => ResV::Output { is_err, listing, stdout: Some(t), stderr },
        ResV::Redirect(u) => ResV::Redirect(u),
    }
}

impl CommandRes {
    pub open spec fn spec_is_err(&self) -> bool {
        match self {
            CommandRes::Output { is_err, .. } => *is_err,
            CommandRes::Redirect(_) => false,
        }
    }

    /// The standard-output text, if any.
    pub open spec fn stdout(&self) -> Option<Seq<char>> {
        match self {
            CommandRes::Output { stdout_text, .. } => match stdout_text {
                Some(s) => Some(s@),
                None => None,
            },
            CommandRes::Redirect(_) => None,
        }
    }

    /// The standard-error text, if any.
    pub open spec fn stderr(&self) -> Option<Seq<char>> {
        match self {
            CommandRes::Output { stderr_text, .. } => match stderr_text {
                Some(s) => Some(s@),
                None => None,
            },
            CommandRes::Redirect(_) => None,
        }
    }

    /// The location navigated to, if this is a navigation.
    pub open spec fn redirect_target(&self) -> Option<Seq<char>> {
        match self {
            CommandRes::Redirect(s) => Some(s@),
            _ => None,
        }
    }

    /// The listing to display, if any.
    pub open spec fn listing(&self) -> Option<LsView> {
        match self {
            CommandRes::Output { stdout_view, .. } => *stdout_view,
            CommandRes::Redirect(_) => None,
        }
    }

    pub open spec fn has_view(&self) -> bool {
        self matches CommandRes::Output { stdout_view: Some(_), .. }
    }

    /// A successful result with no output.
    pub open spec fn is_empty_output(&self) -> bool {
        &&& self is Output
        &&& !self.spec_is_err()
        &&& self.stdout() is None
        &&& self.stderr() is None
        &&& !self.has_view()
    }

    /// A failure that prints `msg` on standard error and nothing else.
    pub open spec fn is_failure(&self, msg: Seq<char>) -> bool {
        &&& self is Output
        &&& self.spec_is_err()
        &&& self.stdout() is None
        &&& self.stderr() == Some(msg)
        &&& !self.has_view()
    }

    /// A success that prints `msg` on standard output and nothing else.
    pub open spec fn is_success_text(&self, msg: Seq<char>) -> bool {
        &&& self is Output
        &&& !self.spec_is_err()
        &&& self.stdout() == Some(msg)
        &&& self.stderr() is None
        &&& !self.has_view()
    }

    /// An empty, successful result.
    pub fn new() -> (r: Self)
        ensures
            r.is_empty_output(),
    {
        CommandRes::Output { is_err: false, stdout_view: None, stdout_text: None, stderr_text: None }
    }

    pub fn redirect(url: String) -> (r: Self)
        ensures
            r.redirect_target() == Some(url@),
    {
        CommandRes::Redirect(url)
    }

    /// Marks an output as failed; a navigation stays as it is.
    pub fn with_error(self) -> (r: Self)
        ensures
            self is Output ==> r.spec_is_err() && r.stdout() == self.stdout() && r.stderr() == self.stderr()
                && r.has_view() == self.has_view() && r is Output,
            r.listing() == self.listing(),
            r@ == marked_failed(self@),
            self is Redirect ==> r == self,
    {
        match self {
            CommandRes::Output { is_err: _, stdout_view, stdout_text, stderr_text } => CommandRes::Output {
                is_err: true,
                stdout_view,
                stdout_text,
                stderr_text,
            },
            CommandRes::Redirect(s) => CommandRes::Redirect(s),
        }
    }

    /// Sets the standard-error text of an output.
    pub fn with_stderr(self, text: &str) -> (r: Self)
        ensures
            self is Output ==> r.spec_is_err() == self.spec_is_err() && r.stdout() == self.stdout()
                && r.stderr() == Some(text@) && r.has_view() == self.has_view() && r is Output,
            r.listing() == self.listing(),
            r@ == with_err_text(self@, text@),
            self is Redirect ==> r == self,
    {
        match self {
            CommandRes::Output { is_err, stdout_view, stdout_text, stderr_text: _ } => CommandRes::Output {
                is_err,
                stdout_view,
                stdout_text,
                stderr_text: Some(String::from_str(text)),
            },
            CommandRes::Redirect(s) => CommandRes::Redirect(s),
        }
    }

    /// Sets the standard-output text of an output.
    pub fn with_stdout_text(self, text: &str) -> (r: Self)
        ensures
            self is Output ==> r.spec_is_err() == self.spec_is_err() && r.stdout() == Some(text@)
                && r.stderr() == self.stderr() && r.has_view() == self.has_view() && r is Output,
            r.listing() == self.listing(),
            r@ == with_out_text(self@, text@),
            self is Redirect ==> r == self,
    {
        match self {
            CommandRes::Output { is_err, stdout_view, stdout_text: _, stderr_text } => CommandRes::Output {
                is_err,
                stdout_view,
                stdout_text: Some(String::from_str(text)),
                stderr_text,
            },
            CommandRes::Redirect(s) => CommandRes::Redirect(s),
        }
    }

    /// The same as `with_stderr`.
    pub fn with_stderr_text(self, text: &str) -> (r: Self)
        ensures
            self is Output ==> r.spec_is_err() == self.spec_is_err() && r.stdout() == self.stdout()
                && r.stderr() == Some(text@) && r.has_view() == self.has_view() && r is Output,
            r.listing() == self.listing(),
            r@ == with_err_text(self@, text@),
            self is Redirect ==> r == self,
    {
        self.with_stderr(text)
    }

    /// Sets the listing to display for an output.
    pub fn with_stdout_view(self, view: LsView) -> (r: Self)
        ensures
            self is Output ==> r.spec_is_err() == self.spec_is_err() && r.stdout() == self.stdout()
                && r.stderr() == self.stderr() && (r matches CommandRes::Output { stdout_view: Some(v), .. } && v == view),
            self is Redirect ==> r == self,
    {
        match self {
            CommandRes::Output { is_err, stdout_view: _, stdout_text, stderr_text } => CommandRes::Output {
                is_err,
                stdout_view: Some(view),
                stdout_text,
                stderr_text,
            },
            CommandRes::Redirect(s) => CommandRes::Redirect(s),
        }
    }

    pub fn is_error(&self) -> (r: bool)
        ensures
            r == self.spec_is_err(),
    {
        match self {
            CommandRes::Output { is_err, .. } => *is_err,
            CommandRes::Redirect(_) => false,
        }
    }
}

/// The commands the shell knows.
#[derive(Debug, Clone, Copy, PartialEq, Eq, Hash)]
pub enum Cmd {
    Help,
    Pwd,
    Ls,
    Cd,
    Cat,
    Clear,
    Cp,
    Date,
    Echo,
    History,
    Mines,
    MkDir,
    Mv,
    Rm,
    Neofetch,
    Touch,
    Which,
    WhoAmI,
    Sudo,
    Uptime,
    Ps,
    Kill,
    Unknown,
}

/// The name of each command.
pub open spec fn cmd_name(c: Cmd) -> Seq<char> {
    match c {
        Cmd::Help => "help"@,
        Cmd::Pwd => "pwd"@,
        Cmd::Ls => "ls"@,
        Cmd::Cd => "cd"@,
        Cmd::Cat => "cat"@,
        Cmd::Clear => "clear"@,
        Cmd::Cp => "cp"@,
        Cmd::Date => "date"@,
        Cmd::Echo => "echo"@,
        Cmd::History => "history"@,
        Cmd::Mines => "mines"@,
        Cmd::MkDir => "mkdir"@,
        Cmd::Mv => "mv"@,
        Cmd::Rm => "rm"@,
        Cmd::Touch => "touch"@,
        Cmd::Which => "which"@,
        Cmd::WhoAmI => "whoami"@,
        Cmd::Neofetch => "neofetch"@,
        Cmd::Sudo => "sudo"@,
        Cmd::Uptime => "uptime"@,
        Cmd::Ps => "ps"@,
        Cmd::Kill => "kill"@,
        Cmd::Unknown => "unknown"@,
    }
}

/// The command named `s`, if any (`unknown` names none).
pub open spec fn spec_cmd_from_str(s: Seq<char>) -> Option<Cmd> {
    if s == "help"@ { Some(Cmd::Help) }
    else if s == "pwd"@ { Some(Cmd::Pwd) }
    else if s == "ls"@ { Some(Cmd::Ls) }
    else if s == "cd"@ { Some(Cmd::Cd) }
    else if s == "cat"@ { Some(Cmd::Cat) }
    else if s == "clear"@ { Some(Cmd::Clear) }
    else if s == "cp"@ { Some(Cmd::Cp) }
    else if s == "date"@ { Some(Cmd::Date) }
    else if s == "echo"@ { Some(Cmd::Echo) }
    else if s == "history"@ { Some(Cmd::History) }
    else if s == "mines"@ { Some(Cmd::Mines) }
    else if s == "mkdir"@ { Some(Cmd::MkDir) }
    else if s == "mv"@ { Some(Cmd::Mv) }
    else if s == "rm"@ { Some(Cmd::Rm) }
    else if s == "touch"@ { Some(Cmd::Touch) }
    else if s == "which"@ { Some(Cmd::Which) }
    else if s == "whoami"@ { Some(Cmd::WhoAmI) }
    else if s == "neofetch"@ { Some(Cmd::Neofetch) }
    else if s == "sudo"@ { Some(Cmd::Sudo) }
    else if s == "uptime"@ { Some(Cmd::Uptime) }
    else if s == "ps"@ { Some(Cmd::Ps) }
    else if s == "kill"@ { Some(Cmd::Kill) }
    else { None }
}

/// The command named `s`, `Unknown` when no command has that name.
pub open spec fn spec_cmd_of(s: Seq<char>) -> Cmd {
    match spec_cmd_from_str(s) {
        Some(c) => c,
        None => Cmd::Unknown,
    }
}

/// The names listed for completion: every command but `sudo` and
/// `unknown`.
pub open spec fn spec_all_names() -> Seq<Seq<char>> {
    seq![
        "help"@, "pwd"@, "ls"@, "cd"@, "cat"@, "clear"@, "cp"@, "date"@, "echo"@, "history"@,
        "mines"@, "mkdir"@, "mv"@, "rm"@, "touch"@, "which"@, "whoami"@, "neofetch"@, "uptime"@,
        "ps"@, "kill"@,
    ]
}

/// Where a command's program seems to live, if it has one: core tools in
/// `/bin`, the site's own apps in `/usr/local/bin`, the rest in `/usr/bin`;
/// shell builtins and unknown commands have none.
pub open spec fn spec_simulated_path(c: Cmd) -> Option<Seq<char>> {
    match c {
        Cmd::Pwd | Cmd::Cd | Cmd::Echo | Cmd::History | Cmd::Unknown => None,
        Cmd::Ls | Cmd::Cat | Cmd::Cp | Cmd::Mv | Cmd::Rm | Cmd::MkDir | Cmd::Touch => Some("/bin/"@ + cmd_name(c)),
        Cmd::Neofetch | Cmd::Mines => Some("/usr/local/bin/"@ + cmd_name(c)),
        _ => Some("/usr/bin/"@ + cmd_name(c)),
    }
}

pub open spec fn spec_is_builtin(c: Cmd) -> bool {
    c is Pwd || c is Cd || c is Echo || c is History
}

impl Cmd {
    /// Every command name offered for completion.
    pub fn all() -> (r: Vec<&'static str>)
        ensures
            r@.map_values(|s: &'static str| s@) == spec_all_names(),
    {
        let r = vec![
            "help", "pwd", "ls", "cd", "cat", "clear", "cp", "date", "echo", "history", "mines",
            "mkdir", "mv", "rm", "touch", "which", "whoami", "neofetch", "uptime", "ps", "kill",
        ];
        assert(r@.map_values(|s: &'static str| s@) =~= spec_all_names());
        r
    }

    /// The command named `s`.
    pub fn from_str(s: &str) -> (r: Option<Cmd>)
        ensures
            r == spec_cmd_from_str(s@),
    {
        if str_eq(s, "help") { Some(Cmd::Help) }
        else if str_eq(s, "pwd") { Some(Cmd::Pwd) }
        else if str_eq(s, "ls") { Some(Cmd::Ls) }
        else if str_eq(s, "cd") { Some(Cmd::Cd) }
        else if str_eq(s, "cat") { Some(Cmd::Cat) }
        else if str_eq(s, "clear") { Some(Cmd::Clear) }
        else if str_eq(s, "cp") { Some(Cmd::Cp) }
        else if str_eq(s, "date") { Some(Cmd::Date) }
        else if str_eq(s, "echo") { Some(Cmd::Echo) }
        else if str_eq(s, "history") { Some(Cmd::History) }
        else if str_eq(s, "mines") { Some(Cmd::Mines) }
        else if str_eq(s, "mkdir") { Some(Cmd::MkDir) }
        else if str_eq(s, "mv") { Some(Cmd::Mv) }
        else if str_eq(s, "rm") { Some(Cmd::Rm) }
        else if str_eq(s, "touch") { Some(Cmd::Touch) }
        else if str_eq(s, "which") { Some(Cmd::Which) }
        else if str_eq(s, "whoami") { Some(Cmd::WhoAmI) }
        else if str_eq(s, "neofetch") { Some(Cmd::Neofetch) }
        else if str_eq(s, "sudo") { Some(Cmd::Sudo) }
        else if str_eq(s, "uptime") { Some(Cmd::Uptime) }
        else if str_eq(s, "ps") { Some(Cmd::Ps) }
        else if str_eq(s, "kill") { Some(Cmd::Kill) }
        else { None }
    }

    /// The command named `s`, `Unknown` when there is none.
    pub fn from_name(s: &str) -> (r: Cmd)
        ensures
            r == spec_cmd_of(s@),
    {
        match Cmd::from_str(s) {
            Some(c) => c,
            None => Cmd::Unknown,
        }
    }

    pub fn simulated_path(&self) -> (r: Option<String>)
        ensures
            match r {
                Some(p) => spec_simulated_path(*self) == Some(p@),
                None => spec_simulated_path(*self) is None,
            },
    {
        match self {
            Cmd::Pwd | Cmd::Cd | Cmd::Echo | Cmd::History => None,
            Cmd::Ls | Cmd::Cat | Cmd::Cp | Cmd::Mv | Cmd::Rm | Cmd::MkDir | Cmd::Touch => {
                let mut p = String::from_str("/bin/");
                p.append(self.as_str());
                Some(p)
            },
            Cmd::Ps | Cmd::Kill | Cmd::WhoAmI | Cmd::Which | Cmd::Uptime => {
                let mut p = String::from_str("/usr/bin/");
                p.append(self.as_str());
                Some(p)
            },
            Cmd::Clear | Cmd::Date => {
                let mut p = String::from_str("/usr/bin/");
                p.append(self.as_str());
                Some(p)
            },
            Cmd::Neofetch | Cmd::Mines => {
                let mut p = String::from_str("/usr/local/bin/");
                p.append(self.as_str());
                Some(p)
            },
            Cmd::Help => {
                let mut p = String::from_str("/usr/bin/");
                p.append(self.as_str());
                Some(p)
            },
            Cmd::Sudo => {
                let mut p = String::from_str("/usr/bin/");
                p.append(self.as_str());
                Some(p)
            },
            Cmd::Unknown => None,
        }
    }

    pub fn as_str(&self) -> (r: &'static str)
        ensures
            r@ == cmd_name(*self),
    {
        match self {
            Cmd::Help => "help",
            Cmd::Pwd => "pwd",
            Cmd::Ls => "ls",
            Cmd::Cd => "cd",
            Cmd::Cat => "cat",
            Cmd::Clear => "clear",
            Cmd::Cp => "cp",
            Cmd::Date => "date",
            Cmd::Echo => "echo",
            Cmd::History => "history",
            Cmd::Mines => "mines",
            Cmd::MkDir => "mkdir",
            Cmd::Mv => "mv",
            Cmd::Rm => "rm",
            Cmd::Touch => "touch",
            Cmd::Which => "which",
            Cmd::WhoAmI => "whoami",
            Cmd::Neofetch => "neofetch",
            Cmd::Sudo => "sudo",
            Cmd::Uptime => "uptime",
            Cmd::Ps => "ps",
            Cmd::Kill => "kill",
            Cmd::Unknown => "unknown",
        }
    }

    /// `pwd`, `cd`, `echo` and `history` are shell builtins.
    pub fn is_builtin(&self) -> (r: bool)
        ensures
            r == spec_is_builtin(*self),
    {
        matches!(self, Cmd::Pwd | Cmd::Cd | Cmd::Echo | Cmd::History)
    }
}

/// The shell's aliases: `ll`, `la` and `h`.
#[derive(Debug, Clone)]
pub enum CmdAlias {
    Ll,
    La,
    H,
}

pub open spec fn alias_name(a: CmdAlias) -> Seq<char> {
    match a {
        CmdAlias::Ll => "ll"@,
        CmdAlias::La => "la"@,
        CmdAlias::H => "h"@,
    }
}

/// What an alias stands for.
pub open spec fn alias_body(a: CmdAlias) -> Seq<char> {
    match a {
        CmdAlias::Ll => "ls -la"@,
        CmdAlias::La => "ls -a"@,
        CmdAlias::H => "history"@,
    }
}

pub open spec fn spec_alias_from_str(s: Seq<char>) -> Option<CmdAlias> {
    if s == "ll"@ {
        Some(CmdAlias::Ll)
    } else if s == "la"@ {
        Some(CmdAlias::La)
    } else if s == "h"@ {
        Some(CmdAlias::H)
    } else {
        None
    }
}

impl CmdAlias {
    pub fn all() -> (r: Vec<CmdAlias>)
        ensures
            r@ == seq![CmdAlias::Ll, CmdAlias::La, CmdAlias::H],
    {
        let r = vec![CmdAlias::Ll, CmdAlias::La, CmdAlias::H];
        assert(r@ =~= seq![CmdAlias::Ll, CmdAlias::La, CmdAlias::H]);
        r
    }

    pub fn as_str(&self) -> (r: &'static str)
        ensures
            r@ == alias_name(*self),
    {
        match self {
            CmdAlias::Ll => "ll",
            CmdAlias::La => "la",
            CmdAlias::H => "h",
        }
    }

    /// The alias's expansion followed directly by `args`.
    pub fn expand(&self, args: &str) -> (r: String)
        ensures
            r@ == alias_body(*self) + args@,
    {
        let mut r = match self {
            CmdAlias::Ll => String::from_str("ls -la"),
            CmdAlias::La => String::from_str("ls -a"),
            CmdAlias::H => String::from_str("history"),
        };
        r.append(args);
        r
    }

    pub fn from_str(s: &str) -> (r: Option<CmdAlias>)
        ensures
            r == spec_alias_from_str(s@),
    {
        if str_eq(s, "ll") {
            Some(CmdAlias::Ll)
        } else if str_eq(s, "la") {
            Some(CmdAlias::La)
        } else if str_eq(s, "h") {
            Some(CmdAlias::H)
        } else {
            None
        }
    }
}

} // verus!
