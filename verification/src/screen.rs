use vstd::prelude::*;

use crate::command::CommandRes;
use crate::fs_tools::{LsView, LsViewV};
use crate::prompt::{dir_from_pathname, spec_prompt_dir};
use crate::terminal::{terminal_result, Terminal};
use crate::text::{str_eq, trim, trim_ws};

verus! {

/// One entry of the terminal's output: a command as it was typed (with the
/// prompt it was typed at), an error message, text, or a listing.
pub enum OutputLine {
    Prompt { was_err: bool, dir: String, cmd: String },
    Error(String),
    Text(String),
    Listing(LsView),
}

pub ghost enum LineV {
    Prompt { was_err: bool, dir: Seq<char>, cmd: Seq<char> },
    Error(Seq<char>),
    Text(Seq<char>),
    Listing(LsViewV),
}

impl View for OutputLine {
    type V = LineV;

    open spec fn view(&self) -> LineV {
        match self {
            OutputLine::Prompt { was_err, dir, cmd } => LineV::Prompt { was_err: *was_err, dir: dir@, cmd: cmd@ },
            OutputLine::Error(s) => LineV::Error(s@),
            OutputLine::Text(s) => LineV::Text(s@),
            OutputLine::Listing(v) => LineV::Listing(v@),
        }
    }
}

pub ghost struct ScreenV {
    pub lines: Seq<LineV>,
    pub is_err: bool,
}

/// What the terminal has shown, oldest first, and whether the last command
/// failed (the prompt turns red).
pub struct Screen {
    lines: Vec<OutputLine>,
    is_err: bool,
}

pub open spec fn line_views(v: Seq<OutputLine>) -> Seq<LineV> {
    v.map_values(|l: OutputLine| l@)
}

impl View for Screen {
    type V = ScreenV;

    closed spec fn view(&self) -> ScreenV {
        ScreenV { lines: line_views(self.lines@), is_err: self.is_err }
    }
}

/// The screen once `cmd` is entered at `path`: `clear` wipes it, anything
/// else is echoed after the prompt it was typed at.
pub open spec fn spec_echo(s: ScreenV, path: Seq<char>, cmd: Seq<char>) -> ScreenV {
    if trim_ws(cmd) == "clear"@ {
        ScreenV { lines: Seq::empty(), is_err: s.is_err }
    } else {
        ScreenV {
            lines: s.lines.push(LineV::Prompt { was_err: s.is_err, dir: spec_prompt_dir(path), cmd }),
            is_err: s.is_err,
        }
    }
}

/// The screen after a command's answer is shown, and the location to go
/// to: an error message when there is one, then the listing or else the
/// text; a navigation shows nothing and clears the error mark.
pub open spec fn spec_show(s: ScreenV, res: CommandRes) -> (ScreenV, Option<Seq<char>>) {
    match res {
        CommandRes::Output { is_err, stdout_view, stdout_text, stderr_text } => {
            let l1 = match stderr_text {
                Some(e) => if e@.len() > 0 {
                    s.lines.push(LineV::Error(e@))
                } else {
                    s.lines
                },
                None => s.lines,
            };
            let l2 = match stdout_view {
                Some(v) => l1.push(LineV::Listing(v@)),
                None => match stdout_text {
                    Some(t) => if t@.len() > 0 {
                        l1.push(LineV::Text(t@))
                    } else {
                        l1
                    },
                    None => l1,
                },
            };
            (ScreenV { lines: l2, is_err }, None)
        },
        CommandRes::Redirect(u) => (ScreenV { lines: s.lines, is_err: false }, Some(u@)),
    }
}

pub open spec fn opt_text(r: Option<String>) -> Option<Seq<char>> {
    match r {
        Some(s) => Some(s@),
        None => None,
    }
}

impl Screen {
    /// Nothing shown, no error.
    pub fn new() -> (r: Self)
        ensures
            r@ == (ScreenV { lines: Seq::empty(), is_err: false }),
    {
        let r = Screen { lines: Vec::new(), is_err: false };
        assert(line_views(r.lines@) =~= Seq::<LineV>::empty());
        r
    }

    /// Echoes `cmd` typed at `path` (or clears the screen for `clear`).
    pub fn echo(&mut self, path: &str, cmd: &str)
        ensures
            final(self)@ == spec_echo(old(self)@, path@, cmd@),
    {
        let clear = "clear";
        if str_eq(trim(cmd), clear) {
            self.lines = Vec::new();
            assert(line_views(self.lines@) =~= Seq::<LineV>::empty());
        } else {
            let line = OutputLine::Prompt {
                was_err: self.is_err,
                dir: dir_from_pathname(path),
                cmd: String::from_str(cmd),
            };
            let ghost before = self.lines@;
            self.lines.push(line);
            assert(line_views(self.lines@) =~= line_views(before).push(line@));
        }
    }

    /// Shows the answer `res`; returns the location to go to, if any.
    pub fn show(&mut self, res: CommandRes) -> (r: Option<String>)
        ensures
            (final(self)@, opt_text(r)) == spec_show(old(self)@, res),
    {
        let ghost r0 = res;
        match res {
            CommandRes::Output { is_err, stdout_view, stdout_text, stderr_text } => {
                self.is_err = is_err;
                match stderr_text {
                    Some(e) => {
                        if e.unicode_len() > 0 {
                            let ghost before = self.lines@;
                            let line = OutputLine::Error(e);
                            self.lines.push(line);
                            assert(line_views(self.lines@) =~= line_views(before).push(line@));
                        }
                    },
                    None => {},
                }
                match stdout_view {
                    Some(v) => {
                        let ghost before = self.lines@;
                        let line = OutputLine::Listing(v);
                        self.lines.push(line);
                        assert(line_views(self.lines@) =~= line_views(before).push(line@));
                    },
                    None => match stdout_text {
                        Some(t) => {
                            if t.unicode_len() > 0 {
                                let ghost before = self.lines@;
                                let line = OutputLine::Text(t);
                                self.lines.push(line);
                                assert(line_views(self.lines@) =~= line_views(before).push(line@));
                            }
                        },
                        None => {},
                    },
                }
                None
            },
            CommandRes::Redirect(u) => {
                self.is_err = false;
                Some(u)
            },
        }
    }

    /// Enters `cmd` at `path`: echoes it, then runs it on `term` and shows
    /// the answer; Ctrl+C (`interrupted`) only echoes it and marks an error.
    /// Returns the location to go to, if any.
    pub fn run(&mut self, term: &mut Terminal, path: &str, cmd: &str, interrupted: bool) -> (r: Option<String>)
        requires
            old(term).wf(),
        ensures
            final(term).wf(),
            final(term).vars() == old(term).vars(),
            final(term).procs() == old(term).procs(),
            interrupted ==> {
                &&& final(self)@ == (ScreenV { is_err: true, ..spec_echo(old(self)@, path@, cmd@) })
                &&& r is None
                &&& final(term).fs() == old(term).fs()
                &&& final(term).hist() == old(term).hist()
            },
            !interrupted ==> exists|res: CommandRes|
                {
                    &&& terminal_result(
                        res,
                        old(term).fs(),
                        final(term).fs(),
                        old(term).hist(),
                        final(term).hist(),
                        old(term).vars(),
                        old(term).procs(),
                        path@,
                        cmd@,
                    )
                    &&& (final(self)@, opt_text(r)) == spec_show(spec_echo(old(self)@, path@, cmd@), res)
                },
    {
        self.echo(path, cmd);
        if interrupted {
            self.is_err = true;
            return None;
        }
        let res = term.handle_command(path, cmd);
        let ghost res0 = res;
        let r = self.show(res);
        assert(terminal_result(
            res0,
            old(term).fs(),
            term.fs(),
            old(term).hist(),
            term.hist(),
            old(term).vars(),
            old(term).procs(),
            path@,
            cmd@,
        ));
        r
    }

    /// Whether the last command failed.
    pub fn is_err(&self) -> (r: bool)
        ensures
            r == self@.is_err,
    {
        self.is_err
    }

    /// The entries shown, oldest first.
    pub fn lines(&self) -> (r: &Vec<OutputLine>)
        ensures
            line_views(r@) == self@.lines,
    {
        &self.lines
    }
}

} // verus!
