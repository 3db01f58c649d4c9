use indextree::NodeId;
use vstd::prelude::*;

use crate::command::{
    alias_body, spec_alias_from_str, spec_cmd_from_str, spec_is_builtin, spec_simulated_path, Cmd,
    CmdAlias, CommandRes,
};
use crate::fs::strs_view;
use crate::simple_tools::{MinesCommand, MINES_URL};
use crate::text::{concat, contains_char, ends_with, join_strings, names_of, seq_ends_with, str_eq};
use crate::vfs::{
    join_with, spec_node_path, spec_resolve_path, FileContent, FsModel, VfsNodeType,
    VirtualFilesystem,
};

verus! {

/// What `which` says of one name, and whether it found it: a path is
/// looked up in the filesystem (found when executable); then aliases,
/// shell builtins and commands with a program path; anything else is not
/// found.
pub open spec fn which_of(m: FsModel, cur: NodeId, c: Seq<char>) -> (Seq<char>, bool) {
    let not_found = c + " not found"@;
    if c.contains('/') {
        match spec_resolve_path(m, cur, c) {
            Ok(n) => if m.live(n) && m.data(n).permissions.execute {
                (c, true)
            } else {
                (not_found, false)
            },
            Err(_) => (not_found, false),
        }
    } else {
        match spec_alias_from_str(c) {
            Some(a) => (c + ": aliased to "@ + alias_body(a), true),
            None => match spec_cmd_from_str(c) {
                Some(cmd) => if spec_is_builtin(cmd) {
                    (c + ": shell builtin"@, true)
                } else {
                    match spec_simulated_path(cmd) {
                        Some(p) => (p, true),
                        None => (not_found, false),
                    }
                },
                None => (not_found, false),
            },
        }
    }
}

pub open spec fn which_fn(m: FsModel, cur: NodeId) -> spec_fn(Seq<char>) -> (Seq<char>, bool) {
    |c: Seq<char>| which_of(m, cur, c)
}

pub open spec fn answer_text() -> spec_fn((Seq<char>, bool)) -> Seq<char> {
    |a: (Seq<char>, bool)| a.0
}

/// What `which` with `args` answers: one line per name, and an error
/// when a name is not found.
pub open spec fn which_result(r: CommandRes, m: FsModel, cur: NodeId, args: Seq<Seq<char>>) -> bool {
    let answers = args.map_values(which_fn(m, cur));
    if args.len() == 0 {
        r.is_failure("which: missing argument"@)
    } else {
        &&& r is Output
        &&& !r.has_view()
        &&& r.stderr() is None
        &&& r.stdout() == Some(join_with(answers.map_values(answer_text()), "\n"@))
        &&& r.spec_is_err() == (exists|i: int| 0 <= i < answers.len() && !(#[trigger] answers[i]).1)
    }
}

/// Shows where commands live.
pub struct WhichCommand;

impl WhichCommand {
    pub fn new() -> (r: Self) {
        WhichCommand
    }

    fn get_which_result(&self, vfs: &VirtualFilesystem, current_dir: NodeId, command: &str) -> (r: (String, bool))
        requires
            vfs.wf(),
        ensures
            (r.0@, r.1) == which_of(vfs@, current_dir, command@),
    {
        if contains_char(command, '/') {
            let id = match vfs.resolve_path(current_dir, command) {
                Ok(id) => id,
                Err(_) => {
                    return (concat(command, " not found"), false);
                },
            };
            match vfs.get_node(id) {
                Some(node) => {
                    if node.is_executable() {
                        (String::from_str(command), true)
                    } else {
                        (concat(command, " not found"), false)
                    }
                },
                None => (concat(command, " not found"), false),
            }
        } else {
            match CmdAlias::from_str(command) {
                Some(alias) => {
                    let expansion = alias.expand("");
                    proof {
                        reveal_strlit("");
                        assert(expansion@ =~= alias_body(alias));
                    }
                    let mut text = concat(command, ": aliased to ");
                    text.append(expansion.as_str());
                    (text, true)
                },
                None => match Cmd::from_str(command) {
                    Some(cmd) => {
                        if cmd.is_builtin() {
                            (concat(command, ": shell builtin"), true)
                        } else {
                            match cmd.simulated_path() {
                                Some(p) => (p, true),
                                None => (concat(command, " not found"), false),
                            }
                        }
                    },
                    None => (concat(command, " not found"), false),
                },
            }
        }
    }

    /// Runs `which` for each argument: the answers one per line; an error
    /// when one is not found.
    pub fn execute(
        &self,
        vfs: &mut VirtualFilesystem,
        current_dir: NodeId,
        args: Vec<&str>,
        stdin: Option<&str>,
        is_tty: bool,
    ) -> (r: CommandRes)
        requires
            old(vfs).wf(),
        ensures
            final(vfs)@ == old(vfs)@,
            final(vfs).wf(),
            which_result(r, old(vfs)@, current_dir, strs_view(args@)),
    {
        if args.len() == 0 {
            return CommandRes::new().with_error().with_stderr("which: missing argument");
        }
        let fsys: &VirtualFilesystem = vfs;
        let ghost answers = strs_view(args@).map_values(which_fn(fsys@, current_dir));
        let ghost texts = answers.map_values(answer_text());
        let mut is_err = false;
        let mut results: Vec<String> = Vec::new();
        let mut i: usize = 0;
        while i < args.len()
            invariant
                fsys.wf(),
                i <= args.len(),
                answers == strs_view(args@).map_values(which_fn(fsys@, current_dir)),
                texts == answers.map_values(answer_text()),
                names_of(results@) == texts.take(i as int),
                is_err == (exists|k: int| 0 <= k < i && !(#[trigger] answers[k]).1),
            decreases args.len() - i,
        {
            let (text, found) = self.get_which_result(fsys, current_dir, args[i]);
            assert(answers[i as int] == which_of(fsys@, current_dir, args@[i as int]@));
            if !found {
                is_err = true;
            }
            let ghost before = names_of(results@);
            results.push(text);
            assert(names_of(results@) =~= before.push(results@.last()@));
            assert(texts.take(i + 1) =~= texts.take(i as int).push(texts[i as int]));
            i = i + 1;
        }
        assert(texts.take(i as int) =~= texts);
        let output = join_strings(&results, "\n");
        let mut res = CommandRes::new().with_stdout_text(output.as_str());
        if is_err {
            res = res.with_error();
        }
        res
    }
}

/// What happens when the first word is no command: a path may name a
/// directory (navigated to), a `nav.rs` file (followed), or `mines.sh`
/// (run); anything else is not a command.
pub open spec fn unknown_result(r: CommandRes, m: FsModel, cur: NodeId, t: Seq<char>, args: Seq<Seq<char>>) -> bool {
    let not_found = "command not found: "@ + t;
    match spec_resolve_path(m, cur, t) {
        Err(_) => r.is_failure(not_found),
        Ok(n) => if !m.live(n) {
            r.is_failure(not_found)
        } else {
            let exec = m.data(n).permissions.execute && t.contains('/');
            if args.len() > 0 && !exec {
                r.is_failure(not_found)
            } else if m.data(n).name@ == "mines.sh"@ && exec {
                r.redirect_target() == Some(MINES_URL@)
            } else {
                match m.data(n).node_type {
                    VfsNodeType::Directory => r.redirect_target() == Some(spec_node_path(m, n)),
                    VfsNodeType::File { content } => if seq_ends_with(t, "/"@) {
                        r.is_failure("not a directory: "@ + t)
                    } else {
                        match content {
                            FileContent::NavFile(s) => r.redirect_target() == Some(s@),
                            _ => if t.contains('/') {
                                r.is_failure("permission denied: "@ + t)
                            } else {
                                r.is_failure(not_found)
                            },
                        }
                    },
                    VfsNodeType::Link { .. } => r.is_failure(not_found),
                }
            }
        },
    }
}

/// A first word that names no command: perhaps a path.
pub struct UnknownCommand {
    command_name: String,
}

impl UnknownCommand {
    pub fn new(command_name: String) -> (r: Self)
        ensures
            r.name() == command_name@,
    {
        UnknownCommand { command_name }
    }

    pub closed spec fn name(&self) -> Seq<char> {
        self.command_name@
    }

    /// Runs the word as a path. The filesystem is only read.
    pub fn execute(
        &self,
        vfs: &mut VirtualFilesystem,
        current_dir: NodeId,
        args: Vec<&str>,
        stdin: Option<&str>,
        is_tty: bool,
    ) -> (r: CommandRes)
        requires
            old(vfs).wf(),
            old(vfs)@.live(current_dir),
        ensures
            final(vfs)@ == old(vfs)@,
            final(vfs).wf(),
            unknown_result(r, old(vfs)@, current_dir, self.name(), strs_view(args@)),
    {
        let fsys: &VirtualFilesystem = vfs;
        let t = self.command_name.as_str();
        let id = match fsys.resolve_path(current_dir, t) {
            Ok(id) => id,
            Err(_) => {
                let msg = concat("command not found: ", t);
                return CommandRes::new().with_error().with_stderr(msg.as_str());
            },
        };
        let node = match fsys.get_node(id) {
            Some(node) => node,
            None => {
                let msg = concat("command not found: ", t);
                return CommandRes::new().with_error().with_stderr(msg.as_str());
            },
        };
        let is_executable = node.is_executable() && contains_char(t, '/');
        if args.len() > 0 && !is_executable {
            let msg = concat("command not found: ", t);
            return CommandRes::new().with_error().with_stderr(msg.as_str());
        }
        if str_eq(node.name.as_str(), "mines.sh") && is_executable {
            let path = fsys.get_node_path(current_dir);
            return MinesCommand.execute(path.as_str(), args, None, is_tty);
        }
        match &node.node_type {
            VfsNodeType::Directory => CommandRes::redirect(fsys.get_node_path(id)),
            VfsNodeType::File { content } => {
                if ends_with(t, "/") {
                    let msg = concat("not a directory: ", t);
                    return CommandRes::new().with_error().with_stderr(msg.as_str());
                }
                match content {
                    FileContent::NavFile(s) => CommandRes::redirect(s.clone()),
                    _ => {
                        let msg = if contains_char(t, '/') {
                            concat("permission denied: ", t)
                        } else {
                            concat("command not found: ", t)
                        };
                        CommandRes::new().with_error().with_stderr(msg.as_str())
                    },
                }
            },
            VfsNodeType::Link { .. } => {
                let msg = concat("command not found: ", t);
                CommandRes::new().with_error().with_stderr(msg.as_str())
            },
        }
    }
}

} // verus!
