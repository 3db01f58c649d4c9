use vstd::prelude::*;

use crate::command::CommandRes;
use crate::simple_tools::{parse_unsigned, spec_parse_unsigned, strs_of};
use crate::text::{
    concat, decimal, join_strings, names_of, pad_left, pad_right, padded_left, padded_right,
    spec_decimal, starts_with, skip_chars, str_eq,
};
use crate::vfs::join_with;

verus! {

/// A process shown by `ps`; its CPU and memory shares are held in tenths
/// of a percent.
#[derive(Debug, Clone)]
pub struct Process {
    pub pid: u32,
    pub user: String,
    pub cpu_tenths: u32,
    pub mem_tenths: u32,
    pub command: String,
}

/// A share in tenths of a percent written with one decimal, as `{:.1}`
/// writes the percentage.
pub open spec fn tenths_text(t: nat) -> Seq<char> {
    spec_decimal(t / 10) + "."@ + spec_decimal(t % 10)
}

fn tenths_string(t: u32) -> (r: String)
    ensures
        r@ == tenths_text(t as nat),
{
    let mut r = decimal((t / 10) as u64);
    r.append(".");
    let frac = decimal((t % 10) as u64);
    r.append(frac.as_str());
    r
}

/// The header and lines of `ps aux`.
pub open spec fn detailed_line(p: Process) -> Seq<char> {
    pad_right(p.user@, 8) + " "@ + pad_left(spec_decimal(p.pid as nat), 5) + " "@ + pad_left(
        tenths_text(p.cpu_tenths as nat),
        4,
    ) + " "@ + pad_left(tenths_text(p.mem_tenths as nat), 4) + " "@ + p.command@
}

/// A line of plain `ps`.
pub open spec fn basic_line(p: Process) -> Seq<char> {
    pad_left(spec_decimal(p.pid as nat), 5) + " "@ + p.command@
}

/// What `ps` prints: a header, then one line per process.
pub open spec fn ps_text(ps: Seq<Process>, detailed: bool) -> Seq<char> {
    if detailed {
        join_with(seq!["USER       PID %CPU %MEM COMMAND"@] + ps.map_values(|p: Process| detailed_line(p)), "\n"@)
    } else {
        join_with(seq!["  PID COMMAND"@] + ps.map_values(|p: Process| basic_line(p)), "\n"@)
    }
}

/// What `ps` answers: with no argument the short list, with `aux` the
/// long one.
pub open spec fn ps_result(r: CommandRes, ps: Seq<Process>, args: Seq<Seq<char>>) -> bool {
    if args.len() > 1 {
        r.is_failure("ps: too many arguments"@)
    } else if args.len() == 0 {
        r.is_success_text(ps_text(ps, false))
    } else if args[0] == "aux"@ {
        r.is_success_text(ps_text(ps, true))
    } else {
        r.is_failure("ps: invalid argument -- '"@ + args[0] + "'\nUsage: ps [aux]"@)
    }
}

/// Lists processes.
pub struct PsCommand {
    processes: Vec<Process>,
}

impl PsCommand {
    pub fn new(processes: Vec<Process>) -> (r: Self)
        ensures
            r.procs() == processes@,
    {
        PsCommand { processes }
    }

    pub closed spec fn procs(&self) -> Seq<Process> {
        self.processes@
    }

    fn get_processes(&self, detailed: bool) -> (r: String)
        ensures
            r@ == ps_text(self.procs(), detailed),
    {
        let ghost ps = self.processes@;
        let mut lines: Vec<String> = Vec::new();
        if detailed {
            lines.push(String::from_str("USER       PID %CPU %MEM COMMAND"));
        } else {
            lines.push(String::from_str("  PID COMMAND"));
        }
        let ghost head = names_of(lines@);
        let mut i: usize = 0;
        while i < self.processes.len()
            invariant
                ps == self.processes@,
                i <= ps.len(),
                head.len() == 1,
                names_of(lines@) == head + (if detailed {
                    ps.take(i as int).map_values(|p: Process| detailed_line(p))
                } else {
                    ps.take(i as int).map_values(|p: Process| basic_line(p))
                }),
            decreases ps.len() - i,
        {
            let p = &self.processes[i];
            let ghost before = names_of(lines@);
            let pid = decimal(p.pid as u64);
            let line = if detailed {
                let mut l = padded_right(p.user.as_str(), 8);
                l.append(" ");
                l.append(padded_left(pid.as_str(), 5).as_str());
                l.append(" ");
                l.append(padded_left(tenths_string(p.cpu_tenths).as_str(), 4).as_str());
                l.append(" ");
                l.append(padded_left(tenths_string(p.mem_tenths).as_str(), 4).as_str());
                l.append(" ");
                l.append(p.command.as_str());
                l
            } else {
                let mut l = padded_left(pid.as_str(), 5);
                l.append(" ");
                l.append(p.command.as_str());
                l
            };
            lines.push(line);
            assert(names_of(lines@) =~= before.push(lines@.last()@));
            assert(ps.take(i + 1) =~= ps.take(i as int).push(ps[i as int]));
            i = i + 1;
        }
        assert(ps.take(i as int) =~= ps);
        proof {
            if detailed {
                reveal_strlit("USER       PID %CPU %MEM COMMAND");
                assert(head == seq!["USER       PID %CPU %MEM COMMAND"@]);
            } else {
                assert(head == seq!["  PID COMMAND"@]);
            }
        }
        join_strings(&lines, "\n")
    }

    /// Runs `ps`: with no argument the short list, with `aux` the long
    /// one.
    pub fn execute(&self, path: &str, args: Vec<&str>, stdin: Option<&str>, is_output_tty: bool) -> (r: CommandRes)
        ensures
            ps_result(r, self.procs(), strs_of(args@)),
    {
        if args.len() > 1 {
            return CommandRes::new().with_error().with_stderr("ps: too many arguments");
        }
        let detailed = if args.len() == 0 {
            false
        } else if str_eq(args[0], "aux") {
            true
        } else {
            let mut msg = concat("ps: invalid argument -- '", args[0]);
            msg.append("'\nUsage: ps [aux]");
            return CommandRes::new().with_error().with_stderr(msg.as_str());
        };
        let output = self.get_processes(detailed);
        CommandRes::new().with_stdout_text(output.as_str())
    }
}

/// The signal names `kill` knows.
pub open spec fn known_signals() -> Seq<Seq<char>> {
    seq![
        "HUP"@, "INT"@, "QUIT"@, "ILL"@, "TRAP"@, "ABRT"@, "EMT"@, "FPE"@, "KILL"@, "1"@, "2"@, "3"@,
        "4"@, "5"@, "6"@, "7"@, "8"@, "9"@,
    ]
}

fn signals() -> (r: Vec<&'static str>)
    ensures
        strs_of(r@) == known_signals(),
{
    let r = vec![
        "HUP", "INT", "QUIT", "ILL", "TRAP", "ABRT", "EMT", "FPE", "KILL", "1", "2", "3", "4", "5",
        "6", "7", "8", "9",
    ];
    assert(strs_of(r@) =~= known_signals());
    r
}

/// The upper-case form of a text, as `str::to_uppercase` gives it.
pub uninterp spec fn upper(s: Seq<char>) -> Seq<char>;

/// `str::to_uppercase`: the text with every character mapped to its
/// upper case (Unicode's full mapping, which may change the length).
#[verifier::external_body]
fn to_upper(s: &str) -> (r: String)
    ensures
        r@ == upper(s@),
{
    s.to_uppercase()
}

/// `str::parse::<u32>`: the number when the text is an optional `+` and
/// one or more ASCII digits whose value fits in a `u32`, else `None`.
fn parse_u32(s: &str) -> (r: Option<u32>)
    ensures
        r == match spec_parse_unsigned(s@) {
            Some(v) => if v <= u32::MAX {
                Some(v as u32)
            } else {
                None::<u32>
            },
            None => None::<u32>,
        },
{
    match parse_unsigned(s, u32::MAX as u64) {
        Some(v) => Some(v as u32),
        None => None,
    }
}

pub open spec fn is_ascii_letter(c: char) -> bool {
    ('a' <= c && c <= 'z') || ('A' <= c && c <= 'Z')
}

/// What `kill` answers once the signal name (upper-cased, when the first
/// argument is an option) is known; `pids` are the arguments left.
pub open spec fn kill_answer(r: CommandRes, known: Seq<u32>, signal: Option<Seq<char>>, pids: Seq<Seq<char>>) -> bool {
    match signal {
        Some(sig) if !known_signals().contains(sig) => if forall|i: int| 0 <= i < sig.len() ==> is_ascii_letter(#[trigger] sig[i]) {
            r.is_failure("kill: unknown signal: SIG"@ + sig)
        } else {
            r.is_failure("kill: usage: kill [-n signum] pid"@)
        },
        _ => if pids.len() == 0 {
            r.is_failure("kill: not enough arguments"@)
        } else {
            match spec_parse_unsigned(pids[0]) {
                Some(v) if v <= u32::MAX => if !known.contains(v as u32) {
                    r.is_failure("kill: kill "@ + spec_decimal(v) + " failed: no such process"@)
                } else if v == 42 {
                    r.is_failure("Answer to everything terminated\nkill: kill 42 failed: operation not permitted"@)
                } else {
                    r.is_failure("kill: kill "@ + spec_decimal(v) + " failed: operation not permitted"@)
                },
                _ => r.is_failure("kill: illegal pid: "@ + pids[0]),
            }
        },
    }
}

/// What `kill` answers: a first argument starting with `-` names a signal
/// (its name is upper-cased); the next argument is the process id.
pub open spec fn kill_result(r: CommandRes, pids: Seq<u32>, a: Seq<Seq<char>>) -> bool {
    if a.len() == 0 {
        r.is_failure("kill: not enough arguments"@)
    } else if a[0].len() > 0 && a[0][0] == '-' {
        kill_answer(r, pids, Some(upper(a[0].drop_first())), a.drop_first())
    } else {
        kill_answer(r, pids, None, a)
    }
}

/// Sends signals to processes (none of which may be stopped).
pub struct KillCommand {
    processes: Vec<Process>,
}

impl KillCommand {
    pub fn new(processes: Vec<Process>) -> (r: Self)
        ensures
            r.procs() == processes@,
    {
        KillCommand { processes }
    }

    pub closed spec fn procs(&self) -> Seq<Process> {
        self.processes@
    }

    pub open spec fn pids(&self) -> Seq<u32> {
        self.procs().map_values(|p: Process| p.pid)
    }

    fn get_process_by_pid(&self, pid: u32) -> (r: bool)
        ensures
            r == self.pids().contains(pid),
    {
        let mut i: usize = 0;
        while i < self.processes.len()
            invariant
                i <= self.processes@.len(),
                forall|k: int| 0 <= k < i ==> self.processes@[k].pid != pid,
            decreases self.processes@.len() - i,
        {
            if self.processes[i].pid == pid {
                assert(self.pids()[i as int] == pid);
                return true;
            }
            i = i + 1;
        }
        false
    }

    /// The answer of `kill` for the signal name `signal` (already
    /// upper-cased) and the process ids `pids`.
    pub fn respond(&self, signal: Option<&str>, pids: &[&str]) -> (r: CommandRes)
        ensures
            kill_answer(r, self.pids(), match signal {
                Some(s) => Some(s@),
                None => None,
            }, strs_of(pids@)),
    {
        match signal {
            Some(sig) => {
                let sigs = signals();
                let mut known = false;
                let mut i: usize = 0;
                while i < sigs.len()
                    invariant
                        strs_of(sigs@) == known_signals(),
                        i <= sigs.len(),
                        known == (exists|k: int| 0 <= k < i && known_signals()[k] == sig@),
                    decreases sigs.len() - i,
                {
                    assert(known_signals()[i as int] == sigs@[i as int]@);
                    if str_eq(sigs[i], sig) {
                        known = true;
                    }
                    i = i + 1;
                }
                if !known {
                    let n = sig.unicode_len();
                    let mut all_letters = true;
                    let mut j: usize = 0;
                    while j < n
                        invariant
                            n == sig@.len(),
                            j <= n,
                            all_letters == (forall|k: int| 0 <= k < j ==> is_ascii_letter(#[trigger] sig@[k])),
                        decreases n - j,
                    {
                        let c = sig.get_char(j);
                        if !(('a' <= c && c <= 'z') || ('A' <= c && c <= 'Z')) {
                            all_letters = false;
                        }
                        j = j + 1;
                    }
                    if all_letters {
                        let msg = concat("kill: unknown signal: SIG", sig);
                        return CommandRes::new().with_error().with_stderr(msg.as_str());
                    } else {
                        return CommandRes::new().with_error().with_stderr("kill: usage: kill [-n signum] pid");
                    }
                }
            },
            None => {},
        }
        if pids.len() == 0 {
            return CommandRes::new().with_error().with_stderr("kill: not enough arguments");
        }
        let pid_str = pids[0];
        let pid = match parse_u32(pid_str) {
            Some(p) => p,
            None => {
                let msg = concat("kill: illegal pid: ", pid_str);
                return CommandRes::new().with_error().with_stderr(msg.as_str());
            },
        };
        let digits = decimal(pid as u64);
        if !self.get_process_by_pid(pid) {
            let mut msg = concat("kill: kill ", digits.as_str());
            msg.append(" failed: no such process");
            return CommandRes::new().with_error().with_stderr(msg.as_str());
        }
        if pid == 42 {
            return CommandRes::new().with_error().with_stderr(
                "Answer to everything terminated\nkill: kill 42 failed: operation not permitted",
            );
        }
        let mut msg = concat("kill: kill ", digits.as_str());
        msg.append(" failed: operation not permitted");
        CommandRes::new().with_error().with_stderr(msg.as_str())
    }

    /// Runs `kill`: a first argument starting with `-` names a signal (its
    /// name is upper-cased); the next argument is the process id.
    pub fn execute(&self, path: &str, args: Vec<&str>, stdin: Option<&str>, is_output_tty: bool) -> (r: CommandRes)
        ensures
            kill_result(r, self.pids(), strs_of(args@)),
    {
        if args.len() == 0 {
            return CommandRes::new().with_error().with_stderr("kill: not enough arguments");
        }
        let first = args[0];
        proof {
            reveal_strlit("-");
            assert("-"@ =~= seq!['-']);
            assert(strs_of(args@)[0] == first@);
        }
        if starts_with(first, "-") {
            assert(first@.len() > 0 && first@[0] == '-') by {
                assert(first@.subrange(0, 1)[0] == first@[0]);
            }
            let tail = skip_chars(first, 1);
            assert(tail@ =~= first@.drop_first());
            let name = to_upper(tail);
            let rest = vstd::slice::slice_subrange(args.as_slice(), 1, args.len());
            assert(strs_of(rest@) =~= strs_of(args@).drop_first());
            self.respond(Some(name.as_str()), rest)
        } else {
            assert(!(first@.len() > 0 && first@[0] == '-')) by {
                if first@.len() > 0 && first@[0] == '-' {
                    assert(first@.subrange(0, 1) =~= seq!['-']);
                }
            }
            let all = args.as_slice();
            assert(all@ == args@);
            self.respond(None, all)
        }
    }
}

} // verus!
