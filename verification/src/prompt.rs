use vstd::prelude::*;

use std::collections::VecDeque;

use crate::fs::{last_segment, last_segment_of};
use crate::terminal::{spec_tab, starts_with_fn, tab_views, TabCompletionItem, Terminal};
use crate::text::{concat, names_of, seq_starts_with, skip_chars, starts_with, take_chars, trim_ws};

verus! {

/// The name the prompt shows for a location: its last path segment, or the
/// site's name at the root.
pub open spec fn spec_prompt_dir(path: Seq<char>) -> Seq<char> {
    if last_segment(path).len() == 0 {
        "hansbaker.com"@
    } else {
        last_segment(path)
    }
}

/// The name the prompt shows for the location `path`.
pub fn dir_from_pathname(path: &str) -> (r: String)
    ensures
        r@ == spec_prompt_dir(path@),
{
    let dir = last_segment_of(path);
    if dir.unicode_len() == 0 {
        let site = "hansbaker.com";
        String::from_str(site)
    } else {
        String::from_str(dir)
    }
}

/// Whether `c` ends the word that tab completion replaces.
pub open spec fn is_word_break(c: char) -> bool {
    c == '/' || c == ' '
}

/// The position of the last `/` or space in `s`.
pub open spec fn last_break(s: Seq<char>) -> Option<int>
    decreases s.len(),
{
    if s.len() == 0 {
        None
    } else if is_word_break(s.last()) {
        Some(s.len() - 1)
    } else {
        last_break(s.drop_last())
    }
}

/// `s` without one trailing `*`.
pub open spec fn strip_star(s: Seq<char>) -> Seq<char> {
    if s.len() > 0 && s.last() == '*' {
        s.drop_last()
    } else {
        s
    }
}

/// `val` with the word after its last `/` or space replaced by the
/// completion `new` (a trailing `*` marking an executable left off).
pub open spec fn spec_tab_replace(val: Seq<char>, new: Seq<char>) -> Seq<char> {
    match last_break(val) {
        Some(i) => val.take(i + 1) + strip_star(new),
        None => strip_star(new),
    }
}

proof fn lemma_last_break(s: Seq<char>, i: int)
    requires
        0 <= i <= s.len(),
        forall|j: int| i <= j < s.len() ==> !is_word_break(s[j]),
    ensures
        last_break(s) == last_break(s.take(i)),
    decreases s.len() - i,
{
    if i < s.len() {
        lemma_last_break(s, i + 1);
        assert(s.take(i + 1).drop_last() =~= s.take(i));
    } else {
        assert(s.take(i) =~= s);
    }
}

/// The position of the last `/` or space in `s`.
fn find_last_break(s: &str) -> (r: Option<usize>)
    ensures
        r matches Some(i) ==> last_break(s@) == Some(i as int) && i < s@.len(),
        r is None ==> last_break(s@) is None,
{
    let n = s.unicode_len();
    let mut i: usize = n;
    while i > 0
        invariant
            n == s@.len(),
            i <= n,
            forall|j: int| i <= j < n ==> !is_word_break(s@[j]),
        decreases i,
    {
        let c = s.get_char(i - 1);
        if c == '/' || c == ' ' {
            proof {
                lemma_last_break(s@, i as int);
                assert(s@.take(i as int).last() == c);
            }
            return Some(i - 1);
        }
        i = i - 1;
    }
    proof {
        lemma_last_break(s@, 0);
    }
    None
}

/// `val` with its last word replaced by the completion `new`.
pub fn tab_replace(val: &str, new: &str) -> (r: String)
    ensures
        r@ == spec_tab_replace(val@, new@),
{
    let n = new.unicode_len();
    let new = if n > 0 && new.get_char(n - 1) == '*' {
        let t = take_chars(new, n - 1);
        assert(t@ =~= new@.drop_last());
        t
    } else {
        new
    };
    let vn = val.unicode_len();
    match find_last_break(val) {
        Some(i) => {
            let prefix = take_chars(val, i + 1);
            concat(prefix, new)
        },
        None => String::from_str(new),
    }
}

/// Whether the recorded command `cmd` extends what was typed.
pub open spec fn extends(cmd: Seq<char>, input: Seq<char>) -> bool {
    seq_starts_with(cmd, input) && cmd.len() > input.len()
}

/// The rest of the latest command in `h` that extends `input`.
pub open spec fn latest_extension(h: Seq<Seq<char>>, input: Seq<char>) -> Option<Seq<char>>
    decreases h.len(),
{
    if h.len() == 0 {
        None
    } else if extends(h.last(), input) {
        Some(h.last().skip(input.len() as int))
    } else {
        latest_extension(h.drop_last(), input)
    }
}

/// The suggestion shown after what was typed: the rest of the latest
/// recorded command that extends it, and none for empty input.
pub open spec fn spec_ghost(h: Seq<Seq<char>>, input: Seq<char>) -> Option<Seq<char>> {
    if input.len() == 0 {
        None
    } else {
        latest_extension(h, input)
    }
}

/// A string's characters, if there is one.
pub open spec fn opt_chars(r: Option<String>) -> Option<Seq<char>> {
    match r {
        Some(s) => Some(s@),
        None => None,
    }
}

/// The suggestion shown after `input`, taken from `history`.
pub fn ghost_suggestion(history: &VecDeque<String>, input: &str) -> (r: Option<String>)
    ensures
        opt_chars(r) == spec_ghost(names_of(history@), input@),
{
    let n = input.unicode_len();
    if n == 0 {
        return None;
    }
    let ghost h = names_of(history@);
    let mut i: usize = history.len();
    assert(h.take(i as int) =~= h);
    while i > 0
        invariant
            i <= history@.len(),
            h == names_of(history@),
            n == input@.len(),
            n > 0,
            latest_extension(h, input@) == latest_extension(h.take(i as int), input@),
        decreases i,
    {
        let cmd: &String = &history[i - 1];
        let s = cmd.as_str();
        assert(cmd == history@[i - 1]);
        assert(h[i - 1] == s@);
        assert(h.take(i as int).last() == s@);
        assert(h.take(i as int).drop_last() =~= h.take(i - 1));
        if starts_with(s, input) && s.unicode_len() > n {
            let rest = skip_chars(s, n);
            let r = String::from_str(rest);
            assert(extends(s@, input@));
            assert(latest_extension(h.take(i as int), input@) == Some(s@.skip(n as int)));
            return Some(r);
        }
        i = i - 1;
    }
    None
}

/// Moving back through `opts` from `index`: the nearest earlier entry that
/// differs from `current`.
pub open spec fn prev_different(opts: Seq<Seq<char>>, index: nat, current: Seq<char>) -> Option<nat>
    decreases index,
{
    if index == 0 {
        None
    } else if opts[index - 1] != current {
        Some((index - 1) as nat)
    } else {
        prev_different(opts, (index - 1) as nat, current)
    }
}

/// Moving forward through `opts` from `index` on: the nearest entry that
/// differs from `current`.
pub open spec fn next_different(opts: Seq<Seq<char>>, index: nat, current: Seq<char>) -> Option<nat>
    decreases opts.len() - index,
{
    if index >= opts.len() {
        None
    } else if opts[index as int] != current {
        Some(index)
    } else {
        next_different(opts, index + 1, current)
    }
}

/// The nearest entry before `index` that differs from `current`.
pub fn history_back(opts: &Vec<String>, index: usize, current: &str) -> (r: Option<usize>)
    requires
        index <= opts@.len(),
    ensures
        r matches Some(j) ==> prev_different(names_of(opts@), index as nat, current@) == Some(j as nat),
        r is None ==> prev_different(names_of(opts@), index as nat, current@) is None,
{
    let ghost o = names_of(opts@);
    let mut j: usize = index;
    while j > 0
        invariant
            j <= index <= opts@.len(),
            o == names_of(opts@),
            prev_different(o, index as nat, current@) == prev_different(o, j as nat, current@),
        decreases j,
    {
        let s: &String = &opts[j - 1];
        if !crate::text::str_eq(s.as_str(), current) {
            return Some(j - 1);
        }
        j = j - 1;
    }
    None
}

/// The nearest entry from `index` on that differs from `current`.
pub fn history_forward(opts: &Vec<String>, index: usize, current: &str) -> (r: Option<usize>)
    ensures
        r matches Some(j) ==> next_different(names_of(opts@), index as nat, current@) == Some(j as nat),
        r is None ==> next_different(names_of(opts@), index as nat, current@) is None,
{
    let ghost o = names_of(opts@);
    let mut j: usize = index;
    while j < opts.len()
        invariant
            index <= j,
            o == names_of(opts@),
            next_different(o, index as nat, current@) == next_different(o, j as nat, current@),
        decreases opts@.len() - j,
    {
        let s: &String = &opts[j];
        if !crate::text::str_eq(s.as_str(), current) {
            return Some(j);
        }
        j = j + 1;
    }
    None
}

/// The candidate selected by the next press of Tab (Shift+Tab goes back),
/// wrapping around at either end.
pub open spec fn spec_tab_index(index: Option<nat>, shift: bool, len: nat) -> nat {
    match index {
        None => if shift {
            (len - 1) as nat
        } else {
            0
        },
        Some(i) => if !shift {
            (i + 1) % len
        } else if i == 0 {
            (len - 1) as nat
        } else {
            (i - 1) as nat
        },
    }
}

/// The candidate selected by the next press of Tab.
pub fn tab_index(index: Option<usize>, shift: bool, len: usize) -> (r: usize)
    requires
        len > 0,
        index matches Some(i) ==> i < len,
    ensures
        r == spec_tab_index(
            match index {
                Some(i) => Some(i as nat),
                None => None,
            },
            shift,
            len as nat,
        ),
        r < len,
{
    match (index, shift) {
        (None, false) => 0,
        (Some(i), false) => (i + 1) % len,
        (None, true) => len - 1,
        (Some(i), true) => if i == 0 {
            len - 1
        } else {
            i - 1
        },
    }
}

/// The recorded commands offered when cycling starts from `input`: all of
/// them for blank input, else those starting with it.
pub open spec fn spec_hist_opts(h: Seq<Seq<char>>, input: Seq<char>) -> Seq<Seq<char>> {
    if trim_ws(input).len() == 0 {
        h
    } else {
        h.filter(starts_with_fn(input))
    }
}

/// A key pressed in the command input.
#[derive(Clone, Copy, PartialEq, Eq, Structural, Debug)]
pub enum Key {
    Up,
    Down,
    Right,
    Tab { shift: bool },
    Slash,
    Shift,
    /// Ctrl+C.
    Interrupt,
    /// Ctrl+L.
    ClearScreen,
    /// Any other key held with Ctrl, Alt or Meta.
    Modified,
    Other,
}

/// Cycling through tab candidates: where the completed word began, the
/// candidates, and the one selected.
pub struct TabState {
    cursor: usize,
    opts: Vec<TabCompletionItem>,
    index: Option<usize>,
}

/// Cycling through recorded commands: the length of what was typed, the
/// commands offered, and the one shown.
pub struct HistState {
    cursor: usize,
    opts: Vec<String>,
    index: usize,
}

pub ghost struct TabV {
    pub cursor: nat,
    pub opts: Seq<(Seq<char>, bool, bool)>,
    pub index: Option<nat>,
}

pub ghost struct HistV {
    pub cursor: nat,
    pub opts: Seq<Seq<char>>,
    pub index: nat,
}

/// The command input: its text, the cursor, the suggestion shown after it,
/// and whether Tab or the arrow keys are cycling through candidates.
pub ghost struct PromptV {
    pub value: Seq<char>,
    pub cursor: nat,
    pub ghost_text: Option<Seq<char>>,
    pub tab: Option<TabV>,
    pub hist: Option<HistV>,
}

/// The command input of the terminal.
pub struct Prompt {
    value: String,
    cursor: usize,
    ghost_text: Option<String>,
    tab: Option<TabState>,
    hist: Option<HistState>,
}

/// What a key press asks of the page: whether its default effect on the
/// input is suppressed, and a command line to run (with whether it was
/// interrupted by Ctrl+C).
pub struct KeyOutcome {
    pub prevent_default: bool,
    pub command: Option<(String, bool)>,
}

spec fn tab_state_view(t: TabState) -> TabV {
    TabV {
        cursor: t.cursor as nat,
        opts: tab_views(t.opts@),
        index: match t.index {
            Some(i) => Some(i as nat),
            None => None,
        },
    }
}

impl View for Prompt {
    type V = PromptV;

    closed spec fn view(&self) -> PromptV {
        PromptV {
            value: self.value@,
            cursor: self.cursor as nat,
            ghost_text: opt_chars(self.ghost_text),
            tab: match self.tab {
                Some(t) => Some(tab_state_view(t)),
                None => None,
            },
            hist: match self.hist {
                Some(h) => Some(HistV { cursor: h.cursor as nat, opts: names_of(h.opts@), index: h.index as nat }),
                None => None,
            },
        }
    }
}

/// The input after Ctrl+C or Ctrl+L: empty, and cycling nothing.
pub open spec fn spec_reset(p: PromptV) -> PromptV {
    PromptV { value: Seq::empty(), cursor: 0, ghost_text: p.ghost_text, tab: None, hist: None }
}

/// Arrow up: shows the nearest earlier recorded command that differs from
/// the text; cycling starts (over `fresh`) when it was not under way.
pub open spec fn spec_up(p: PromptV, fresh: Seq<Seq<char>>) -> PromptV {
    let q = PromptV { value: p.value, cursor: p.cursor, ghost_text: None, tab: None, hist: p.hist };
    let h = match p.hist {
        Some(h) => h,
        None => HistV { cursor: p.value.len(), opts: fresh, index: fresh.len() },
    };
    match prev_different(h.opts, h.index, p.value) {
        None => q,
        Some(j) => PromptV {
            value: h.opts[j as int],
            cursor: h.opts[j as int].len(),
            ghost_text: None,
            tab: None,
            hist: Some(HistV { cursor: h.cursor, opts: h.opts, index: j }),
        },
    }
}

/// Arrow down: shows the nearest later recorded command that differs from
/// the text, or, past the last, what was typed before cycling began.
pub open spec fn spec_down(p: PromptV) -> (PromptV, bool) {
    let q = PromptV { value: p.value, cursor: p.cursor, ghost_text: None, tab: None, hist: p.hist };
    match p.hist {
        None => (q, false),
        Some(h) => match next_different(h.opts, h.index + 1, p.value) {
            None => (
                PromptV {
                    value: p.value.take(h.cursor as int),
                    cursor: h.cursor,
                    ghost_text: None,
                    tab: None,
                    hist: None,
                },
                true,
            ),
            Some(j) => (
                PromptV {
                    value: h.opts[j as int],
                    cursor: h.opts[j as int].len(),
                    ghost_text: None,
                    tab: None,
                    hist: Some(HistV { cursor: h.cursor, opts: h.opts, index: j }),
                },
                true,
            ),
        },
    }
}

/// Arrow right at the end of the text accepts the suggestion, unless a
/// cycle is under way.
pub open spec fn spec_right(p: PromptV) -> (PromptV, bool) {
    if p.ghost_text is Some && p.tab is None && p.hist is None && p.cursor >= p.value.len() {
        let v = p.value + p.ghost_text->0;
        (PromptV { value: v, cursor: v.len(), ghost_text: None, tab: p.tab, hist: p.hist }, true)
    } else {
        (p, false)
    }
}

/// The text after completing with candidate `i` of `opts`.
pub open spec fn completed(p: PromptV, cursor: nat, opts: Seq<(Seq<char>, bool, bool)>, i: nat) -> Seq<char> {
    spec_tab_replace(p.value.take(cursor as int), opts[i as int].0)
}

/// Tab (Shift+Tab backwards): completes a single candidate at once; with
/// several, the first press shows them (Shift+Tab also selects the last)
/// and later presses cycle through them.
pub open spec fn spec_tab_key(p: PromptV, shift: bool, fresh: Seq<(Seq<char>, bool, bool)>) -> PromptV {
    if p.value.len() == 0 {
        p
    } else {
        match p.tab {
            Some(t) => {
                let i = spec_tab_index(t.index, shift, t.opts.len());
                let v = completed(p, t.cursor, t.opts, i);
                PromptV {
                    value: v,
                    cursor: v.len(),
                    ghost_text: None,
                    tab: Some(TabV { cursor: t.cursor, opts: t.opts, index: Some(i) }),
                    hist: p.hist,
                }
            },
            None => {
                if fresh.len() == 0 {
                    PromptV { ghost_text: None, ..p }
                } else if fresh.len() == 1 {
                    let v = spec_tab_replace(p.value, fresh[0].0);
                    PromptV { value: v, cursor: v.len(), ghost_text: None, tab: None, hist: p.hist }
                } else if shift {
                    let i = (fresh.len() - 1) as nat;
                    let v = completed(p, p.value.len(), fresh, i);
                    PromptV {
                        value: v,
                        cursor: v.len(),
                        ghost_text: None,
                        tab: Some(TabV { cursor: p.value.len(), opts: fresh, index: Some(i) }),
                        hist: p.hist,
                    }
                } else {
                    PromptV {
                        ghost_text: None,
                        tab: Some(TabV { cursor: p.value.len(), opts: fresh, index: None }),
                        ..p
                    }
                }
            },
        }
    }
}

/// `/` ends tab completion; when the completed text already ends in `/`
/// it is not typed again.
pub open spec fn spec_slash(p: PromptV) -> (PromptV, bool) {
    if p.tab is Some && p.value.len() > 0 && p.value.last() == '/' {
        (PromptV { tab: None, ..p }, true)
    } else {
        (PromptV { tab: None, hist: None, ..p }, false)
    }
}

/// The input after `key`, whether the key's default effect is
/// suppressed, and the command it runs; `fresh_hist` and `fresh_tab` are
/// the candidates offered when a cycle starts.
pub open spec fn spec_key(
    p: PromptV,
    key: Key,
    fresh_hist: Seq<Seq<char>>,
    fresh_tab: Seq<(Seq<char>, bool, bool)>,
) -> (PromptV, bool, Option<(Seq<char>, bool)>) {
    match key {
        Key::Interrupt => (spec_reset(p), false, Some((p.value, true))),
        Key::ClearScreen => (spec_reset(p), false, Some(("clear"@, false))),
        Key::Modified => (p, false, None),
        Key::Up => (spec_up(p, fresh_hist), true, None),
        Key::Down => (spec_down(p).0, spec_down(p).1, None),
        Key::Right => (spec_right(p).0, spec_right(p).1, None),
        Key::Tab { shift } => (spec_tab_key(p, shift, fresh_tab), p.value.len() > 0, None),
        Key::Slash => (spec_slash(p).0, spec_slash(p).1, None),
        Key::Shift => (p, false, None),
        Key::Other => (PromptV { tab: None, hist: None, ..p }, false, None),
    }
}

/// The candidates of a cycle that is under way are never empty, and the
/// selected ones lie among them.
pub open spec fn prompt_wf(p: PromptV) -> bool {
    &&& (p.tab matches Some(t) ==> t.opts.len() >= 2 && (t.index matches Some(i) ==> i < t.opts.len()))
    &&& (p.hist matches Some(h) ==> h.index < h.opts.len())
}

/// Whether `key` can be handled: cycling cuts the text back to what was
/// typed before the cycle began, which must still be there.
pub open spec fn spec_key_ok(p: PromptV, key: Key) -> bool {
    match key {
        Key::Down => p.hist matches Some(h) ==> h.cursor <= p.value.len(),
        Key::Tab { .. } => p.value.len() > 0 ==> (p.tab matches Some(t) ==> t.cursor <= p.value.len()),
        _ => true,
    }
}

pub open spec fn outcome_view(o: KeyOutcome) -> (bool, Option<(Seq<char>, bool)>) {
    (
        o.prevent_default,
        match o.command {
            Some(c) => Some((c.0@, c.1)),
            None => None,
        },
    )
}

fn copy_items(v: &Vec<TabCompletionItem>) -> (r: Vec<TabCompletionItem>)
    ensures
        tab_views(r@) == tab_views(v@),
{
    let mut r: Vec<TabCompletionItem> = Vec::new();
    let mut i: usize = 0;
    while i < v.len()
        invariant
            i <= v@.len(),
            tab_views(r@) == tab_views(v@.take(i as int)),
        decreases v@.len() - i,
    {
        let it = TabCompletionItem {
            completion_text: v[i].completion_text.clone(),
            is_directory: v[i].is_directory,
            is_executable: v[i].is_executable,
        };
        let ghost before = r@;
        assert(it@ == v@[i as int]@);
        r.push(it);
        assert(r@ =~= before.push(it));
        assert(v@.take(i + 1) =~= v@.take(i as int).push(v@[i as int]));
        assert(tab_views(r@) =~= tab_views(before).push(it@));
        assert(tab_views(v@.take(i + 1)) =~= tab_views(v@.take(i as int)).push(v@[i as int]@));
        assert(tab_views(r@) =~= tab_views(v@.take(i + 1)));
        i = i + 1;
    }
    assert(v@.take(i as int) =~= v@);
    r
}

impl Prompt {
    /// An empty input, cycling nothing.
    pub fn new() -> (r: Self)
        ensures
            r@ == (PromptV { value: Seq::empty(), cursor: 0, ghost_text: None, tab: None, hist: None }),
            prompt_wf(r@),
    {
        Prompt { value: String::new(), cursor: 0, ghost_text: None, tab: None, hist: None }
    }

    /// Whether `key` can be handled in this state.
    pub fn key_ok(&self, key: Key) -> (r: bool)
        ensures
            r == spec_key_ok(self@, key),
    {
        match key {
            Key::Down => match &self.hist {
                Some(h) => h.cursor <= self.value.unicode_len(),
                None => true,
            },
            Key::Tab { .. } => {
                if self.value.unicode_len() == 0 {
                    true
                } else {
                    match &self.tab {
                        Some(t) => t.cursor <= self.value.unicode_len(),
                        None => true,
                    }
                }
            },
            _ => true,
        }
    }

    fn key_up(&mut self, term: &Terminal)
        requires
            prompt_wf(old(self)@),
        ensures
            final(self)@ == spec_up(old(self)@, spec_hist_opts(term.hist(), old(self)@.value)),
            prompt_wf(final(self)@),
    {
        self.ghost_text = None;
        self.tab = None;
        let cycling = self.hist.is_some();
        let h = match self.hist.take() {
            Some(h) => h,
            None => {
                let v = term.handle_start_hist(self.value.as_str());
                let n = v.len();
                HistState { cursor: self.value.unicode_len(), opts: v, index: n }
            },
        };
        assert(h.index <= h.opts@.len());
        proof {
            lemma_prev_in_range(names_of(h.opts@), h.index as nat, self.value@);
        }
        match history_back(&h.opts, h.index, self.value.as_str()) {
            None => {
                if cycling {
                    self.hist = Some(h);
                }
            },
            Some(j) => {
                self.value = h.opts[j].clone();
                self.cursor = self.value.unicode_len();
                self.hist = Some(HistState { cursor: h.cursor, opts: h.opts, index: j });
            },
        }
    }

    fn key_down(&mut self) -> (r: bool)
        requires
            prompt_wf(old(self)@),
            spec_key_ok(old(self)@, Key::Down),
        ensures
            (final(self)@, r) == spec_down(old(self)@),
            prompt_wf(final(self)@),
    {
        self.ghost_text = None;
        self.tab = None;
        match self.hist.take() {
            None => false,
            Some(h) => {
                let l = h.opts.len();
                assert(h.index < l);
                match history_forward(&h.opts, h.index + 1, self.value.as_str()) {
                    None => {
                        let nv = String::from_str(take_chars(self.value.as_str(), h.cursor));
                        self.value = nv;
                        self.cursor = h.cursor;
                    },
                    Some(j) => {
                        proof {
                            let o = names_of(h.opts@);
                            lemma_next_in_range(o, (h.index + 1) as nat, old(self)@.value);
                        }
                        self.value = h.opts[j].clone();
                        self.cursor = self.value.unicode_len();
                        self.hist = Some(HistState { cursor: h.cursor, opts: h.opts, index: j });
                    },
                }
                true
            },
        }
    }

    fn key_right(&mut self) -> (r: bool)
        ensures
            (final(self)@, r) == spec_right(old(self)@),
    {
        if self.ghost_text.is_some() && self.tab.is_none() && self.hist.is_none() && self.cursor
            >= self.value.unicode_len() {
            let g = self.ghost_text.take();
            match g {
                Some(g) => {
                    let nv = concat(self.value.as_str(), g.as_str());
                    self.value = nv;
                    self.cursor = self.value.unicode_len();
                },
                None => {},
            }
            true
        } else {
            false
        }
    }

    fn key_tab(&mut self, shift: bool, term: &mut Terminal, path: &str)
        requires
            prompt_wf(old(self)@),
            spec_key_ok(old(self)@, Key::Tab { shift }),
            old(term).wf(),
        ensures
            final(self)@ == spec_tab_key(old(self)@, shift, spec_tab(old(term).fs(), path@, old(self)@.value)),
            prompt_wf(final(self)@),
            final(term).wf(),
            final(term).fs() == old(term).fs(),
            final(term).hist() == old(term).hist(),
            final(term).vars() == old(term).vars(),
            final(term).procs() == old(term).procs(),
    {
        let n = self.value.unicode_len();
        if n == 0 {
            return;
        }
        self.ghost_text = None;
        match self.tab.take() {
            Some(t) => {
                let i = tab_index(t.index, shift, t.opts.len());
                let nv = tab_replace(take_chars(self.value.as_str(), t.cursor), t.opts[i].completion_text.as_str());
                self.value = nv;
                self.cursor = self.value.unicode_len();
                self.tab = Some(TabState { cursor: t.cursor, opts: t.opts, index: Some(i) });
            },
            None => {
                let opts = term.handle_start_tab(path, self.value.as_str());
                let k = opts.len();
                if k == 0 {
                    return;
                }
                if k == 1 {
                    let nv = tab_replace(self.value.as_str(), opts[0].completion_text.as_str());
                    self.value = nv;
                    self.cursor = self.value.unicode_len();
                    return;
                }
                if shift {
                    let i = k - 1;
                    assert(old(self)@.value.take(n as int) =~= old(self)@.value);
                    let nv = tab_replace(self.value.as_str(), opts[i].completion_text.as_str());
                    self.value = nv;
                    self.cursor = self.value.unicode_len();
                    self.tab = Some(TabState { cursor: n, opts, index: Some(i) });
                } else {
                    self.tab = Some(TabState { cursor: n, opts, index: None });
                }
            },
        }
    }

    fn key_slash(&mut self) -> (r: bool)
        requires
            prompt_wf(old(self)@),
        ensures
            (final(self)@, r) == spec_slash(old(self)@),
            prompt_wf(final(self)@),
    {
        let n = self.value.unicode_len();
        if self.tab.is_some() && n > 0 && self.value.get_char(n - 1) == '/' {
            self.tab = None;
            true
        } else {
            self.tab = None;
            self.hist = None;
            false
        }
    }

    /// Handles `key` pressed in the input at location `path`.
    pub fn key(&mut self, key: Key, term: &mut Terminal, path: &str) -> (r: KeyOutcome)
        requires
            prompt_wf(old(self)@),
            spec_key_ok(old(self)@, key),
            old(term).wf(),
        ensures
            ({
                let (p, prevent, cmd) = spec_key(
                    old(self)@,
                    key,
                    spec_hist_opts(old(term).hist(), old(self)@.value),
                    spec_tab(old(term).fs(), path@, old(self)@.value),
                );
                &&& final(self)@ == p
                &&& outcome_view(r) == (prevent, cmd)
            }),
            prompt_wf(final(self)@),
            final(term).wf(),
            final(term).fs() == old(term).fs(),
            final(term).hist() == old(term).hist(),
            final(term).vars() == old(term).vars(),
            final(term).procs() == old(term).procs(),
    {
        match key {
            Key::Interrupt => {
                let cmd = self.value.clone();
                self.value = String::new();
                self.cursor = 0;
                self.hist = None;
                self.tab = None;
                KeyOutcome { prevent_default: false, command: Some((cmd, true)) }
            },
            Key::ClearScreen => {
                self.value = String::new();
                self.cursor = 0;
                self.hist = None;
                self.tab = None;
                KeyOutcome { prevent_default: false, command: Some((String::from_str("clear"), false)) }
            },
            Key::Modified | Key::Shift => KeyOutcome { prevent_default: false, command: None },
            Key::Up => {
                self.key_up(term);
                KeyOutcome { prevent_default: true, command: None }
            },
            Key::Down => {
                let prevent = self.key_down();
                KeyOutcome { prevent_default: prevent, command: None }
            },
            Key::Right => {
                let prevent = self.key_right();
                KeyOutcome { prevent_default: prevent, command: None }
            },
            Key::Tab { shift } => {
                let prevent = self.value.unicode_len() > 0;
                self.key_tab(shift, term, path);
                KeyOutcome { prevent_default: prevent, command: None }
            },
            Key::Slash => {
                let prevent = self.key_slash();
                KeyOutcome { prevent_default: prevent, command: None }
            },
            Key::Other => {
                self.tab = None;
                self.hist = None;
                KeyOutcome { prevent_default: false, command: None }
            },
        }
    }
}

proof fn lemma_next_in_range(o: Seq<Seq<char>>, index: nat, current: Seq<char>)
    ensures
        next_different(o, index, current) matches Some(j) ==> index <= j < o.len(),
    decreases o.len() - index,
{
    if index < o.len() && o[index as int] == current {
        lemma_next_in_range(o, index + 1, current);
    }
}

proof fn lemma_prev_in_range(o: Seq<Seq<char>>, index: nat, current: Seq<char>)
    ensures
        prev_different(o, index, current) matches Some(j) ==> j < index,
    decreases index,
{
    if index > 0 && o[index - 1] == current {
        lemma_prev_in_range(o, (index - 1) as nat, current);
    }
}

impl Prompt {
    /// The text typed changed to `value`, with the cursor at `cursor`; the
    /// suggestion is looked up in the terminal's history.
    pub fn input(&mut self, value: String, cursor: usize, term: &Terminal)
        requires
            prompt_wf(old(self)@),
        ensures
            final(self)@ == (PromptV {
                value: value@,
                cursor: cursor as nat,
                ghost_text: spec_ghost(term.hist(), value@),
                tab: old(self)@.tab,
                hist: old(self)@.hist,
            }),
            prompt_wf(final(self)@),
    {
        let h = term.history();
        self.ghost_text = ghost_suggestion(&h, value.as_str());
        self.value = value;
        self.cursor = cursor;
    }

    /// The cursor moved to `cursor`.
    pub fn set_cursor(&mut self, cursor: usize)
        requires
            prompt_wf(old(self)@),
        ensures
            final(self)@ == (PromptV { cursor: cursor as nat, ..old(self)@ }),
            prompt_wf(final(self)@),
    {
        self.cursor = cursor;
    }

    /// Enter: hands over the text typed and empties the input.
    pub fn submit(&mut self) -> (r: String)
        requires
            prompt_wf(old(self)@),
        ensures
            r@ == old(self)@.value,
            final(self)@ == (PromptV {
                value: Seq::empty(),
                cursor: 0,
                ghost_text: None,
                tab: old(self)@.tab,
                hist: old(self)@.hist,
            }),
            prompt_wf(final(self)@),
    {
        let r = self.value.clone();
        self.value = String::new();
        self.cursor = 0;
        self.ghost_text = None;
        r
    }

    /// A click on the candidate `completion`: completes the text with it and
    /// ends tab completion.
    pub fn pick(&mut self, completion: &str)
        requires
            prompt_wf(old(self)@),
        ensures
            final(self)@ == (PromptV {
                value: spec_tab_replace(old(self)@.value, completion@),
                tab: None,
                ..old(self)@
            }),
            prompt_wf(final(self)@),
    {
        let nv = tab_replace(self.value.as_str(), completion);
        self.value = nv;
        self.tab = None;
    }

    /// The text typed.
    pub fn value(&self) -> (r: &str)
        ensures
            r@ == self@.value,
    {
        self.value.as_str()
    }

    /// The cursor's position.
    pub fn cursor(&self) -> (r: usize)
        ensures
            r == self@.cursor,
    {
        self.cursor
    }

    /// The suggestion after the text, if any.
    pub fn ghost_text(&self) -> (r: Option<String>)
        ensures
            opt_chars(r) == self@.ghost_text,
    {
        match &self.ghost_text {
            Some(g) => Some(g.clone()),
            None => None,
        }
    }

    /// The tab candidates on show and the one selected, while tab
    /// completion is under way.
    pub fn tab_candidates(&self) -> (r: Option<(Vec<TabCompletionItem>, Option<usize>)>)
        ensures
            match (r, self@.tab) {
                (Some((v, i)), Some(t)) => tab_views(v@) == t.opts && match (i, t.index) {
                    (Some(a), Some(b)) => a == b,
                    (None, None) => true,
                    _ => false,
                },
                (None, None) => true,
                _ => false,
            },
    {
        match &self.tab {
            Some(t) => Some((copy_items(&t.opts), t.index)),
            None => None,
        }
    }

    /// What the input shows: the text before the cursor, the text after
    /// it, and the suggestion when the cursor is at the end of a nonempty
    /// text.
    pub fn display(&self) -> (r: (String, String, Option<String>))
        ensures
            ({
                let v = self@.value;
                let c = if self@.cursor < v.len() {
                    self@.cursor as int
                } else {
                    v.len() as int
                };
                &&& r.0@ == v.take(c)
                &&& r.1@ == v.skip(c)
                &&& opt_chars(r.2) == if v.len() > 0 && self@.cursor >= v.len() {
                    self@.ghost_text
                } else {
                    None
                }
            }),
    {
        let n = self.value.unicode_len();
        let c = if self.cursor < n {
            self.cursor
        } else {
            n
        };
        let before = String::from_str(take_chars(self.value.as_str(), c));
        let after = String::from_str(skip_chars(self.value.as_str(), c));
        let shown = if n > 0 && self.cursor >= n {
            self.ghost_text()
        } else {
            None
        };
        (before, after, shown)
    }
}

/// How a tab candidate is drawn.
#[derive(Clone, Copy, PartialEq, Eq, Structural, Debug)]
pub enum LabelStyle {
    Directory,
    Executable,
    Plain,
}

/// The label of a candidate: unselected, its trailing `/` or `*` is drawn
/// apart, and directories and executables are set off.
pub open spec fn spec_label(item: (Seq<char>, bool, bool), active: bool) -> (Seq<char>, LabelStyle) {
    let s = item.0;
    let marked = s.len() > 0 && (s.last() == '/' || s.last() == '*');
    (
        if !active && marked {
            s.drop_last()
        } else {
            s
        },
        if !active && item.1 {
            LabelStyle::Directory
        } else if !active && item.2 {
            LabelStyle::Executable
        } else {
            LabelStyle::Plain
        },
    )
}

/// The label of the candidate `item`, selected or not.
pub fn candidate_label(item: &TabCompletionItem, active: bool) -> (r: (String, LabelStyle))
    ensures
        (r.0@, r.1) == spec_label(item@, active),
{
    let s = item.completion_text.as_str();
    let n = s.unicode_len();
    let marked = n > 0 && (s.get_char(n - 1) == '/' || s.get_char(n - 1) == '*');
    let text = if !active && marked {
        let t = take_chars(s, n - 1);
        assert(t@ =~= s@.drop_last());
        String::from_str(t)
    } else {
        String::from_str(s)
    };
    let style = if !active && item.is_directory {
        LabelStyle::Directory
    } else if !active && item.is_executable {
        LabelStyle::Executable
    } else {
        LabelStyle::Plain
    };
    (text, style)
}

} // verus!
