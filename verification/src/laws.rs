use vstd::prelude::*;

use crate::blog::{later, metas_of, newest_first, insert_newest, spec_get_meta, MetaV, SourceV, search_flags, chosen, search_compiles};
use crate::command::{marked_failed, with_err_text, with_out_text, ResV};
use crate::components::{choose_cols, column_widths, spec_num_rows, sum};
use crate::prompt::{
    latest_extension, next_different, prev_different, spec_down, spec_ghost, spec_hist_opts, spec_key_ok,
    spec_tab_index, spec_up, extends, Key, PromptV,
};
use crate::sort::{insert_by, stable_sort};
use crate::terminal::{
    command_item, completion_of, offered, record, starts_with_fn, tab_cmds, tab_key, tab_opts, tab_split, terminal_result,
    HISTORY_SIZE,
};
use crate::vfs::FsModel;
use crate::text::{seq_starts_with, trim_ws};

verus! {

proof fn lemma_prev_different(o: Seq<Seq<char>>, idx: nat, c: Seq<char>)
    requires
        idx <= o.len(),
    ensures
        prev_different(o, idx, c) matches Some(j) ==> {
            &&& j < idx
            &&& o[j as int] != c
            &&& forall|k: int| j < k < idx ==> o[k] == c
        },
    decreases idx,
{
    if idx > 0 && o[idx - 1] == c {
        lemma_prev_different(o, (idx - 1) as nat, c);
    }
}

/// Arrow up, then arrow down, gives back what was typed, whenever arrow up
/// found an earlier command to show.
pub proof fn law_up_then_down_restores(p: PromptV, h: Seq<Seq<char>>)
    requires
        p.hist is None,
        trim_ws(p.value).len() > 0,
        prev_different(spec_hist_opts(h, p.value), spec_hist_opts(h, p.value).len(), p.value) is Some,
    ensures
        spec_key_ok(spec_up(p, spec_hist_opts(h, p.value)), Key::Down),
        spec_down(spec_up(p, spec_hist_opts(h, p.value))).0.value == p.value,
{
    let fresh = spec_hist_opts(h, p.value);
    assert(fresh == h.filter(starts_with_fn(p.value)));
    lemma_prev_different(fresh, fresh.len(), p.value);
    let j = prev_different(fresh, fresh.len(), p.value)->0;
    assert(seq_starts_with(fresh[j as int], p.value)) by {
        h.lemma_filter_pred(starts_with_fn(p.value), j as int);
        assert(starts_with_fn(p.value)(fresh[j as int]));
    }
    let q = spec_up(p, fresh);
    assert(q.value == fresh[j as int]);
    if j + 1 < fresh.len() {
        assert(fresh[(j + 1) as int] == p.value);
        assert(next_different(fresh, j + 1, fresh[j as int]) == Some((j + 1) as nat));
    } else {
        assert(next_different(fresh, j + 1, fresh[j as int]) is None);
        assert(fresh[j as int].take(p.value.len() as int) =~= fresh[j as int].subrange(0, p.value.len() as int));
    }
}

/// Tab, then Shift+Tab, selects the candidate selected before.
pub proof fn law_tab_then_back(i: nat, n: nat)
    requires
        i < n,
    ensures
        spec_tab_index(Some(spec_tab_index(Some(i), false, n)), true, n) == i,
{
    if i + 1 < n {
        assert((i + 1) % n == i + 1) by (nonlinear_arith)
            requires
                i + 1 < n,
        ;
    } else {
        assert((i + 1) % n == 0) by (nonlinear_arith)
            requires
                i + 1 == n,
                n > 0,
        ;
    }
}

proof fn lemma_latest_extension(h: Seq<Seq<char>>, input: Seq<char>)
    ensures
        latest_extension(h, input) matches Some(g) ==> h.contains(input + g),
    decreases h.len(),
{
    if h.len() > 0 {
        if extends(h.last(), input) {
            let g = h.last().skip(input.len() as int);
            assert(input + g =~= h.last());
            assert(h[h.len() - 1] == h.last());
        } else {
            lemma_latest_extension(h.drop_last(), input);
            if latest_extension(h, input) is Some {
                let g = latest_extension(h, input)->0;
                let k = choose|k: int| 0 <= k < h.drop_last().len() && h.drop_last()[k] == input + g;
                assert(h[k] == input + g);
            }
        }
    }
}

/// The suggestion shown after what was typed completes a recorded
/// command, and one longer than what was typed.
pub proof fn law_suggestion_completes_history(h: Seq<Seq<char>>, input: Seq<char>)
    ensures
        spec_ghost(h, input) matches Some(g) ==> h.contains(input + g) && g.len() > 0,
    decreases h.len(),
{
    lemma_latest_extension(h, input);
    lemma_extension_nonempty(h, input);
}

proof fn lemma_extension_nonempty(h: Seq<Seq<char>>, input: Seq<char>)
    ensures
        latest_extension(h, input) matches Some(g) ==> g.len() > 0,
    decreases h.len(),
{
    if h.len() > 0 && !extends(h.last(), input) {
        lemma_extension_nonempty(h.drop_last(), input);
    }
}

/// Posts listed newest first: no post is later than one before it.
pub open spec fn is_newest_first(m: Seq<MetaV>) -> bool {
    forall|i: int, j: int| 0 <= i < j < m.len() ==> !later(#[trigger] m[j].date, #[trigger] m[i].date)
}

proof fn lemma_insert_bound(s: Seq<MetaV>, x: MetaV, b: (i64, u32))
    requires
        forall|k: int| 0 <= k < s.len() ==> !later(#[trigger] s[k].date, b),
        !later(x.date, b),
    ensures
        forall|k: int| 0 <= k < insert_newest(s, x).len() ==> !later(#[trigger] insert_newest(s, x)[k].date, b),
    decreases s.len(),
{
    if s.len() > 0 && !later(x.date, s[0].date) {
        let t = s.drop_first();
        assert forall|k: int| 0 <= k < t.len() implies !later(#[trigger] t[k].date, b) by {
            assert(t[k] == s[k + 1]);
        }
        lemma_insert_bound(t, x, b);
        let r = insert_newest(s, x);
        assert forall|k: int| 0 <= k < r.len() implies !later(#[trigger] r[k].date, b) by {
            if k > 0 {
                assert(r[k] == insert_newest(t, x)[k - 1]);
            }
        }
    }
}

proof fn lemma_insert_len(s: Seq<MetaV>, x: MetaV)
    ensures
        insert_newest(s, x).len() == s.len() + 1,
        insert_newest(s, x).to_multiset() == s.to_multiset().insert(x),
    decreases s.len(),
{
    broadcast use vstd::seq_lib::group_to_multiset_ensures;
    if s.len() == 0 {
        assert(seq![x] =~= Seq::<MetaV>::empty().push(x));
    } else if later(x.date, s[0].date) {
        vstd::seq_lib::lemma_multiset_commutative(seq![x], s);
        assert(seq![x] =~= Seq::<MetaV>::empty().push(x));
        assert(seq![x].to_multiset() =~= vstd::multiset::Multiset::<MetaV>::empty().insert(x)) by {
            broadcast use vstd::multiset::group_multiset_axioms;
        }
        assert(s.to_multiset().insert(x) =~= vstd::multiset::Multiset::<MetaV>::empty().insert(x).add(s.to_multiset())) by {
            broadcast use vstd::multiset::group_multiset_axioms;
        }
    } else {
        let t = s.drop_first();
        lemma_insert_len(t, x);
        assert(s =~= seq![s[0]] + t);
        vstd::seq_lib::lemma_multiset_commutative(seq![s[0]], t);
        vstd::seq_lib::lemma_multiset_commutative(seq![s[0]], insert_newest(t, x));
        assert(seq![s[0]].to_multiset().add(t.to_multiset().insert(x)) =~= seq![s[0]].to_multiset().add(
            t.to_multiset(),
        ).insert(x)) by {
            broadcast use vstd::multiset::group_multiset_axioms;
        }
    }
}

proof fn lemma_insert_sorted(s: Seq<MetaV>, x: MetaV)
    requires
        is_newest_first(s),
    ensures
        is_newest_first(insert_newest(s, x)),
    decreases s.len(),
{
    if s.len() > 0 {
        if later(x.date, s[0].date) {
            let r = seq![x] + s;
            assert forall|i: int, j: int| 0 <= i < j < r.len() implies !later(#[trigger] r[j].date, #[trigger] r[i].date) by {
                if i == 0 {
                    assert(r[j] == s[j - 1]);
                    if j - 1 > 0 {
                        assert(!later(s[j - 1].date, s[0].date));
                    }
                } else {
                    assert(r[i] == s[i - 1] && r[j] == s[j - 1]);
                }
            }
        } else {
            let t = s.drop_first();
            assert(is_newest_first(t)) by {
                assert forall|i: int, j: int| 0 <= i < j < t.len() implies !later(#[trigger] t[j].date, #[trigger] t[i].date) by {
                    assert(t[i] == s[i + 1] && t[j] == s[j + 1]);
                }
            }
            lemma_insert_sorted(t, x);
            assert forall|k: int| 0 <= k < t.len() implies !later(#[trigger] t[k].date, s[0].date) by {
                assert(t[k] == s[k + 1]);
            }
            lemma_insert_bound(t, x, s[0].date);
            let it = insert_newest(t, x);
            let r = seq![s[0]] + it;
            assert forall|i: int, j: int| 0 <= i < j < r.len() implies !later(#[trigger] r[j].date, #[trigger] r[i].date) by {
                assert(r[j] == it[j - 1]);
                if i > 0 {
                    assert(r[i] == it[i - 1]);
                }
            }
        }
    }
}

proof fn lemma_newest_first(s: Seq<MetaV>)
    ensures
        is_newest_first(newest_first(s)),
        newest_first(s).to_multiset() == s.to_multiset(),
        newest_first(s).len() == s.len(),
    decreases s.len(),
{
    broadcast use vstd::seq_lib::group_to_multiset_ensures;
    if s.len() > 0 {
        lemma_newest_first(s.drop_last());
        lemma_insert_sorted(newest_first(s.drop_last()), s.last());
        lemma_insert_len(newest_first(s.drop_last()), s.last());
        assert(s =~= s.drop_last().push(s.last()));
    }
}

/// A listing comes newest first and holds exactly the posts it selected.
pub proof fn law_listing_newest_first(pattern: Seq<char>, s: Seq<SourceV>)
    ensures
        spec_get_meta(pattern, s) matches Some(m) ==> {
            &&& is_newest_first(m)
            &&& metas_of(chosen(s, search_flags(pattern, s))) matches Some(sel)
            &&& m.to_multiset() == sel.to_multiset()
        },
{
    if spec_get_meta(pattern, s) is Some {
        let sel = metas_of(chosen(s, search_flags(pattern, s)))->0;
        lemma_newest_first(sel);
    }
}

proof fn lemma_chosen_all(s: Seq<SourceV>, sel: Seq<bool>)
    requires
        sel.len() == s.len(),
        forall|i: int| 0 <= i < sel.len() ==> #[trigger] sel[i],
    ensures
        chosen(s, sel) == s,
    decreases s.len(),
{
    if s.len() > 0 {
        lemma_chosen_all(s.drop_last(), sel.drop_last());
        assert(sel.last() == sel[sel.len() - 1]);
        assert(s.drop_last().push(s.last()) =~= s);
    }
}

/// With an empty search, once the pattern compiles and every header can
/// be read, the listing holds every post.
pub proof fn law_empty_search_lists_every_post(s: Seq<SourceV>)
    requires
        search_compiles(Seq::empty()),
        metas_of(s) is Some,
    ensures
        spec_get_meta(Seq::empty(), s) matches Some(m) && m.len() == s.len()
            && m.to_multiset() == (metas_of(s)->0).to_multiset(),
{
    let flags = search_flags(Seq::empty(), s);
    lemma_chosen_all(s, flags);
    lemma_metas_len(s);
    lemma_newest_first(metas_of(s)->0);
}

proof fn lemma_metas_len(s: Seq<SourceV>)
    ensures
        metas_of(s) matches Some(m) ==> m.len() == s.len(),
    decreases s.len(),
{
    if s.len() > 0 {
        lemma_metas_len(s.drop_last());
    }
}

/// The columns a listing is laid out in fit on the line whenever there is
/// more than one of them, and there are never more than were tried.
pub proof fn law_columns_fit(lens: Seq<usize>, avail: nat, n: nat)
    ensures
        1 <= choose_cols(lens, avail, n),
        n > 0 ==> choose_cols(lens, avail, n) <= n,
        choose_cols(lens, avail, n) > 1 ==> sum(
            column_widths(lens, spec_num_rows(lens.len(), choose_cols(lens, avail, n))),
        ) < avail,
    decreases n,
{
    if n > 0 {
        law_columns_fit(lens, avail, (n - 1) as nat);
    }
}

/// A command is recorded last in the history, which never grows past its
/// limit; blank input leaves it alone and `history -c` empties it.
pub proof fn law_history_records(
    r: crate::command::CommandRes,
    a: FsModel,
    b: FsModel,
    h1: Seq<Seq<char>>,
    h2: Seq<Seq<char>>,
    vars: Seq<(Seq<char>, Seq<char>)>,
    procs: Seq<crate::ps_tools::Process>,
    path: Seq<char>,
    input: Seq<char>,
)
    requires
        terminal_result(r, a, b, h1, h2, vars, procs, path, input),
        h1.len() <= HISTORY_SIZE,
    ensures
        h2.len() <= HISTORY_SIZE,
        trim_ws(input).len() == 0 ==> h2 == h1,
        trim_ws(input).len() > 0 ==> h2 == record(h1, input) || h2.len() == 0,
        record(h1, input).last() == input,
        record(h1, input).len() <= HISTORY_SIZE,
{
}

/// No process can be killed: every answer of `kill` is a failure with a
/// message and no output.
pub proof fn law_kill_always_refused(r: crate::command::CommandRes, pids: Seq<u32>, a: Seq<Seq<char>>)
    requires
        crate::ps_tools::kill_result(r, pids, a),
    ensures
        r.spec_is_err(),
        r.stdout() is None,
        r.stderr() is Some,
{
}

/// Blank input is answered with nothing and changes nothing.
pub proof fn law_blank_input_is_ignored(
    r: crate::command::CommandRes,
    a: FsModel,
    b: FsModel,
    h1: Seq<Seq<char>>,
    h2: Seq<Seq<char>>,
    vars: Seq<(Seq<char>, Seq<char>)>,
    procs: Seq<crate::ps_tools::Process>,
    path: Seq<char>,
    input: Seq<char>,
)
    requires
        terminal_result(r, a, b, h1, h2, vars, procs, path, input),
        trim_ws(input).len() == 0,
    ensures
        r.is_empty_output(),
        b == a,
        h2 == h1,
{
}

proof fn lemma_insert_by_contains<T>(s: Seq<T>, x: T, key: spec_fn(T) -> Seq<char>, y: T)
    requires
        insert_by(s, x, key).contains(y),
    ensures
        y == x || s.contains(y),
    decreases s.len(),
{
    let r = insert_by(s, x, key);
    let k = choose|k: int| 0 <= k < r.len() && r[k] == y;
    if s.len() > 0 {
        if crate::text::char_seq_lt(key(x), key(s[0])) {
            if k > 0 {
                assert(s[k - 1] == y);
            }
        } else {
            if k > 0 {
                let t = insert_by(s.drop_first(), x, key);
                assert(t[k - 1] == y);
                assert(t.contains(y));
                lemma_insert_by_contains(s.drop_first(), x, key, y);
                if y != x {
                    let j = choose|j: int| 0 <= j < s.drop_first().len() && s.drop_first()[j] == y;
                    assert(s[j + 1] == y);
                }
            }
        }
    }
}

proof fn lemma_sort_contains<T>(s: Seq<T>, key: spec_fn(T) -> Seq<char>, y: T)
    requires
        stable_sort(s, key).contains(y),
    ensures
        s.contains(y),
    decreases s.len(),
{
    if s.len() > 0 {
        lemma_insert_by_contains(stable_sort(s.drop_last(), key), s.last(), key, y);
        if y != s.last() {
            lemma_sort_contains(s.drop_last(), key, y);
            let j = choose|j: int| 0 <= j < s.drop_last().len() && s.drop_last()[j] == y;
            assert(s[j] == y);
        } else {
            assert(s[s.len() - 1] == y);
        }
    }
}

proof fn lemma_prefix_extends(s: Seq<char>, p: Seq<char>, suffix: Seq<char>)
    requires
        seq_starts_with(s, p),
    ensures
        seq_starts_with(s + suffix, p),
{
    assert((s + suffix).subrange(0, p.len() as int) =~= s.subrange(0, p.len() as int));
}

/// Every command offered for completing a first word starts with that
/// word.
pub proof fn law_command_candidates_extend_word(word: Seq<char>)
    ensures
        forall|i: int| 0 <= i < tab_cmds(word).len() ==> seq_starts_with(#[trigger] tab_cmds(word)[i].0, word),
{
    let all = (crate::command::spec_all_names().filter(starts_with_fn(word)) + crate::terminal::alias_names().filter(
        starts_with_fn(word),
    ));
    let items = all.map_values(command_item());
    assert forall|i: int| 0 <= i < tab_cmds(word).len() implies seq_starts_with(#[trigger] tab_cmds(word)[i].0, word) by {
        let c = tab_cmds(word)[i];
        assert(tab_cmds(word).contains(c));
        lemma_sort_contains(items, tab_key(), c);
        let j = choose|j: int| 0 <= j < items.len() && items[j] == c;
        let n = all[j];
        assert(c == (n, false, true));
        let a = crate::command::spec_all_names().filter(starts_with_fn(word));
        let b = crate::terminal::alias_names().filter(starts_with_fn(word));
        if j < a.len() {
            crate::command::spec_all_names().lemma_filter_pred(starts_with_fn(word), j);
            assert(all[j] == a[j]);
        } else {
            crate::terminal::alias_names().lemma_filter_pred(starts_with_fn(word), j - a.len());
            assert(all[j] == b[j - a.len()]);
        }
    }
}

/// Every path offered for completing a word starts with the part of the
/// word after its last `/`.
pub proof fn law_path_candidates_extend_word(m: FsModel, cur: indextree::NodeId, t: Seq<char>)
    ensures
        forall|i: int|
            0 <= i < tab_opts(m, cur, t).len() ==> seq_starts_with(#[trigger] tab_opts(m, cur, t)[i].0, tab_split(t).1),
{
    let (dp, prefix) = tab_split(t);
    assert forall|i: int| 0 <= i < tab_opts(m, cur, t).len() implies seq_starts_with(
        #[trigger] tab_opts(m, cur, t)[i].0,
        prefix,
    ) by {
        let n = crate::terminal::tab_dir(m, cur, dp)->Ok_0;
        let listing = crate::vfs::spec_listing(m, n);
        let fl = listing.filter(offered(prefix));
        let items = fl.map_values(completion_of());
        let c = tab_opts(m, cur, t)[i];
        assert(tab_opts(m, cur, t).contains(c));
        lemma_sort_contains(items, tab_key(), c);
        let j = choose|j: int| 0 <= j < items.len() && items[j] == c;
        let e = fl[j];
        listing.lemma_filter_pred(offered(prefix), j);
        assert(offered(prefix)(e));
        if prefix.len() == 0 {
            assert(seq_starts_with(c.0, prefix)) by {
                assert(c.0.subrange(0, 0) =~= prefix);
            }
        } else {
            assert(seq_starts_with(e.name@, prefix));
            lemma_prefix_extends(e.name@, prefix, "/"@);
            lemma_prefix_extends(e.name@, prefix, "*"@);
        }
    }
}

} // verus!

verus! {

/// Building a result does not depend on the order of the steps: marking it
/// failed and setting its standard output or standard error give the same
/// result in either order, and marking it failed twice is marking it once.
pub proof fn law_result_builders_commute(v: ResV, t: Seq<char>, u: Seq<char>)
    ensures
        marked_failed(with_err_text(v, t)) == with_err_text(marked_failed(v), t),
        marked_failed(with_out_text(v, u)) == with_out_text(marked_failed(v), u),
        with_err_text(with_out_text(v, u), t) == with_out_text(with_err_text(v, t), u),
        marked_failed(marked_failed(v)) == marked_failed(v),
{
}

} // verus!
