use indextree::NodeId;
use vstd::prelude::*;

use crate::command::{spec_cmd_of, CommandRes};
use crate::fs::{options_of, targets_of};
use crate::fs_tools::{cat_errors, cat_one, cat_one_fn, cat_result, cat_texts, cd_result, dir_items, dot_items, entry_item, hidden_name, shown, CatOne, ItemV};
use crate::sort::lemma_sort_contains;
use crate::system_tools::which_of;
use crate::terminal::{completion_of, spec_tab, tab_key, tab_opts, tab_dir, tab_split, offered, is_dir_item, current_node};
use crate::text::{seq_ends_with, split_nonempty, words};
use crate::vfs::{spec_listing, spec_node_path, spec_read_file, spec_resolve_path, join_with, DirEntry, FsModel, VfsError};
use crate::vfs_laws::law_resolve_gives_live_node;

verus! {

proof fn lemma_concat_contains<T>(a: Seq<T>, b: Seq<T>, x: T)
    ensures
        (a + b).contains(x) <==> (a.contains(x) || b.contains(x)),
{
    if (a + b).contains(x) {
        let k = choose|k: int| 0 <= k < (a + b).len() && (a + b)[k] == x;
        if k < a.len() {
            assert(a[k] == x);
        } else {
            assert(b[k - a.len()] == x);
        }
    }
    if a.contains(x) {
        let k = choose|k: int| 0 <= k < a.len() && a[k] == x;
        assert((a + b)[k] == x);
    }
    if b.contains(x) {
        let k = choose|k: int| 0 <= k < b.len() && b[k] == x;
        assert((a + b)[k + a.len()] == x);
    }
}

proof fn lemma_filter_map_contains<A, B>(s: Seq<A>, p: spec_fn(A) -> bool, f: spec_fn(A) -> B, y: B)
    ensures
        s.filter(p).map_values(f).contains(y) <==> exists|e: A| #[trigger] s.contains(e) && p(e) && f(e) == y,
{
    let t = s.filter(p);
    if t.map_values(f).contains(y) {
        let k = choose|k: int| 0 <= k < t.map_values(f).len() && t.map_values(f)[k] == y;
        s.lemma_filter_pred(p, k);
        assert(t.contains(t[k]));
        s.lemma_filter_contains_rev(p, t[k]);
        assert(s.contains(t[k]) && p(t[k]) && f(t[k]) == y);
    }
    if exists|e: A| #[trigger] s.contains(e) && p(e) && f(e) == y {
        let e = choose|e: A| #[trigger] s.contains(e) && p(e) && f(e) == y;
        let i = choose|i: int| 0 <= i < s.len() && s[i] == e;
        s.lemma_filter_contains(p, i);
        let k = choose|k: int| 0 <= k < t.len() && t[k] == e;
        assert(t.map_values(f)[k] == y);
    }
}

/// Where a line of a listing comes from: a `.`/`..` line, or an entry of
/// the directory that the listing keeps.
proof fn lemma_items_contain(m: FsModel, n: NodeId, all: bool, x: ItemV)
    ensures
        dir_items(m, n, all).contains(x) <==> (dot_items(m, n, all).contains(x) || exists|e: DirEntry|
            #[trigger] spec_listing(m, n).contains(e) && shown(all)(e) && entry_item(m)(e) == x),
{
    let body = spec_listing(m, n).filter(shown(all)).map_values(entry_item(m));
    lemma_sort_contains(dot_items(m, n, all) + body, crate::fs_tools::item_key(), x);
    lemma_concat_contains(dot_items(m, n, all), body, x);
    lemma_filter_map_contains(spec_listing(m, n), shown(all), entry_item(m), x);
}

/// Without `-a`, `ls` shows no name starting with `.`; with `-a` it shows
/// every line of the plain listing, and every line it adds has such a name
/// (`.`, `..` or a hidden entry).
pub proof fn law_ls_hidden_entries_only_with_all(m: FsModel, n: NodeId)
    ensures
        forall|k: int| 0 <= k < dir_items(m, n, false).len() ==> !hidden_name(#[trigger] dir_items(m, n, false)[k].name),
        forall|x: ItemV| #[trigger] dir_items(m, n, false).contains(x) ==> dir_items(m, n, true).contains(x),
        forall|x: ItemV| #[trigger] dir_items(m, n, true).contains(x) && !hidden_name(x.name) ==> dir_items(
            m,
            n,
            false,
        ).contains(x),
{
    reveal_strlit(".");
    reveal_strlit("..");
    assert forall|k: int| 0 <= k < dir_items(m, n, false).len() implies !hidden_name(
        #[trigger] dir_items(m, n, false)[k].name,
    ) by {
        let x = dir_items(m, n, false)[k];
        assert(dir_items(m, n, false).contains(x));
        lemma_items_contain(m, n, false, x);
        let e = choose|e: DirEntry| #[trigger] spec_listing(m, n).contains(e) && shown(false)(e) && entry_item(m)(e) == x;
    }
    assert forall|x: ItemV| #[trigger] dir_items(m, n, false).contains(x) implies dir_items(m, n, true).contains(x) by {
        lemma_items_contain(m, n, false, x);
        lemma_items_contain(m, n, true, x);
        let e = choose|e: DirEntry| #[trigger] spec_listing(m, n).contains(e) && shown(false)(e) && entry_item(m)(e) == x;
        assert(shown(true)(e));
    }
    assert forall|x: ItemV| #[trigger] dir_items(m, n, true).contains(x) && !hidden_name(x.name) implies dir_items(
        m,
        n,
        false,
    ).contains(x) by {
        lemma_items_contain(m, n, true, x);
        lemma_items_contain(m, n, false, x);
        let d = dot_items(m, n, true);
        assert(!d.contains(x)) by {
            if d.contains(x) {
                let k = choose|k: int| 0 <= k < d.len() && d[k] == x;
                assert(k == 0 || k == 1);
                assert(hidden_name(d[k].name));
            }
        }
        let e = choose|e: DirEntry| #[trigger] spec_listing(m, n).contains(e) && shown(true)(e) && entry_item(m)(e) == x;
        assert(shown(false)(e));
    }
}

/// What reading the file that `tp` names from `cur` gives.
pub open spec fn read_from(m: FsModel, cur: NodeId, tp: Seq<char>) -> Result<Seq<char>, VfsError> {
    match spec_resolve_path(m, cur, tp) {
        Ok(n) => spec_read_file(m, n),
        Err(e) => Err(e),
    }
}

/// Whether `tp` names, from `cur`, a file that can be read.
pub open spec fn readable(m: FsModel, cur: NodeId, tp: Seq<char>) -> bool {
    tp.len() > 0 && read_from(m, cur, tp) is Ok
}

/// The text of the file that `tp` names from `cur`.
pub open spec fn text_fn(m: FsModel, cur: NodeId) -> spec_fn(Seq<char>) -> Seq<char> {
    |tp: Seq<char>| read_from(m, cur, tp)->Ok_0
}

proof fn lemma_cat_texts_in_order(m: FsModel, cur: NodeId, tps: Seq<Seq<char>>)
    requires
        forall|i: int| 0 <= i < tps.len() ==> readable(m, cur, #[trigger] tps[i]),
    ensures
        cat_texts(tps.map_values(cat_one_fn(m, cur))) == tps.map_values(text_fn(m, cur)),
        cat_errors(tps.map_values(cat_one_fn(m, cur))) == Seq::<Seq<char>>::empty(),
    decreases tps.len(),
{
    let os = tps.map_values(cat_one_fn(m, cur));
    if tps.len() > 0 {
        let pre = tps.drop_last();
        assert forall|i: int| 0 <= i < pre.len() implies readable(m, cur, #[trigger] pre[i]) by {
            assert(pre[i] == tps[i]);
        }
        lemma_cat_texts_in_order(m, cur, pre);
        assert(os.drop_last() =~= pre.map_values(cat_one_fn(m, cur)));
        let tp = tps.last();
        assert(readable(m, cur, tps[tps.len() - 1]));
        assert(os.last() == cat_one(m, cur, tp));
        assert(cat_one(m, cur, tp) == CatOne::Text(read_from(m, cur, tp)->Ok_0));
        assert(tps.map_values(text_fn(m, cur)) =~= pre.map_values(text_fn(m, cur)).push(text_fn(m, cur)(tp)));
    } else {
        assert(tps.map_values(text_fn(m, cur)) =~= Seq::<Seq<char>>::empty());
    }
}

/// `cat` on files that can all be read succeeds and prints their texts in
/// the order of its operands, a newline between each two.
pub proof fn law_cat_prints_in_operand_order(r: CommandRes, m: FsModel, cur: NodeId, args: Seq<Seq<char>>)
    requires
        cat_result(r, m, cur, args),
        options_of(args).len() == 0,
        targets_of(args).len() > 0,
        forall|i: int| 0 <= i < targets_of(args).len() ==> readable(m, cur, #[trigger] targets_of(args)[i]),
    ensures
        !r.spec_is_err(),
        r.stderr() is None,
        r.stdout() == (if join_with(targets_of(args).map_values(text_fn(m, cur)), "\n"@).len() > 0 {
            Some(join_with(targets_of(args).map_values(text_fn(m, cur)), "\n"@))
        } else {
            None
        }),
{
    lemma_cat_texts_in_order(m, cur, targets_of(args));
}

/// Completing an argument of `cd` offers directories only: each candidate
/// is marked a directory and ends in `/`.
pub proof fn law_cd_completion_offers_directories(m: FsModel, path: Seq<char>, input: Seq<char>)
    requires
        words(input).len() > 0,
        spec_cmd_of(words(input)[0]) is Cd,
    ensures
        forall|k: int| 0 <= k < spec_tab(m, path, input).len() ==> (#[trigger] spec_tab(m, path, input)[k]).1
            && seq_ends_with(spec_tab(m, path, input)[k].0, "/"@),
{
    reveal_strlit("/");
    let ws = words(input);
    let rest = ws.drop_first();
    let cur = current_node(m, path);
    let last = if rest.len() == 0 {
        Seq::<char>::empty()
    } else {
        rest.last()
    };
    let opts = tab_opts(m, cur, last);
    assert forall|k: int| 0 <= k < spec_tab(m, path, input).len() implies (#[trigger] spec_tab(m, path, input)[k]).1
        && seq_ends_with(spec_tab(m, path, input)[k].0, "/"@) by {
        let s = spec_tab(m, path, input);
        assert(s == opts.filter(is_dir_item()));
        opts.lemma_filter_pred(is_dir_item(), k);
        let x = s[k];
        assert(s.contains(x));
        opts.lemma_filter_contains_rev(is_dir_item(), x);
        let (dp, prefix) = tab_split(last);
        let n = tab_dir(m, cur, dp)->Ok_0;
        let l = spec_listing(m, n);
        lemma_sort_contains(l.filter(offered(prefix)).map_values(completion_of()), tab_key(), x);
        lemma_filter_map_contains(l, offered(prefix), completion_of(), x);
        let e = choose|e: DirEntry| #[trigger] l.contains(e) && offered(prefix)(e) && completion_of()(e) == x;
        assert(e.is_directory);
        assert(x.0 == e.name@ + "/"@);
        assert((e.name@ + "/"@).subrange((e.name@ + "/"@).len() - 1, (e.name@ + "/"@).len() as int) =~= "/"@);
    }
}

/// `which` on a name with a `/` in it reports it found exactly when the
/// path leads to a node that can be run; found, it prints the name, else
/// the name and "not found".
pub proof fn law_which_path_found_iff_executable(m: FsModel, cur: NodeId, c: Seq<char>)
    requires
        m.wf(),
        m.live(cur),
        c.contains('/'),
    ensures
        which_of(m, cur, c).1 <==> (spec_resolve_path(m, cur, c) matches Ok(n) && m.data(n).permissions.execute),
        which_of(m, cur, c).0 == (if which_of(m, cur, c).1 {
            c
        } else {
            c + " not found"@
        }),
{
    law_resolve_gives_live_node(m, cur, c);
}

/// `cd` with no operand goes to the top: it navigates to `/` from any
/// other directory, stays (printing nothing) at the top, and answers as
/// `cd /` does.
pub proof fn law_cd_alone_goes_home(r: CommandRes, m: FsModel, cur: NodeId)
    requires
        m.wf(),
        m.live(cur),
    ensures
        cd_result(r, m, cur, Seq::empty()) <==> cd_result(r, m, cur, seq!["/"@]),
        cd_result(r, m, cur, Seq::empty()) && cur != m.root ==> r.redirect_target() == Some("/"@),
        cd_result(r, m, cur, Seq::empty()) && cur == m.root ==> r.is_empty_output(),
{
    reveal_strlit("/");
    let p = "/"@;
    assert(p =~= seq!['/']);
    assert(p.drop_first() =~= Seq::<char>::empty());
    assert(split_nonempty(Seq::empty(), '/') =~= Seq::<Seq<char>>::empty());
    assert(p != seq!['.'] && p != seq!['~']);
    assert(spec_resolve_path(m, cur, p) == Ok::<NodeId, VfsError>(m.root));
    assert(m.nodes[m.root] == m.nodes[m.root]);
    assert(spec_node_path(m, m.root) == "/"@);
}

} // verus!
