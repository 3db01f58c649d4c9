use indextree::NodeId;
use vstd::prelude::*;

use crate::text::{split_acc, split_nonempty};
use crate::vfs::{
    child_named, create_error, first_named_from, is_user_node, join_with, path_names, spec_node_path,
    spec_read_file, spec_resolve_path, spec_step, walk_from, with_child, FileContent, FsModel,
    VfsNodeType, VfsNode, spec_nav_content, resolve_from,
};

verus! {

/// The text a file created with `content` reads back as.
pub open spec fn content_text(content: FileContent) -> Seq<char> {
    match content {
        FileContent::Static(s) => s@,
        FileContent::Dynamic(s) => s@,
        FileContent::NavFile(p) => spec_nav_content(p@),
    }
}

/// A file just created under `p` reads back exactly what it was created
/// with.
pub proof fn law_created_file_reads_back(m: FsModel, p: NodeId, id: NodeId, d: VfsNode, name: Seq<char>, content: FileContent, size: u64)
    requires
        m.wf(),
        create_error(m, p, name) is None,
        !m.live(id),
        is_user_node(d, name, VfsNodeType::File { content: content }, size),
    ensures
        spec_read_file(with_child(m, p, id, d), id) == Ok::<Seq<char>, crate::vfs::VfsError>(content_text(content)),
{
}

/// The first child named `name` among `cs[j..]`, when every one of them
/// before position `k` has another name and `cs[k]` has it, is `cs[k]`.
pub proof fn lemma_first_named_at(m: FsModel, cs: Seq<NodeId>, name: Seq<char>, j: int, k: int)
    requires
        0 <= j <= k < cs.len(),
        m.data(cs[k]).name@ == name,
        forall|i: int| j <= i < k ==> m.data(cs[i]).name@ != name,
    ensures
        first_named_from(m, cs, name, j) == Some(cs[k]),
    decreases k - j,
{
    if j < k {
        lemma_first_named_at(m, cs, name, j + 1, k);
    }
}

/// The first child named `name` among `cs[j..]` is `None` when none has it.
pub proof fn lemma_first_named_none(m: FsModel, cs: Seq<NodeId>, name: Seq<char>, j: int)
    requires
        0 <= j <= cs.len(),
        forall|i: int| j <= i < cs.len() ==> m.data(cs[i]).name@ != name,
    ensures
        first_named_from(m, cs, name, j) is None,
    decreases cs.len() - j,
{
    if j < cs.len() {
        lemma_first_named_none(m, cs, name, j + 1);
    }
}

/// A name held by some `cs[i]` with `i >= j` is found among `cs[j..]`.
pub proof fn lemma_first_named_exists(m: FsModel, cs: Seq<NodeId>, name: Seq<char>, j: int, i: int)
    requires
        0 <= j <= i < cs.len(),
        m.data(cs[i]).name@ == name,
    ensures
        first_named_from(m, cs, name, j) is Some,
    decreases i - j,
{
    if j < i && m.data(cs[j]).name@ != name {
        lemma_first_named_exists(m, cs, name, j + 1, i);
    }
}

/// A name found among `cs[j..]` belongs to one of them.
pub proof fn lemma_first_named_some(m: FsModel, cs: Seq<NodeId>, name: Seq<char>, j: int)
    requires
        0 <= j,
        first_named_from(m, cs, name, j) is Some,
    ensures
        exists|i: int| j <= i < cs.len() && cs[i] == first_named_from(m, cs, name, j)->0 && m.data(cs[i]).name@ == name,
    decreases cs.len() - j,
{
    if j < cs.len() && m.data(cs[j]).name@ != name {
        lemma_first_named_some(m, cs, name, j + 1);
    }
}

/// After a node named `name` is created under `p` (which only succeeds when
/// no child of `p` has that name), looking `name` up under `p` finds it.
pub proof fn law_created_node_is_found(m: FsModel, p: NodeId, id: NodeId, d: VfsNode, name: Seq<char>)
    requires
        m.wf(),
        create_error(m, p, name) is None,
        !m.live(id),
        d.name@ == name,
    ensures
        child_named(with_child(m, p, id, d), p, name) == Some(id),
{
    let m2 = with_child(m, p, id, d);
    let cs = m.children(p);
    assert forall|i: int| 0 <= i < cs.len() implies m2.data(m2.children(p)[i]).name@ != name by {
        let c = cs[i];
        assert(m.nodes[p].children[i] == c);
        assert(m.live(c));
        assert(c != id);
        if m.data(c).name@ == name {
            lemma_first_named_exists(m, cs, name, 0, i);
        }
        if c == p {
            assert(m.depth[p] == m.depth[p] + 1);
        }
    }
    assert(m2.children(p)[cs.len() as int] == id);
    lemma_first_named_at(m2, m2.children(p), name, 0, cs.len() as int);
}

} // verus!

verus! {

pub proof fn lemma_split_concat(a: Seq<char>, b: Seq<char>, sep: char, cur: Seq<char>)
    ensures
        split_acc(a + seq![sep] + b, sep, cur) == split_acc(a, sep, cur) + split_acc(b, sep, Seq::empty()),
    decreases a.len(),
{
    let s = a + seq![sep] + b;
    if a.len() == 0 {
        assert(s =~= seq![sep] + b);
        assert(s.drop_first() =~= b);
        assert(s[0] == sep);
    } else {
        assert(s[0] == a[0]);
        assert(s.drop_first() =~= a.drop_first() + seq![sep] + b);
        if a[0] == sep {
            lemma_split_concat(a.drop_first(), b, sep, Seq::empty());
            let c: Seq<Seq<char>> = if cur.len() == 0 { Seq::empty() } else { seq![cur] };
            assert(c + (split_acc(a.drop_first(), sep, Seq::empty()) + split_acc(b, sep, Seq::empty()))
                =~= (c + split_acc(a.drop_first(), sep, Seq::empty())) + split_acc(b, sep, Seq::empty()));
        } else {
            lemma_split_concat(a.drop_first(), b, sep, cur.push(a[0]));
        }
    }
}

pub proof fn lemma_split_word(s: Seq<char>, sep: char, cur: Seq<char>)
    requires
        !s.contains(sep),
    ensures
        split_acc(s, sep, cur) == split_acc(Seq::empty(), sep, cur + s),
    decreases s.len(),
{
    if s.len() == 0 {
        assert(cur + s =~= cur);
    } else {
        assert(s[0] != sep);
        assert(!s.drop_first().contains(sep)) by {
            if s.drop_first().contains(sep) {
                let k = choose|k: int| 0 <= k < s.drop_first().len() && s.drop_first()[k] == sep;
                assert(s[k + 1] == sep);
            }
        }
        lemma_split_word(s.drop_first(), sep, cur.push(s[0]));
        assert(cur.push(s[0]) + s.drop_first() =~= cur + s);
    }
}

/// A name without `/` and not empty, `.` or `..`: a path component that
/// names a child.
pub open spec fn clean_name(s: Seq<char>) -> bool {
    &&& s.len() > 0
    &&& !s.contains('/')
    &&& s != seq!['.']
    &&& s != seq!['.', '.']
}

/// Splitting a join of clean names at `/` gives the names back.
pub proof fn lemma_split_join(parts: Seq<Seq<char>>)
    requires
        forall|k: int| 0 <= k < parts.len() ==> clean_name(#[trigger] parts[k]),
    ensures
        split_nonempty(join_with(parts, seq!['/']), '/') == parts,
    decreases parts.len(),
{
    if parts.len() == 0 {
        assert(join_with(parts, seq!['/']) =~= Seq::<char>::empty());
        assert(split_nonempty(Seq::empty(), '/') =~= parts);
    } else if parts.len() == 1 {
        assert(clean_name(parts[0]));
        lemma_split_word(parts[0], '/', Seq::empty());
        assert(Seq::<char>::empty() + parts[0] =~= parts[0]);
        assert(seq![parts[0]] =~= parts);
    } else {
        let init = parts.drop_last();
        let last = parts.last();
        assert(clean_name(parts[parts.len() - 1]));
        assert forall|k: int| 0 <= k < init.len() implies clean_name(#[trigger] init[k]) by {
            assert(init[k] == parts[k]);
        }
        lemma_split_join(init);
        lemma_split_concat(join_with(init, seq!['/']), last, '/', Seq::empty());
        lemma_split_word(last, '/', Seq::empty());
        assert(Seq::<char>::empty() + last =~= last);
        assert(init + seq![last] =~= parts);
    }
}

/// Walking one more component is one more step from where the walk got.
pub proof fn lemma_walk_push(m: FsModel, cur: NodeId, comps: Seq<Seq<char>>, c: Seq<char>, k: int)
    requires
        0 <= k <= comps.len(),
    ensures
        walk_from(m, cur, comps.push(c), k) == match walk_from(m, cur, comps, k) {
            Ok(x) => spec_step(m, x, c),
            Err(e) => Err(e),
        },
    decreases comps.len() - k,
{
    if k == comps.len() {
        assert(comps.push(c)[k] == c);
        assert(walk_from(m, cur, comps, k) == Ok::<NodeId, crate::vfs::VfsError>(cur));
        match spec_step(m, cur, c) {
            Ok(n) => {
                assert(walk_from(m, n, comps.push(c), k + 1) == Ok::<NodeId, crate::vfs::VfsError>(n));
            },
            Err(e) => {},
        }
    } else {
        assert(comps.push(c)[k] == comps[k]);
        match spec_step(m, cur, comps[k]) {
            Ok(n) => {
                lemma_walk_push(m, n, comps, c, k + 1);
            },
            Err(e) => {},
        }
    }
}

/// Every node on the way from the root to `n` (the root excepted) has a
/// clean name and is the first child of its parent with that name.
pub open spec fn reachable_by_name(m: FsModel, n: NodeId) -> bool
    decreases m.depth[n],
{
    match m.parent(n) {
        None => true,
        Some(p) => {
            &&& m.depth[p] < m.depth[n]
            &&& clean_name(m.data(n).name@)
            &&& child_named(m, p, m.data(n).name@) == Some(n)
            &&& reachable_by_name(m, p)
        },
    }
}

proof fn lemma_walk_names(m: FsModel, n: NodeId)
    requires
        m.wf(),
        m.live(n),
        reachable_by_name(m, n),
    ensures
        walk_from(m, m.root, path_names(m, n), 0) == Ok::<NodeId, crate::vfs::VfsError>(n),
        forall|k: int| 0 <= k < path_names(m, n).len() ==> clean_name(#[trigger] path_names(m, n)[k]),
        n != m.root ==> path_names(m, n).len() > 0,
    decreases m.depth[n],
{
    assert(m.nodes[n] == m.nodes[n]);
    match m.parent(n) {
        None => {
            assert(path_names(m, n) =~= Seq::<Seq<char>>::empty());
        },
        Some(p) => {
            lemma_walk_names(m, p);
            let name = m.data(n).name@;
            assert(path_names(m, n) == path_names(m, p).push(name));
            lemma_walk_push(m, m.root, path_names(m, p), name, 0);
            assert(spec_step(m, p, name) == Ok::<NodeId, crate::vfs::VfsError>(n));
        },
    }
}

/// The path of a node leads back to it, from any node: `cd $(pwd)` stays.
/// This holds when every name on the way is a clean name and the first of
/// its name among its siblings.
pub proof fn law_node_path_resolves_back(m: FsModel, n: NodeId, base: NodeId)
    requires
        m.wf(),
        m.live(n),
        reachable_by_name(m, n),
    ensures
        spec_resolve_path(m, base, spec_node_path(m, n)) == Ok::<NodeId, crate::vfs::VfsError>(n),
{
    reveal_strlit("/");
    lemma_walk_names(m, n);
    let parts = path_names(m, n);
    let path = spec_node_path(m, n);
    assert("/"@ == seq!['/']);
    if parts.len() == 0 {
        assert(path == seq!['/']);
        assert(path.drop_first() =~= Seq::<char>::empty());
        assert(split_nonempty(Seq::empty(), '/') =~= Seq::<Seq<char>>::empty());
        assert(n == m.root);
    } else {
        lemma_split_join(parts);
        assert(path.drop_first() =~= join_with(parts, seq!['/']));
        assert(path[0] == '/');
    }
    assert(path != seq!['.']) by {
        if path == seq!['.'] {
            assert(path[0] == '.');
        }
    }
    assert(path != seq!['~']) by {
        if path == seq!['~'] {
            assert(path[0] == '~');
        }
    }
}

/// A path that starts with `/` leads to the same place from every base.
pub proof fn law_absolute_path_ignores_base(m: FsModel, b1: NodeId, b2: NodeId, path: Seq<char>)
    requires
        path.len() > 0,
        path[0] == '/',
    ensures
        spec_resolve_path(m, b1, path) == spec_resolve_path(m, b2, path),
{
    assert(path != seq!['.']) by {
        if path == seq!['.'] {
            assert(path[0] == '.');
        }
    }
}

/// Resolution only ever leads to live nodes.
pub proof fn law_resolve_gives_live_node(m: FsModel, base: NodeId, path: Seq<char>)
    requires
        m.wf(),
        m.live(base),
    ensures
        spec_resolve_path(m, base, path) matches Ok(n) ==> m.live(n),
{
    let e = if path.len() >= 2 && path[0] == '~' && path[1] == '/' { path.drop_first() } else { path };
    let p = if e.len() > 0 && e[0] == '/' { e.drop_first() } else { e };
    let start = if e.len() > 0 && e[0] == '/' { m.root } else { base };
    lemma_walk_live(m, start, split_nonempty(p, '/'), 0);
}

proof fn lemma_walk_live(m: FsModel, cur: NodeId, comps: Seq<Seq<char>>, k: int)
    requires
        m.wf(),
        m.live(cur),
    ensures
        walk_from(m, cur, comps, k) matches Ok(n) ==> m.live(n),
    decreases comps.len() - k,
{
    if 0 <= k < comps.len() {
        match spec_step(m, cur, comps[k]) {
            Ok(n) => {
                assert(m.live(n)) by {
                    assert(m.nodes[cur] == m.nodes[cur]);
                    if comps[k] != seq!['.'] && comps[k] != seq!['.', '.'] {
                        lemma_first_named_some(m, m.children(cur), comps[k], 0);
                        let i = choose|i: int| 0 <= i < m.children(cur).len() && m.children(cur)[i] == n && m.data(m.children(cur)[i]).name@ == comps[k];
                        assert(m.nodes[cur].children[i] == n);
                    }
                }
                lemma_walk_live(m, n, comps, k + 1);
            },
            Err(e) => {},
        }
    }
}

/// `..` from the root stays at the root.
pub proof fn law_parent_of_root_is_root(m: FsModel)
    requires
        m.wf(),
    ensures
        spec_resolve_path(m, m.root, seq!['.', '.']) == Ok::<NodeId, crate::vfs::VfsError>(m.root),
{
    let p = seq!['.', '.'];
    assert(!p.contains('/')) by {
        if p.contains('/') {
            let k = choose|k: int| 0 <= k < p.len() && p[k] == '/';
        }
    }
    assert(split_nonempty(p, '/') =~= seq![p]) by {
        lemma_split_word(p, '/', Seq::empty());
        assert(Seq::<char>::empty() + p =~= p);
    }
    assert(p != seq!['.']) by {
        assert(p.len() == 2);
    }
    assert(p != seq!['~']);
    assert(m.nodes[m.root].parent is None);
    assert(spec_step(m, m.root, p) == Ok::<NodeId, crate::vfs::VfsError>(m.root));
    assert(walk_from(m, m.root, seq![p], 1) == Ok::<NodeId, crate::vfs::VfsError>(m.root));
    assert(resolve_from(m, m.root, p) == walk_from(m, m.root, seq![p], 0));
}

} // verus!

verus! {

/// `p` with every `/` written as `w`.
pub open spec fn replace_slash(p: Seq<char>, w: Seq<char>) -> Seq<char>
    decreases p.len(),
{
    if p.len() == 0 {
        Seq::empty()
    } else {
        (if p[0] == '/' {
            w
        } else {
            seq![p[0]]
        }) + replace_slash(p.drop_first(), w)
    }
}

/// `comps` without its `.` components.
pub open spec fn drop_dots(comps: Seq<Seq<char>>) -> Seq<Seq<char>>
    decreases comps.len(),
{
    if comps.len() == 0 {
        Seq::empty()
    } else if comps.last() == seq!['.'] {
        drop_dots(comps.drop_last())
    } else {
        drop_dots(comps.drop_last()).push(comps.last())
    }
}

proof fn lemma_drop_dot_single()
    ensures
        drop_dots(seq![seq!['.']]) == Seq::<Seq<char>>::empty(),
{
    let d = seq![seq!['.']];
    assert(d.last() == seq!['.']);
    assert(d.drop_last() =~= Seq::<Seq<char>>::empty());
    assert(drop_dots(Seq::<Seq<char>>::empty()) == Seq::<Seq<char>>::empty());
    assert(drop_dots(d) == drop_dots(d.drop_last()));
}

proof fn lemma_drop_dots_concat(a: Seq<Seq<char>>, b: Seq<Seq<char>>)
    ensures
        drop_dots(a + b) == drop_dots(a) + drop_dots(b),
    decreases b.len(),
{
    if b.len() == 0 {
        assert(a + b =~= a);
        assert(drop_dots(a) + drop_dots(b) =~= drop_dots(a));
    } else {
        lemma_drop_dots_concat(a, b.drop_last());
        assert((a + b).drop_last() =~= a + b.drop_last());
        assert((a + b).last() == b.last());
        if b.last() != seq!['.'] {
            assert(drop_dots(a) + drop_dots(b.drop_last()).push(b.last()) =~= (drop_dots(a) + drop_dots(
                b.drop_last(),
            )).push(b.last()));
        }
    }
}

/// `.` components change nothing in a walk.
proof fn lemma_walk_drop_dots(m: FsModel, cur: NodeId, comps: Seq<Seq<char>>)
    ensures
        walk_from(m, cur, comps, 0) == walk_from(m, cur, drop_dots(comps), 0),
    decreases comps.len(),
{
    if comps.len() > 0 {
        let pre = comps.drop_last();
        let c = comps.last();
        lemma_walk_drop_dots(m, cur, pre);
        assert(pre.push(c) =~= comps);
        lemma_walk_push(m, cur, pre, c, 0);
        if c != seq!['.'] {
            lemma_walk_push(m, cur, drop_dots(pre), c, 0);
        }
    }
}

/// Two paths whose components agree but for `.` lead to the same place.
proof fn lemma_resolve_same_comps(m: FsModel, cur: NodeId, a: Seq<char>, b: Seq<char>)
    requires
        drop_dots(split_nonempty(a, '/')) == drop_dots(split_nonempty(b, '/')),
    ensures
        resolve_from(m, cur, a) == resolve_from(m, cur, b),
{
    lemma_walk_drop_dots(m, cur, split_nonempty(a, '/'));
    lemma_walk_drop_dots(m, cur, split_nonempty(b, '/'));
}

pub open spec fn head_piece(cur: Seq<char>) -> Seq<Seq<char>> {
    if cur.len() == 0 {
        Seq::empty()
    } else {
        seq![cur]
    }
}

proof fn lemma_split_slash(y: Seq<char>, cur: Seq<char>)
    ensures
        split_acc(seq!['/'] + y, '/', cur) == head_piece(cur) + split_acc(y, '/', Seq::empty()),
{
    let s = seq!['/'] + y;
    assert(s[0] == '/');
    assert(s.drop_first() =~= y);
}

proof fn lemma_split_char(c: char, y: Seq<char>, cur: Seq<char>)
    requires
        c != '/',
    ensures
        split_acc(seq![c] + y, '/', cur) == split_acc(y, '/', cur.push(c)),
{
    let s = seq![c] + y;
    assert(s[0] == c);
    assert(s.drop_first() =~= y);
}

/// `/./` in place of each `/` only adds `.` components.
proof fn lemma_split_dot_slash(s: Seq<char>, cur: Seq<char>)
    ensures
        drop_dots(split_acc(replace_slash(s, seq!['/', '.', '/']), '/', cur)) == drop_dots(split_acc(s, '/', cur)),
    decreases s.len(),
{
    let w = seq!['/', '.', '/'];
    if s.len() > 0 {
        let rest = s.drop_first();
        let ry = replace_slash(rest, w);
        lemma_split_dot_slash(rest, Seq::empty());
        if s[0] == '/' {
            assert(w + ry =~= seq!['/'] + (seq!['.'] + (seq!['/'] + ry)));
            lemma_split_slash(seq!['.'] + (seq!['/'] + ry), cur);
            lemma_split_char('.', seq!['/'] + ry, Seq::empty());
            assert(Seq::<char>::empty().push('.') =~= seq!['.']);
            lemma_split_slash(ry, seq!['.']);
            assert(head_piece(seq!['.']) =~= seq![seq!['.']]);
            let a = head_piece(cur);
            let tail = split_acc(ry, '/', Seq::empty());
            lemma_drop_dots_concat(a + seq![seq!['.']], tail);
            lemma_drop_dots_concat(a, seq![seq!['.']]);
            lemma_drop_dot_single();
            assert(a + seq![seq!['.']] + tail =~= a + (seq![seq!['.']] + tail));
            lemma_split_slash(rest, cur);
            assert(s =~= seq!['/'] + rest);
            lemma_drop_dots_concat(a, split_acc(rest, '/', Seq::empty()));
            assert(drop_dots(a) + Seq::<Seq<char>>::empty() =~= drop_dots(a));
        } else {
            lemma_split_dot_slash(rest, cur.push(s[0]));
            lemma_split_char(s[0], ry, cur);
            lemma_split_char(s[0], rest, cur);
            assert(s =~= seq![s[0]] + rest);
        }
    }
}

/// `//` in place of each `/` changes no component.
proof fn lemma_split_double_slash(s: Seq<char>, cur: Seq<char>)
    ensures
        split_acc(replace_slash(s, seq!['/', '/']), '/', cur) == split_acc(s, '/', cur),
    decreases s.len(),
{
    let w = seq!['/', '/'];
    if s.len() > 0 {
        let rest = s.drop_first();
        let ry = replace_slash(rest, w);
        if s[0] == '/' {
            lemma_split_double_slash(rest, Seq::empty());
            assert(w + ry =~= seq!['/'] + (seq!['/'] + ry));
            lemma_split_slash(seq!['/'] + ry, cur);
            lemma_split_slash(ry, Seq::empty());
            assert(head_piece(Seq::<char>::empty()) =~= Seq::<Seq<char>>::empty());
            assert(Seq::<Seq<char>>::empty() + split_acc(ry, '/', Seq::empty()) =~= split_acc(ry, '/', Seq::empty()));
            lemma_split_slash(rest, cur);
            assert(s =~= seq!['/'] + rest);
        } else {
            lemma_split_double_slash(rest, cur.push(s[0]));
            lemma_split_char(s[0], ry, cur);
            lemma_split_char(s[0], rest, cur);
            assert(s =~= seq![s[0]] + rest);
        }
    }
}

proof fn lemma_replace_len(p: Seq<char>, w: Seq<char>)
    requires
        w.len() > 0,
    ensures
        replace_slash(p, w).len() >= p.len(),
        p.len() == 0 <==> replace_slash(p, w).len() == 0,
    decreases p.len(),
{
    if p.len() > 0 {
        lemma_replace_len(p.drop_first(), w);
    }
}

/// Resolving `p` with `w` in place of each `/`, where `w` is `/./` or `//`,
/// leads where `p` leads.
proof fn lemma_resolve_replaced(m: FsModel, base: NodeId, p: Seq<char>, w: Seq<char>)
    requires
        w == seq!['/', '.', '/'] || w == seq!['/', '/'],
    ensures
        spec_resolve_path(m, base, replace_slash(p, w)) == spec_resolve_path(m, base, p),
{
    let r = replace_slash(p, w);
    lemma_replace_len(p, w);
    if p.len() == 0 {
        return;
    }
    let rest = p.drop_first();
    lemma_replace_len(rest, w);
    let rr = replace_slash(rest, w);
    assert(r == (if p[0] == '/' { w } else { seq![p[0]] }) + rr);
    if p[0] == '/' {
        // an absolute path: the walk starts at the top on both sides
        assert(r[0] == '/');
        assert(r != seq!['.'] && r != seq!['~']) by {
            if r == seq!['.'] || r == seq!['~'] {
                assert(r[0] != '/');
            }
        }
        assert(p != seq!['.'] && p != seq!['~']) by {
            if p == seq!['.'] || p == seq!['~'] {
                assert(p[0] != '/');
            }
        }
        lemma_resolve_top(m, rest, w);
    } else {
        assert(r[0] == p[0]);
        assert(r.drop_first() =~= rr);
        if rest.len() == 0 {
            assert(rr.len() == 0);
            assert(r =~= seq![p[0]]);
            assert(p =~= seq![p[0]]);
        } else {
            assert(r.len() >= 2);
            assert(r != seq!['.'] && r != seq!['~'] && p != seq!['.'] && p != seq!['~']);
            if p[0] == '~' && rest[0] == '/' {
                let rest2 = rest.drop_first();
                lemma_replace_len(rest2, w);
                assert(rr == w + replace_slash(rest2, w));
                assert(r[1] == '/');
                assert(r.drop_first() =~= rr);
                assert(rr[0] == '/');
                lemma_resolve_top(m, rest2, w);
                assert(rest.drop_first() =~= rest2);
                assert(rr.drop_first() =~= replace_slash(seq!['/'] + rest2, w).drop_first()) by {
                    assert(seq!['/'] + rest2 =~= rest);
                }
            } else {
                assert(!(r.len() >= 2 && r[0] == '~' && r[1] == '/')) by {
                    if p[0] == '~' {
                        assert(rest[0] != '/');
                        assert(rr[0] == rest[0]);
                    }
                }
                lemma_split_replaced(p, w);
                lemma_resolve_same_comps(m, base, r, p);
            }
        }
    }
}

proof fn lemma_split_replaced(p: Seq<char>, w: Seq<char>)
    requires
        w == seq!['/', '.', '/'] || w == seq!['/', '/'],
    ensures
        drop_dots(split_nonempty(replace_slash(p, w), '/')) == drop_dots(split_nonempty(p, '/')),
{
    if w == seq!['/', '.', '/'] {
        lemma_split_dot_slash(p, Seq::empty());
    } else {
        lemma_split_double_slash(p, Seq::empty());
    }
}

/// After a leading `/`: the rest of `/`+`x` written with `w` walks from the
/// top as `x` does.
proof fn lemma_resolve_top(m: FsModel, x: Seq<char>, w: Seq<char>)
    requires
        w == seq!['/', '.', '/'] || w == seq!['/', '/'],
    ensures
        resolve_from(m, m.root, (w + replace_slash(x, w)).drop_first()) == resolve_from(m, m.root, x),
{
    let rx = replace_slash(x, w);
    lemma_split_replaced(x, w);
    let t = (w + rx).drop_first();
    if w == seq!['/', '.', '/'] {
        assert(t =~= seq!['.'] + (seq!['/'] + rx));
        lemma_split_char('.', seq!['/'] + rx, Seq::empty());
        assert(Seq::<char>::empty().push('.') =~= seq!['.']);
        lemma_split_slash(rx, seq!['.']);
        assert(head_piece(seq!['.']) =~= seq![seq!['.']]);
        lemma_drop_dots_concat(seq![seq!['.']], split_nonempty(rx, '/'));
        lemma_drop_dot_single();
        assert(split_nonempty(t, '/') == seq![seq!['.']] + split_nonempty(rx, '/'));
        assert(Seq::<Seq<char>>::empty() + drop_dots(split_nonempty(rx, '/')) =~= drop_dots(split_nonempty(rx, '/')));
    } else {
        assert(t =~= seq!['/'] + rx);
        lemma_split_slash(rx, Seq::empty());
        assert(head_piece(Seq::<char>::empty()) + split_nonempty(rx, '/') =~= split_nonempty(rx, '/'));
        assert(split_nonempty(t, '/') == split_nonempty(rx, '/'));
    }
    lemma_resolve_same_comps(m, m.root, t, x);
}

/// Redundant separators never change where a path leads: writing each `/`
/// as `/./` or as `//` resolves to the same result.
pub proof fn law_redundant_separators(m: FsModel, base: NodeId, p: Seq<char>)
    ensures
        spec_resolve_path(m, base, replace_slash(p, seq!['/', '.', '/'])) == spec_resolve_path(m, base, p),
        spec_resolve_path(m, base, replace_slash(p, seq!['/', '/'])) == spec_resolve_path(m, base, p),
{
    lemma_resolve_replaced(m, base, p, seq!['/', '.', '/']);
    lemma_resolve_replaced(m, base, p, seq!['/', '/']);
}

} // verus!

verus! {

/// Every node but the root has a clean name.
pub open spec fn clean_names(m: FsModel) -> bool {
    forall|x: NodeId| m.live(x) && x != m.root ==> clean_name(#[trigger] m.data(x).name@)
}

/// No two children of a directory share a name.
pub open spec fn distinct_sibling_names(m: FsModel) -> bool {
    forall|p: NodeId, i: int, j: int|
        m.live(p) && 0 <= i < j < m.children(p).len() ==> #[trigger] m.data(m.children(p)[i]).name@
            != #[trigger] m.data(m.children(p)[j]).name@
}

/// With clean names and distinct names among siblings, every live node is
/// reached by its names.
pub proof fn lemma_distinct_reachable(m: FsModel, n: NodeId)
    requires
        m.wf(),
        m.live(n),
        clean_names(m),
        distinct_sibling_names(m),
    ensures
        reachable_by_name(m, n),
    decreases m.depth[n],
{
    assert(m.nodes[n] == m.nodes[n]);
    if n != m.root {
        let p = m.parent(n)->0;
        assert(m.live(p));
        assert(m.nodes[p] == m.nodes[p]);
        let cs = m.children(p);
        assert(cs.contains(n));
        let k = choose|k: int| 0 <= k < cs.len() && cs[k] == n;
        assert forall|i: int| 0 <= i < k implies m.data(#[trigger] cs[i]).name@ != m.data(n).name@ by {
            assert(m.data(cs[i]).name@ != m.data(cs[k]).name@);
        }
        lemma_first_named_at(m, cs, m.data(n).name@, 0, k);
        assert(clean_name(m.data(n).name@));
        lemma_distinct_reachable(m, p);
    }
}

/// The path of a node leads back to it, from any node, when names are
/// clean and siblings never share a name.
pub proof fn law_node_path_resolves_back_distinct(m: FsModel, n: NodeId, base: NodeId)
    requires
        m.wf(),
        m.live(n),
        clean_names(m),
        distinct_sibling_names(m),
    ensures
        spec_resolve_path(m, base, spec_node_path(m, n)) == Ok::<NodeId, crate::vfs::VfsError>(n),
{
    lemma_distinct_reachable(m, n);
    law_node_path_resolves_back(m, n, base);
}

} // verus!
