use indextree::NodeId;
use vstd::prelude::*;

use crate::fs_tools::{
    cat_one, cd_result, dir_of, grows, is_new_file, mkdir_moves, mkdir_one, name_part, parent_part, rm_error, rm_moves,
    rm_one, touch_moves, touch_one, CatOne, MkdirOne, RmOne, TouchOne,
};
use crate::text::{last_index_of, split_acc, split_nonempty};
use crate::vfs::{
    child_named, create_error, first_named_from, is_user_node, spec_node_path, resolve_from, spec_read_file, spec_resolve_path, spec_step,
    walk_from, with_child, FileContent, FsModel, VfsNode, VfsNodeType,
};
use crate::vfs_laws::{
    clean_name, law_created_node_is_found, law_resolve_gives_live_node, lemma_first_named_some, lemma_split_concat, lemma_split_word,
    lemma_walk_push,
};

verus! {

/// A lookup that succeeds among `cs[j..]` succeeds the same way among a
/// longer list starting with `cs` whose first members keep their names.
proof fn lemma_first_named_same(a: FsModel, b: FsModel, cs: Seq<NodeId>, bs: Seq<NodeId>, name: Seq<char>, j: int)
    requires
        0 <= j,
        cs.len() <= bs.len(),
        forall|i: int| 0 <= i < cs.len() ==> bs[i] == cs[i] && b.data(#[trigger] cs[i]).name == a.data(cs[i]).name,
        first_named_from(a, cs, name, j) is Some,
    ensures
        first_named_from(b, bs, name, j) == first_named_from(a, cs, name, j),
    decreases cs.len() - j,
{
    if j < cs.len() && a.data(cs[j]).name@ != name {
        lemma_first_named_same(a, b, cs, bs, name, j + 1);
    }
}

/// A step that succeeds in `a` from a live node is taken the same way once
/// a node is added under `p`, and ends at a live node.
proof fn lemma_step_frame(a: FsModel, p: NodeId, id: NodeId, d: VfsNode, x: NodeId, c: Seq<char>)
    requires
        a.wf(),
        !a.live(id),
        a.live(p),
        a.live(x),
        spec_step(a, x, c) is Ok,
    ensures
        spec_step(with_child(a, p, id, d), x, c) == spec_step(a, x, c),
        a.live(spec_step(a, x, c)->Ok_0),
{
    let b = with_child(a, p, id, d);
    assert(x != id);
    assert(b.live(x));
    assert(b.nodes[x].parent == a.nodes[x].parent);
    if c == seq!['.'] {
    } else if c == seq!['.', '.'] {
        assert(a.nodes[x] == a.nodes[x]);
    } else {
        let cs = a.children(x);
        let bs = b.children(x);
        assert(child_named(a, x, c) is Some);
        assert forall|i: int| 0 <= i < cs.len() implies bs[i] == cs[i] && b.data(#[trigger] cs[i]).name == a.data(
            cs[i],
        ).name by {
            assert(a.nodes[x].children[i] == cs[i]);
            assert(a.live(cs[i]));
            assert(cs[i] != id);
            if x == p {
                assert(bs == cs.push(id));
            }
        }
        lemma_first_named_same(a, b, cs, bs, c, 0);
        lemma_first_named_some(a, cs, c, 0);
        let k = choose|k: int| 0 <= k < cs.len() && cs[k] == first_named_from(a, cs, c, 0)->0 && a.data(cs[k]).name@ == c;
        assert(a.nodes[x].children[k] == cs[k]);
    }
}

/// A walk that succeeds in `a` from a live node is walked the same way once
/// a node is added under `p`, and ends at a live node.
proof fn lemma_walk_frame(a: FsModel, p: NodeId, id: NodeId, d: VfsNode, x: NodeId, comps: Seq<Seq<char>>, k: int)
    requires
        a.wf(),
        !a.live(id),
        a.live(p),
        a.live(x),
        0 <= k,
        walk_from(a, x, comps, k) is Ok,
    ensures
        walk_from(with_child(a, p, id, d), x, comps, k) == walk_from(a, x, comps, k),
        a.live(walk_from(a, x, comps, k)->Ok_0),
    decreases comps.len() - k,
{
    if k < comps.len() {
        lemma_step_frame(a, p, id, d, x, comps[k]);
        let n = spec_step(a, x, comps[k])->Ok_0;
        lemma_walk_frame(a, p, id, d, n, comps, k + 1);
    }
}

/// Splitting `q/name` gives the pieces of `q`, then `name`.
proof fn lemma_split_child(q: Seq<char>, name: Seq<char>)
    requires
        clean_name(name),
    ensures
        split_nonempty(q + seq!['/'] + name, '/') == split_nonempty(q, '/').push(name),
{
    lemma_split_concat(q, name, '/', Seq::empty());
    lemma_split_word(name, '/', Seq::empty());
    assert(Seq::<char>::empty() + name =~= name);
    assert(split_acc(Seq::empty(), '/', name) == seq![name]);
    assert(split_nonempty(q, '/') + seq![name] =~= split_nonempty(q, '/').push(name));
}

/// Where `q` leads in `a`, `q/name` leads in `b` to the child `name`
/// added there.
proof fn lemma_resolve_child(a: FsModel, p: NodeId, id: NodeId, d: VfsNode, x: NodeId, q: Seq<char>, name: Seq<char>)
    requires
        a.wf(),
        !a.live(id),
        a.live(p),
        a.live(x),
        clean_name(name),
        resolve_from(a, x, q) == Ok::<NodeId, crate::vfs::VfsError>(p),
        child_named(with_child(a, p, id, d), p, name) == Some(id),
    ensures
        resolve_from(with_child(a, p, id, d), x, q + seq!['/'] + name) == Ok::<NodeId, crate::vfs::VfsError>(id),
{
    let b = with_child(a, p, id, d);
    let comps = split_nonempty(q, '/');
    lemma_split_child(q, name);
    lemma_walk_frame(a, p, id, d, x, comps, 0);
    lemma_walk_push(b, x, comps, name, 0);
    assert(b.live(p));
    assert(name != seq!['.'] && name != seq!['.', '.']);
}

/// The name of the child added under `p` leads there from `p`.
proof fn lemma_resolve_name(a: FsModel, p: NodeId, id: NodeId, d: VfsNode, name: Seq<char>)
    requires
        a.live(p),
        clean_name(name),
        child_named(with_child(a, p, id, d), p, name) == Some(id),
    ensures
        resolve_from(with_child(a, p, id, d), p, name) == Ok::<NodeId, crate::vfs::VfsError>(id),
{
    let b = with_child(a, p, id, d);
    lemma_split_word(name, '/', Seq::empty());
    assert(Seq::<char>::empty() + name =~= name);
    assert(split_nonempty(name, '/') == seq![name]);
    assert(b.live(p));
    assert(spec_step(b, p, name) == Ok::<NodeId, crate::vfs::VfsError>(id));
    assert(walk_from(b, id, seq![name], 1) == Ok::<NodeId, crate::vfs::VfsError>(id));
}

proof fn lemma_last_slash(t: Seq<char>)
    ensures
        last_index_of(t, '/') matches Some(i) ==> 0 <= i < t.len() && t[i] == '/' && forall|j: int|
            i < j < t.len() ==> t[j] != '/',
        last_index_of(t, '/') is None ==> forall|j: int| 0 <= j < t.len() ==> t[j] != '/',
    decreases t.len(),
{
    if t.len() > 0 && t.last() != '/' {
        lemma_last_slash(t.drop_last());
        assert forall|j: int| 0 <= j < t.len() - 1 implies t[j] == t.drop_last()[j] by {}
    }
}

/// The operand that named a child about to be made leads to it once it is
/// made, for an operand that ends in a clean name, run in a live directory;
/// but `~` (which names the root) and `/name` outside the root (the child
/// is made in the current directory).
proof fn lemma_made_child_resolves(a: FsModel, p: NodeId, id: NodeId, d: VfsNode, cur: NodeId, t: Seq<char>)
    requires
        a.wf(),
        a.live(cur),
        !a.live(id),
        clean_name(name_part(t)),
        t != seq!['~'],
        parent_part(t).len() == 0 && t.contains('/') ==> cur == a.root,
        dir_of(a, cur, parent_part(t)) == Ok::<NodeId, crate::vfs::VfsError>(p),
        create_error(a, p, name_part(t)) is None,
        d.name@ == name_part(t),
    ensures
        spec_resolve_path(with_child(a, p, id, d), cur, t) == Ok::<NodeId, crate::vfs::VfsError>(id),
{
    let name = name_part(t);
    let b = with_child(a, p, id, d);
    law_created_node_is_found(a, p, id, d, name);
    assert(a.live(p));
    // the operand leads to it
    lemma_last_slash(t);
    assert(t.len() > 0) by {
        if t.len() == 0 {
            assert(name_part(t) =~= t);
        }
    }
    match last_index_of(t, '/') {
        None => {
            assert(name == t);
            assert(p == cur);
            assert(!(t.len() >= 2 && t[0] == '~' && t[1] == '/'));
            assert(t[0] != '/');
            lemma_resolve_name(a, p, id, d, name);
            assert(spec_resolve_path(b, cur, t) == Ok::<NodeId, crate::vfs::VfsError>(id));
        },
        Some(i) => {
            let q = t.take(i);
            assert(t =~= q + seq!['/'] + name);
            assert(parent_part(t) == q);
            assert(t != seq!['.']);
            if i == 0 {
                assert(t.contains('/')) by {
                    assert(t[0] == '/');
                }
                assert(p == cur && cur == a.root);
                assert(q =~= Seq::<char>::empty());
                assert(resolve_from(a, a.root, q) == Ok::<NodeId, crate::vfs::VfsError>(a.root)) by {
                    assert(split_nonempty(q, '/') =~= Seq::<Seq<char>>::empty());
                }
                lemma_resolve_name(a, p, id, d, name);
                assert(t.drop_first() =~= name);
                assert(t[0] == '/');
            } else if q == seq!['.'] {
                assert(p == cur);
                assert(resolve_from(a, cur, q) == Ok::<NodeId, crate::vfs::VfsError>(cur)) by {
                    lemma_split_word(q, '/', Seq::empty());
                    assert(Seq::<char>::empty() + q =~= q);
                    assert(split_nonempty(q, '/') == seq![q]);
                    assert(walk_from(a, cur, seq![q], 1) == Ok::<NodeId, crate::vfs::VfsError>(cur));
                }
                lemma_resolve_child(a, p, id, d, cur, q, name);
                assert(t[0] == '.');
                assert(t.len() > 2);
            } else if q == seq!['~'] {
                assert(p == a.root);
                lemma_resolve_name(a, p, id, d, name);
                assert(t[0] == '~' && t[1] == '/');
                assert(t.drop_first()[0] == '/');
                assert(t.drop_first().drop_first() =~= name);
            } else if q.len() >= 2 && q[0] == '~' && q[1] == '/' {
                let x = q.drop_first().drop_first();
                assert(q.drop_first()[0] == '/');
                assert(resolve_from(a, a.root, x) == Ok::<NodeId, crate::vfs::VfsError>(p));
                lemma_resolve_child(a, p, id, d, a.root, x, name);
                assert(t[0] == '~' && t[1] == '/');
                assert(t.drop_first()[0] == '/');
                assert(t.drop_first().drop_first() =~= x + seq!['/'] + name);
            } else if q[0] == '/' {
                let x = q.drop_first();
                assert(q != seq!['~']);
                assert(resolve_from(a, a.root, x) == Ok::<NodeId, crate::vfs::VfsError>(p));
                lemma_resolve_child(a, p, id, d, a.root, x, name);
                assert(t[0] == '/');
                assert(t.drop_first() =~= x + seq!['/'] + name);
            } else {
                assert(resolve_from(a, cur, q) == Ok::<NodeId, crate::vfs::VfsError>(p));
                lemma_resolve_child(a, p, id, d, cur, q, name);
                assert(t[0] == q[0]);
                assert(!(t.len() >= 2 && t[0] == '~' && t[1] == '/')) by {
                    if t[0] == '~' && t[1] == '/' {
                        if q.len() >= 2 {
                            assert(q[1] == t[1]);
                        } else {
                            assert(q =~= seq!['~']);
                        }
                    }
                }
                assert(t != seq!['~']);
            }
            assert(spec_resolve_path(b, cur, t) == Ok::<NodeId, crate::vfs::VfsError>(id));
        },
    }
}

/// A file that `touch` makes reads back empty with `cat` under the same
/// operand, for every operand that ends in a clean name (not `.` or `..`),
/// run in a live directory. Left out: the operand `~` (made as a file
/// named `~`, while `cat ~` reads the root), and `/name` outside the root
/// (made in the current directory, while `cat /name` looks in the root).
pub proof fn law_touch_then_cat_reads_empty(a: FsModel, b: FsModel, cur: NodeId, t: Seq<char>)
    requires
        a.wf(),
        a.live(cur),
        touch_one(a, cur, t) is Create,
        touch_moves(cur, a, b, t),
        clean_name(name_part(t)),
        t != seq!['~'],
        parent_part(t).len() == 0 && t.contains('/') ==> cur == a.root,
    ensures
        cat_one(b, cur, t) == CatOne::Text(Seq::empty()),
{
    let (p, name) = match touch_one(a, cur, t) {
        TouchOne::Create(p, name) => (p, name),
        _ => (cur, Seq::empty()),
    };
    assert(name == name_part(t));
    assert(create_error(a, p, name) is None);
    assert(dir_of(a, cur, parent_part(t)) == Ok::<NodeId, crate::vfs::VfsError>(p));
    let id = choose|id: NodeId| #[trigger] grows(a, b, p, id) && is_new_file(b.data(id), name);
    let d = b.data(id);
    assert(b == with_child(a, p, id, d));
    assert(a.live(p));
    let s = match d.node_type {
        VfsNodeType::File { content: FileContent::Dynamic(s) } => s@,
        _ => Seq::empty(),
    };
    assert(s =~= Seq::<char>::empty());
    assert(b.live(id));
    assert(spec_read_file(b, id) == Ok::<Seq<char>, crate::vfs::VfsError>(Seq::empty()));
    lemma_made_child_resolves(a, p, id, d, cur, t);
    assert(t.len() > 0) by {
        if t.len() == 0 {
            assert(name_part(t) =~= t);
        }
    }
}

/// `cd` into a directory that `mkdir` just made navigates to it, for every
/// operand that ends in a clean name, run in a live directory; left out as
/// for `touch`: `~` and `/name` outside the root.
pub proof fn law_mkdir_then_cd(a: FsModel, b: FsModel, cur: NodeId, t: Seq<char>, r: crate::command::CommandRes)
    requires
        a.wf(),
        a.live(cur),
        mkdir_one(a, cur, t) is Create,
        mkdir_moves(cur, a, b, t),
        clean_name(name_part(t)),
        t != seq!['~'],
        parent_part(t).len() == 0 && t.contains('/') ==> cur == a.root,
        cd_result(r, b, cur, seq![t]),
    ensures
        exists|id: NodeId|
            #![trigger b.live(id)]
            {
                &&& !a.live(id)
                &&& b.live(id)
                &&& crate::vfs::is_dir(b.data(id))
                &&& r.redirect_target() == Some(spec_node_path(b, id))
            },
{
    let (p, name) = match mkdir_one(a, cur, t) {
        MkdirOne::Create(p, name) => (p, name),
        _ => (cur, Seq::empty()),
    };
    assert(name == name_part(t));
    assert(create_error(a, p, name) is None);
    let id = choose|id: NodeId|
        #[trigger] grows(a, b, p, id) && is_user_node(b.data(id), name, VfsNodeType::Directory, 4096);
    let d = b.data(id);
    assert(b == with_child(a, p, id, d));
    lemma_made_child_resolves(a, p, id, d, cur, t);
    assert(t.len() > 0) by {
        if t.len() == 0 {
            assert(name_part(t) =~= t);
        }
    }
    assert(id != cur);
    assert(b.live(id));
}

/// A file that `rm` removes, run in a live directory, is gone: no path
/// leads to it any more, so `cat` finds nothing there.
pub proof fn law_rm_removes(a: FsModel, b: FsModel, cur: NodeId, t: Seq<char>, q: Seq<char>)
    requires
        a.wf(),
        a.live(cur),
        crate::vfs::is_dir(a.data(cur)),
        rm_one(a, cur, false, t) is Delete,
        rm_error(a, cur, false, t) is None,
        rm_moves(cur, false, a, b, t),
    ensures
        !b.live(rm_one(a, cur, false, t)->Delete_0),
        spec_resolve_path(b, cur, q) != Ok::<NodeId, crate::vfs::VfsError>(rm_one(a, cur, false, t)->Delete_0),
{
    let n = rm_one(a, cur, false, t)->Delete_0;
    assert(!crate::vfs::is_dir(a.data(n)) || !a.live(n));
    assert(cur != n);
    assert(b.live(cur));
    law_resolve_gives_live_node(b, cur, q);
}

} // verus!
