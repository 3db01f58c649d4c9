use indextree::NodeId;
use vstd::prelude::*;

use crate::command::CommandRes;
use crate::fs::{options_of, strs_view, targets_of};
use crate::fs_tools::{
    dir_of, first_invalid_option, first_not_in, grows, has_option, invalid_option_msg,
    name_part, parent_part, parse_multitarget, reports, split_at_last_slash,
    RmCommand,
};
use crate::text::{cat3, join_strings, names_of, with_char};
use crate::tree::node_id_eq;
use crate::vfs::{
    content_size, create_error, descends, is_dir, is_user_node, list_error, spec_listing,
    spec_resolve_path, with_child, FileContent, FsModel, VfsError, VfsNode, VfsNodeType,
    VirtualFilesystem,
};

verus! {

/// `b` keeps every node of `a` as it was (data, parent, depth and, but for
/// `p`, children).
pub open spec fn unchanged_except(a: FsModel, b: FsModel, p: NodeId) -> bool {
    &&& b.root == a.root
    &&& forall|x: NodeId|
        #[trigger] a.live(x) ==> {
            &&& b.live(x)
            &&& b.data(x) == a.data(x)
            &&& b.parent(x) == a.parent(x)
            &&& b.depth[x] == a.depth[x]
            &&& (x != p ==> b.children(x) == a.children(x))
        }
}

proof fn lemma_unchanged_refl(a: FsModel, p: NodeId)
    ensures
        unchanged_except(a, a, p),
{
}

proof fn lemma_unchanged_trans(a: FsModel, b: FsModel, c: FsModel, p: NodeId, q: NodeId)
    requires
        unchanged_except(a, b, p),
        unchanged_except(b, c, q),
        !a.live(q) || q == p,
    ensures
        unchanged_except(a, c, p),
{
    assert forall|x: NodeId| #[trigger] a.live(x) implies {
        &&& c.live(x)
        &&& c.data(x) == a.data(x)
        &&& c.parent(x) == a.parent(x)
        &&& c.depth[x] == a.depth[x]
        &&& (x != p ==> c.children(x) == a.children(x))
    } by {
        assert(b.live(x));
    }
}

proof fn lemma_with_child_unchanged(m: FsModel, p: NodeId, id: NodeId, d: VfsNode)
    requires
        m.wf(),
        m.live(p),
        !m.live(id),
    ensures
        unchanged_except(m, with_child(m, p, id, d), p),
{
    let b = with_child(m, p, id, d);
    assert forall|x: NodeId| #[trigger] m.live(x) implies {
        &&& b.live(x)
        &&& b.data(x) == m.data(x)
        &&& b.parent(x) == m.parent(x)
        &&& b.depth[x] == m.depth[x]
        &&& (x != p ==> b.children(x) == m.children(x))
    } by {
        assert(x != id);
    }
}

/// A copy of a source entry, read before anything is made: a file with its
/// name and content, a directory with its name and the copies of its
/// entries in listing order, or a directory that could not be listed.
pub enum SnapNode {
    File { name: String, content: FileContent },
    Dir { name: String, children: Vec<SnapNode> },
    Unreadable { name: String },
}

impl SnapNode {
    pub open spec fn name_of(&self) -> Seq<char> {
        match self {
            SnapNode::File { name, .. } => name@,
            SnapNode::Dir { name, .. } => name@,
            SnapNode::Unreadable { name } => name@,
        }
    }
}

/// `t` is a faithful snapshot, under the name `name`, of node `s` of `m`.
pub open spec fn snap_of(m: FsModel, s: NodeId, name: Seq<char>, t: SnapNode) -> bool
    decreases t,
{
    &&& m.live(s)
    &&& t.name_of() == name
    &&& match t {
        SnapNode::File { content, .. } => m.data(s).node_type == (VfsNodeType::File { content }),
        SnapNode::Unreadable { .. } => is_dir(m.data(s)) && list_error(m, s) is Some,
        SnapNode::Dir { children, .. } => {
            let es = spec_listing(m, s);
            &&& is_dir(m.data(s))
            &&& list_error(m, s) is None
            &&& children@.len() == es.len()
            &&& forall|i: int|
                0 <= i < es.len() ==> snap_of(m, es[i].node_id, es[i].name@, #[trigger] children@[i])
        },
    }
}

/// The subtree at `d` in `m` was built from the snapshot `t`: a directory
/// made by the user whose children, in order, are built from `t`'s
/// entries (files holding the same content).
pub open spec fn built(m: FsModel, d: NodeId, t: SnapNode) -> bool
    decreases t, 0nat,
{
    &&& m.live(d)
    &&& is_user_node(m.data(d), t.name_of(), VfsNodeType::Directory, 4096)
    &&& match t {
        SnapNode::Dir { children, .. } => {
            &&& m.children(d).len() == children@.len()
            &&& forall|i: int|
                0 <= i < children@.len() ==> built_entry(m, m.children(d)[i], #[trigger] children@[i])
        },
        _ => false,
    }
}

/// No two entries of `cs` share a name.
pub open spec fn names_distinct(cs: Seq<SnapNode>) -> bool {
    forall|i: int, j: int| 0 <= i < j < cs.len() ==> #[trigger] cs[i].name_of() != #[trigger] cs[j].name_of()
}

/// A snapshot that copies without a hitch: every directory in it could be
/// read, and no two entries of one directory share a name.
pub open spec fn tree_ok(t: SnapNode) -> bool
    decreases t, 1nat,
{
    match t {
        SnapNode::Dir { children, .. } => {
            &&& names_distinct(children@)
            &&& forall|i: int| 0 <= i < children@.len() ==> entry_ok(#[trigger] children@[i])
        },
        _ => false,
    }
}

/// An entry of a snapshot that copies without a hitch.
pub open spec fn entry_ok(t: SnapNode) -> bool
    decreases t, 2nat,
{
    match t {
        SnapNode::File { .. } => true,
        _ => tree_ok(t),
    }
}

/// Child `c` in `m` was built from the snapshot entry `t`.
pub open spec fn built_entry(m: FsModel, c: NodeId, t: SnapNode) -> bool
    decreases t, 1nat,
{
    match t {
        SnapNode::File { name, content } => m.live(c) && is_user_node(
            m.data(c),
            name@,
            VfsNodeType::File { content },
            content_size(content),
        ),
        _ => built(m, c, t),
    }
}

} // verus!

verus! {

/// `built` only looks at nodes deeper than the directory's parent: it
/// survives any change that leaves those nodes as they were.
proof fn lemma_built_frame(b: FsModel, c: FsModel, d: NodeId, t: SnapNode, k: nat)
    requires
        b.wf(),
        built(b, d, t),
        b.depth[d] > k,
        forall|x: NodeId|
            #[trigger] b.live(x) && b.depth[x] > k ==> {
                &&& c.live(x)
                &&& c.data(x) == b.data(x)
                &&& c.children(x) == b.children(x)
            },
    ensures
        built(c, d, t),
    decreases t, 0nat,
{
    match t {
        SnapNode::Dir { children, .. } => {
            assert forall|i: int| 0 <= i < children@.len() implies built_entry(c, c.children(d)[i], #[trigger] children@[i]) by {
                assert(built_entry(b, b.children(d)[i], children@[i]));
                let ch = b.children(d)[i];
                assert(b.nodes[d].children[i] == ch);
                assert(b.live(ch) && b.depth[ch] == b.depth[d] + 1);
                lemma_built_entry_frame(b, c, ch, children@[i], k);
            }
        },
        _ => {},
    }
}

proof fn lemma_built_entry_frame(b: FsModel, c: FsModel, ch: NodeId, t: SnapNode, k: nat)
    requires
        b.wf(),
        built_entry(b, ch, t),
        b.live(ch),
        b.depth[ch] > k,
        forall|x: NodeId|
            #[trigger] b.live(x) && b.depth[x] > k ==> {
                &&& c.live(x)
                &&& c.data(x) == b.data(x)
                &&& c.children(x) == b.children(x)
            },
    ensures
        built_entry(c, ch, t),
    decreases t, 1nat,
{
    match t {
        SnapNode::File { .. } => {
            assert(c.live(ch) && c.data(ch) == b.data(ch));
        },
        _ => {
            lemma_built_frame(b, c, ch, t, k);
        },
    }
}

/// The message for a file `cp` cannot make.
pub open spec fn cp_file_msg(name: Seq<char>, e: VfsError) -> Seq<char> {
    "cp: cannot create '"@ + name + match e {
        VfsError::AlreadyExists => "': File exists"@,
        VfsError::PermissionDenied => "': Permission denied"@,
        VfsError::NotADirectory => "': Not a directory"@,
        _ => "': Unknown error"@,
    }
}

/// The message for a directory `cp` cannot make.
pub open spec fn cp_dir_msg(name: Seq<char>, e: VfsError) -> Seq<char> {
    "cp: cannot create directory '"@ + name + match e {
        VfsError::AlreadyExists => "': File exists"@,
        VfsError::PermissionDenied => "': Permission denied"@,
        VfsError::NotADirectory => "': Not a directory"@,
        _ => "': Unknown error"@,
    }
}

/// An error as a plain value.
pub open spec fn err_view(r: Result<(), String>) -> Option<Seq<char>> {
    match r {
        Ok(_) => None,
        Err(s) => Some(s@),
    }
}

/// The tail of a create error message.
fn error_tail(e: &VfsError) -> (r: &'static str)
    ensures
        r@ == match *e {
            VfsError::AlreadyExists => "': File exists"@,
            VfsError::PermissionDenied => "': Permission denied"@,
            VfsError::NotADirectory => "': Not a directory"@,
            _ => "': Unknown error"@,
        },
{
    match e {
        VfsError::AlreadyExists => "': File exists",
        VfsError::PermissionDenied => "': Permission denied",
        VfsError::NotADirectory => "': Not a directory",
        _ => "': Unknown error",
    }
}

/// Makes a copy of a file: a user file named `filename` under `parent`
/// holding `content`.
fn copy_file(vfs: &mut VirtualFilesystem, parent: NodeId, filename: &str, content: FileContent) -> (r: Result<(), String>)
    requires
        old(vfs).wf(),
    ensures
        final(vfs).wf(),
        unchanged_except(old(vfs)@, final(vfs)@, parent),
        match create_error(old(vfs)@, parent, filename@) {
            Some(e) => err_view(r) == Some(cp_file_msg(filename@, e)) && final(vfs)@ == old(vfs)@,
            None => r is Ok && exists|id: NodeId|
                #[trigger] grows(old(vfs)@, final(vfs)@, parent, id) && is_user_node(
                    final(vfs)@.data(id),
                    filename@,
                    VfsNodeType::File { content },
                    content_size(content),
                ),
        },
{
    proof {
        vfs.lemma_wf();
    }
    let ghost c = content;
    match vfs.create_file(parent, filename, content) {
        Ok(id) => {
            proof {
                lemma_with_child_unchanged(old(vfs)@, parent, id, vfs@.data(id));
                assert(grows(old(vfs)@, vfs@, parent, id));
            }
            Ok(())
        },
        Err(e) => {
            proof {
                lemma_unchanged_refl(vfs@, parent);
            }
            Err(cat3("cp: cannot create '", filename, error_tail(&e)))
        },
    }
}

} // verus!

verus! {

impl SnapNode {
    fn name_str(&self) -> (r: &str)
        ensures
            r@ == self.name_of(),
    {
        match self {
            SnapNode::File { name, .. } => name.as_str(),
            SnapNode::Dir { name, .. } => name.as_str(),
            SnapNode::Unreadable { name } => name.as_str(),
        }
    }
}

/// Reads node `s` of the filesystem, and all below it, into a snapshot
/// named `name`.
fn snapshot(vfs: &VirtualFilesystem, s: NodeId, name: String) -> (t: SnapNode)
    requires
        vfs.wf(),
        vfs@.live(s),
    ensures
        snap_of(vfs@, s, name@, t),
    decreases vfs.depth_bound() - vfs@.depth[s],
{
    proof {
        vfs.lemma_wf();
    }
    let ghost m = vfs@;
    let node = match vfs.get_node(s) {
        Some(d) => d,
        None => vstd::pervasive::unreached(),
    };
    assert(m.nodes[s] == m.nodes[s]);
    match &node.node_type {
        VfsNodeType::File { content } => SnapNode::File { name, content: content.duplicate() },
        VfsNodeType::Link { .. } => vstd::pervasive::unreached(),
        VfsNodeType::Directory => {
            match vfs.list_directory(s) {
                Err(_) => SnapNode::Unreadable { name },
                Ok(es) => {
                    let mut kids: Vec<SnapNode> = Vec::new();
                    let mut i: usize = 0;
                    while i < es.len()
                        invariant
                            vfs.wf(),
                            m == vfs@,
                            m.wf(),
                            m.live(s),
                            m.depth[s] < vfs.depth_bound(),
                            forall|n: NodeId| #[trigger] m.live(n) ==> m.depth[n] < vfs.depth_bound(),
                            es@ == spec_listing(m, s),
                            crate::vfs::lists(m, s, es@),
                            i <= es.len(),
                            kids@.len() == i,
                            forall|j: int| 0 <= j < i ==> snap_of(m, es@[j].node_id, es@[j].name@, #[trigger] kids@[j]),
                        decreases es.len() - i,
                    {
                        let c = es[i].node_id;
                        proof {
                            assert(m.children(s).contains(c));
                            let k = choose|k: int| 0 <= k < m.children(s).len() && m.children(s)[k] == c;
                            assert(m.nodes[s].children[k] == c);
                            assert(m.live(c));
                            assert(m.nodes[c] == m.nodes[c]);
                            assert(m.depth[c] == m.depth[s] + 1);
                        }
                        let k = snapshot(vfs, c, es[i].name.clone());
                        kids.push(k);
                        i = i + 1;
                    }
                    SnapNode::Dir { name, children: kids }
                },
            }
        },
    }
}

/// `d` is a new child of `dp`, put after the others.
pub open spec fn made_dir(a: FsModel, b: FsModel, dp: NodeId, d: NodeId) -> bool {
    &&& !a.live(d)
    &&& b.live(d)
    &&& b.children(dp) == a.children(dp).push(d)
}

/// Makes a directory under `dp` from the snapshot `t` and fills it,
/// stopping at the first thing that cannot be made.
fn build_tree(vfs: &mut VirtualFilesystem, t: &SnapNode, dp: NodeId) -> (r: Result<(), String>)
    requires
        old(vfs).wf(),
        !(*t is File),
    ensures
        final(vfs).wf(),
        unchanged_except(old(vfs)@, final(vfs)@, dp),
        match create_error(old(vfs)@, dp, t.name_of()) {
            Some(e) => err_view(r) == Some(cp_dir_msg(t.name_of(), e)) && final(vfs)@ == old(vfs)@,
            None => exists|d: NodeId|
                #[trigger] made_dir(old(vfs)@, final(vfs)@, dp, d) && is_user_node(
                    final(vfs)@.data(d),
                    t.name_of(),
                    VfsNodeType::Directory,
                    4096,
                ) && (r is Ok <==> tree_ok(*t)) && (r is Ok ==> built(final(vfs)@, d, *t)),
        },
    decreases t,
{
    proof {
        vfs.lemma_wf();
    }
    let name = t.name_str();
    let d = match vfs.create_directory(dp, name) {
        Err(e) => {
            proof {
                lemma_unchanged_refl(vfs@, dp);
            }
            return Err(cat3("cp: cannot create directory '", name, error_tail(&e)));
        },
        Ok(d) => d,
    };
    proof {
        vfs.lemma_wf();
        lemma_with_child_unchanged(old(vfs)@, dp, d, vfs@.data(d));
    }
    let ghost m1 = vfs@;
    assert(made_dir(old(vfs)@, m1, dp, d));
    match t {
        SnapNode::File { .. } => vstd::pervasive::unreached(),
        SnapNode::Unreadable { .. } => Err(String::from_str("cp: cannot read directory: Permission denied")),
        SnapNode::Dir { children, .. } => {
            let mut i: usize = 0;
            while i < children.len()
                invariant
                    vfs.wf(),
                    vfs@.wf(),
                    *t is Dir,
                    children == t->children,
                    !old(vfs)@.live(d),
                    old(vfs)@.live(dp),
                    create_error(old(vfs)@, dp, t.name_of()) is None,
                    unchanged_except(old(vfs)@, vfs@, dp),
                    made_dir(old(vfs)@, vfs@, dp, d),
                    vfs@.live(d),
                    is_user_node(vfs@.data(d), t.name_of(), VfsNodeType::Directory, 4096),
                    i <= children.len(),
                    vfs@.children(d).len() == i,
                    forall|j: int| 0 <= j < i ==> built_entry(vfs@, vfs@.children(d)[j], #[trigger] children@[j]),
                    forall|j: int, l: int|
                        0 <= j < l < i ==> #[trigger] children@[j].name_of() != #[trigger] children@[l].name_of(),
                    forall|j: int| 0 <= j < i ==> entry_ok(#[trigger] children@[j]),
                decreases children.len() - i,
            {
                let ghost mi = vfs@;
                let k = &children[i];
                assert(decreases_to!(*t => *k));
                let ghost dup = exists|j: int| 0 <= j < i && #[trigger] children@[j].name_of() == k.name_of();
                proof {
                    lemma_dup_create(mi, d, children@, i as int, k.name_of());
                }
                let res = match k {
                    SnapNode::File { name: n, content } => copy_file(vfs, d, n.as_str(), content.duplicate()),
                    _ => build_tree(vfs, k, d),
                };
                proof {
                    vfs.lemma_wf();
                    lemma_unchanged_trans(old(vfs)@, mi, vfs@, dp, d);
                    assert(old(vfs)@.live(dp));
                    assert(mi.live(dp));
                    assert(dp != d);
                    assert(vfs@.children(dp) == mi.children(dp));
                    assert(mi.live(d));
                    assert(made_dir(old(vfs)@, vfs@, dp, d));
                }
                match res {
                    Err(e) => {
                        proof {
                            if dup {
                                let j = choose|j: int| 0 <= j < i && #[trigger] children@[j].name_of() == k.name_of();
                                lemma_dup_not_ok(*t, j, i as int);
                            } else {
                                lemma_entry_not_ok(*t, i as int);
                            }
                        }
                        return Err(e);
                    },
                    Ok(()) => {},
                }
                assert(!dup);
                assert(entry_ok(*k));
                proof {
                    let mj = vfs@;
                    let new_c = mj.children(d).last();
                    assert(mj.children(d) == mi.children(d).push(new_c)) by {
                        match *k {
                            SnapNode::File { .. } => {
                                let id = choose|id: NodeId| #[trigger] grows(mi, mj, d, id) && is_user_node(mj.data(id), k.name_of(), VfsNodeType::File { content: k->content }, content_size(k->content));
                            },
                            _ => {
                                let nd = choose|nd: NodeId| #[trigger] made_dir(mi, mj, d, nd) && is_user_node(mj.data(nd), k.name_of(), VfsNodeType::Directory, 4096) && built(mj, nd, *k);
                            },
                        }
                    }
                    assert(built_entry(mj, new_c, *k)) by {
                        match *k {
                            SnapNode::File { .. } => {
                                let id = choose|id: NodeId| #[trigger] grows(mi, mj, d, id) && is_user_node(mj.data(id), k.name_of(), VfsNodeType::File { content: k->content }, content_size(k->content));
                                assert(mj.children(d) == mi.children(d).push(id));
                            },
                            _ => {
                                let nd = choose|nd: NodeId| #[trigger] made_dir(mi, mj, d, nd) && is_user_node(mj.data(nd), k.name_of(), VfsNodeType::Directory, 4096) && built(mj, nd, *k);
                            },
                        }
                    }
                    assert forall|j: int| 0 <= j < i + 1 implies built_entry(mj, mj.children(d)[j], #[trigger] children@[j]) by {
                        if j < i {
                            let cj = mi.children(d)[j];
                            assert(mi.nodes[d].children[j] == cj);
                            assert(mi.live(cj) && mi.depth[cj] == mi.depth[d] + 1);
                            assert forall|x: NodeId| #[trigger] mi.live(x) && mi.depth[x] > mi.depth[d] implies {
                                &&& mj.live(x)
                                &&& mj.data(x) == mi.data(x)
                                &&& mj.children(x) == mi.children(x)
                            } by {
                                assert(x != d);
                            }
                            lemma_built_entry_frame(mi, mj, cj, children@[j], mi.depth[d]);
                        }
                    }
                }
                i = i + 1;
            }
            assert(tree_ok(*t));
            Ok(())
        },
    }
}

/// A snapshot with two entries of one name does not copy without a hitch.
proof fn lemma_dup_not_ok(t: SnapNode, j: int, i: int)
    requires
        t is Dir,
        0 <= j < i < (t->children)@.len(),
        (t->children)@[j].name_of() == (t->children)@[i].name_of(),
    ensures
        !tree_ok(t),
{
}

/// A snapshot with an entry that does not copy without a hitch does not
/// either.
proof fn lemma_entry_not_ok(t: SnapNode, i: int)
    requires
        t is Dir,
        0 <= i < (t->children)@.len(),
        !entry_ok((t->children)@[i]),
    ensures
        !tree_ok(t),
{
}

/// The name of a child built from a snapshot entry is the entry's name.
proof fn lemma_built_name(m: FsModel, c: NodeId, t: SnapNode)
    requires
        built_entry(m, c, t),
    ensures
        m.data(c).name@ == t.name_of(),
{
}

/// In a directory built from the first `i` entries of a snapshot, a new
/// entry named `name` can be made exactly when none of those entries has
/// that name.
proof fn lemma_dup_create(m: FsModel, d: NodeId, cs: Seq<SnapNode>, i: int, name: Seq<char>)
    requires
        m.wf(),
        m.live(d),
        m.data(d).permissions == crate::vfs::spec_default_permissions(),
        is_dir(m.data(d)),
        0 <= i <= cs.len(),
        m.children(d).len() == i,
        forall|j: int| 0 <= j < i ==> built_entry(m, m.children(d)[j], #[trigger] cs[j]),
    ensures
        create_error(m, d, name) is Some <==> exists|j: int| 0 <= j < i && #[trigger] cs[j].name_of() == name,
        create_error(m, d, name) is Some ==> create_error(m, d, name) == Some(VfsError::AlreadyExists),
{
    let ks = m.children(d);
    if exists|j: int| 0 <= j < i && #[trigger] cs[j].name_of() == name {
        let j = choose|j: int| 0 <= j < i && #[trigger] cs[j].name_of() == name;
        lemma_built_name(m, ks[j], cs[j]);
        crate::vfs_laws::lemma_first_named_exists(m, ks, name, 0, j);
    } else {
        assert forall|j: int| 0 <= j < ks.len() implies m.data(ks[j]).name@ != name by {
            lemma_built_name(m, ks[j], cs[j]);
        }
        crate::vfs_laws::lemma_first_named_none(m, ks, name, 0);
    }
}

} // verus!

verus! {

/// Whether node `x` is `a` or lies below it.
fn is_within(vfs: &VirtualFilesystem, x: NodeId, a: NodeId) -> (r: bool)
    requires
        vfs.wf(),
        vfs@.live(x),
    ensures
        r == descends(vfs@, x, a),
{
    proof {
        vfs.lemma_wf();
    }
    let ghost m = vfs@;
    let mut cur = x;
    loop
        invariant
            m == vfs@,
            m.wf(),
            m.live(cur),
            descends(m, x, a) == descends(m, cur, a),
        decreases m.depth[cur],
    {
        if node_id_eq(cur, a) {
            return true;
        }
        assert(m.nodes[cur] == m.nodes[cur]);
        match vfs.get_parent(cur) {
            Some(p) => {
                assert(cur != m.root);
                cur = p;
            },
            None => {
                assert(cur == m.root);
                return false;
            },
        }
    }
}

pub open spec fn cp_access_msg(dest: Seq<char>) -> Seq<char> {
    "cp: cannot access '"@ + dest + "': No such file or directory"@
}

/// Where `cp` puts its copy: into an existing directory under the
/// source's name, over an existing file under that file's name in its
/// directory, or else at the path given.
pub open spec fn cp_dest(m: FsModel, cur: NodeId, dest: Seq<char>, source: Seq<char>) -> Result<(NodeId, Seq<char>), Seq<char>> {
    match spec_resolve_path(m, cur, dest) {
        Ok(d) => if !m.live(d) {
            Err(cp_access_msg(dest))
        } else if is_dir(m.data(d)) {
            Ok((d, name_part(source)))
        } else {
            match m.parent(d) {
                Some(p) => Ok((p, m.data(d).name@)),
                None => Err(cp_access_msg(dest)),
            }
        },
        Err(_) => match dir_of(m, cur, parent_part(dest)) {
            Ok(p) => Ok((p, name_part(dest))),
            Err(_) => Err("cp: cannot create '"@ + dest + "': No such file or directory"@),
        },
    }
}

/// Finds where `cp` puts its copy.
fn resolve_destination(vfs: &VirtualFilesystem, cur: NodeId, dest: &str, source: &str) -> (r: Result<(NodeId, String), String>)
    requires
        vfs.wf(),
    ensures
        match cp_dest(vfs@, cur, dest@, source@) {
            Ok((p, n)) => r matches Ok((p2, n2)) && p2 == p && n2@ == n,
            Err(e) => r matches Err(s) && s@ == e,
        },
{
    proof {
        vfs.lemma_wf();
    }
    match vfs.resolve_path(cur, dest) {
        Ok(d) => {
            let node = match vfs.get_node(d) {
                Some(node) => node,
                None => {
                    return Err(cat3("cp: cannot access '", dest, "': No such file or directory"));
                },
            };
            if node.is_directory() {
                let (_, source_name) = split_at_last_slash(source);
                Ok((d, String::from_str(source_name)))
            } else {
                match vfs.get_parent(d) {
                    Some(p) => Ok((p, node.name.clone())),
                    None => Err(cat3("cp: cannot access '", dest, "': No such file or directory")),
                }
            }
        },
        Err(_) => {
            let (pp, filename) = split_at_last_slash(dest);
            let parent = if pp.unicode_len() == 0 {
                Ok(cur)
            } else {
                vfs.resolve_path(cur, pp)
            };
            match parent {
                Ok(p) => Ok((p, String::from_str(filename))),
                Err(_) => Err(cat3("cp: cannot create '", dest, "': No such file or directory")),
            }
        },
    }
}

/// What `cp` does with one source.
pub enum CpOne {
    Fail(Seq<char>),
    File(FileContent, NodeId, Seq<char>),
    Tree(NodeId, NodeId, Seq<char>),
}

/// What `cp` does with source `source` and destination `dest`: copy a
/// file, copy a directory with all below it (only with `-r`), or fail.
pub open spec fn cp_one(m: FsModel, cur: NodeId, rec: bool, source: Seq<char>, dest: Seq<char>) -> CpOne {
    let stat = "cp: cannot stat '"@ + source + "': No such file or directory"@;
    match spec_resolve_path(m, cur, source) {
        Err(_) => CpOne::Fail(stat),
        Ok(s) => if !m.live(s) {
            CpOne::Fail(stat)
        } else if is_dir(m.data(s)) && !rec {
            CpOne::Fail("cp: omitting directory '"@ + source + "': use -r to copy directories"@)
        } else {
            match cp_dest(m, cur, dest, source) {
                Err(e) => CpOne::Fail(e),
                Ok((dp, dn)) => match m.data(s).node_type {
                    VfsNodeType::File { content } => CpOne::File(content, dp, dn),
                    VfsNodeType::Directory => CpOne::Tree(s, dp, dn),
                    VfsNodeType::Link { .. } => CpOne::Fail(
                        "cp: cannot copy '"@ + source + "': Links not supported"@,
                    ),
                },
            }
        },
    }
}

/// The message for a directory copied into itself.
pub open spec fn into_itself_msg(source: Seq<char>, dest: Seq<char>) -> Seq<char> {
    "cp: cannot copy a directory, '"@ + source + "', into itself, '"@ + dest + "'"@
}

/// The copy, named `name`, of the subtree at `s` in `a` went without a
/// hitch (`ok`) exactly when every directory in it could be read and no two
/// entries of one directory share a name; then the subtree at `d` in `b`
/// is that copy.
pub open spec fn copies(b: FsModel, d: NodeId, a: FsModel, s: NodeId, name: Seq<char>, ok: bool) -> bool {
    exists|t: SnapNode| #[trigger] snap_of(a, s, name, t) && (ok <==> tree_ok(t)) && (ok ==> built(b, d, t))
}

/// One source of `cp`: how `b` follows from `a`, and the error line `err`.
/// A directory is refused when the copy would go inside it; a copy that
/// stops part way leaves what it made.
pub open spec fn cp_moves(
    cur: NodeId,
    rec: bool,
    dest: Seq<char>,
    a: FsModel,
    b: FsModel,
    source: Seq<char>,
    err: Option<Seq<char>>,
) -> bool {
    &&& b.wf()
    &&& match cp_one(a, cur, rec, source, dest) {
        CpOne::Fail(e) => err == Some(e) && b == a,
        CpOne::File(content, dp, dn) => match create_error(a, dp, dn) {
            Some(e) => err == Some(cp_file_msg(dn, e)) && b == a,
            None => err is None && exists|id: NodeId|
                #[trigger] grows(a, b, dp, id) && is_user_node(
                    b.data(id),
                    dn,
                    VfsNodeType::File { content },
                    content_size(content),
                ),
        },
        CpOne::Tree(s, dp, dn) => match create_error(a, dp, dn) {
            Some(e) => err == Some(cp_dir_msg(dn, e)) && b == a,
            None => if descends(a, dp, s) {
                err == Some(into_itself_msg(source, dest)) && b == a
            } else {
                &&& unchanged_except(a, b, dp)
                &&& exists|d: NodeId|
                    #[trigger] made_dir(a, b, dp, d) && is_user_node(b.data(d), dn, VfsNodeType::Directory, 4096)
                        && copies(b, d, a, s, dn, err is None)
            },
        },
    }
}

/// Copies one source to the destination.
fn copy_item(vfs: &mut VirtualFilesystem, cur: NodeId, source: &str, dest: &str, rec: bool) -> (r: Result<(), String>)
    requires
        old(vfs).wf(),
    ensures
        final(vfs).wf(),
        cp_moves(cur, rec, dest@, old(vfs)@, final(vfs)@, source@, err_view(r)),
{
    proof {
        vfs.lemma_wf();
    }
    let ghost a = vfs@;
    let s = match vfs.resolve_path(cur, source) {
        Ok(s) => s,
        Err(_) => {
            return Err(cat3("cp: cannot stat '", source, "': No such file or directory"));
        },
    };
    let node = match vfs.get_node(s) {
        Some(node) => node.duplicate(),
        None => {
            return Err(cat3("cp: cannot stat '", source, "': No such file or directory"));
        },
    };
    if node.is_directory() && !rec {
        return Err(cat3("cp: omitting directory '", source, "': use -r to copy directories"));
    }
    let (dp, dn) = match resolve_destination(vfs, cur, dest, source) {
        Ok(x) => x,
        Err(e) => {
            return Err(e);
        },
    };
    match node.node_type {
        VfsNodeType::File { content } => {
            let r = copy_file(vfs, dp, dn.as_str(), content);
            proof {
                vfs.lemma_wf();
            }
            r
        },
        VfsNodeType::Link { .. } => Err(cat3("cp: cannot copy '", source, "': Links not supported")),
        VfsNodeType::Directory => {
            match vfs.check_create(dp, dn.as_str()) {
                Err(e) => {
                    return Err(cat3("cp: cannot create directory '", dn.as_str(), error_tail(&e)));
                },
                Ok(()) => {},
            }
            if is_within(vfs, dp, s) {
                let mut msg = cat3("cp: cannot copy a directory, '", source, "', into itself, '");
                msg.append(dest);
                msg.append("'");
                return Err(msg);
            }
            let snap = snapshot(vfs, s, dn);
            let r = build_tree(vfs, &snap, dp);
            proof {
                vfs.lemma_wf();
                let b = vfs@;
                let d = choose|d: NodeId|
                    #[trigger] made_dir(a, b, dp, d) && is_user_node(b.data(d), dn@, VfsNodeType::Directory, 4096) && (
                    r is Ok <==> tree_ok(snap)) && (r is Ok ==> built(b, d, snap));
                assert(made_dir(a, b, dp, d));
                assert(snap_of(a, s, dn@, snap) && ((r is Ok) <==> tree_ok(snap)) && ((r is Ok) ==> built(b, d, snap)));
            }
            r
        },
    }
}

} // verus!

verus! {

/// `trace` goes from its first model to its last, one step per operand,
/// each step related to the model it starts from and to the error line it
/// gives (in `outs`) by `step`.
pub open spec fn is_run_with(
    trace: Seq<FsModel>,
    tps: Seq<Seq<char>>,
    outs: Seq<Option<Seq<char>>>,
    step: spec_fn(FsModel, FsModel, Seq<char>, Option<Seq<char>>) -> bool,
) -> bool {
    &&& trace.len() == tps.len() + 1
    &&& outs.len() == tps.len()
    &&& forall|i: int| 0 <= i < tps.len() ==> #[trigger] step(trace[i], trace[i + 1], tps[i], outs[i])
}

/// The error lines among `outs`, in order.
pub open spec fn somes(outs: Seq<Option<Seq<char>>>) -> Seq<Seq<char>>
    decreases outs.len(),
{
    if outs.len() == 0 {
        Seq::empty()
    } else {
        match outs.last() {
            Some(e) => somes(outs.drop_last()).push(e),
            None => somes(outs.drop_last()),
        }
    }
}

proof fn lemma_run_with_push(
    trace: Seq<FsModel>,
    tps: Seq<Seq<char>>,
    outs: Seq<Option<Seq<char>>>,
    k: int,
    next: FsModel,
    out: Option<Seq<char>>,
    step: spec_fn(FsModel, FsModel, Seq<char>, Option<Seq<char>>) -> bool,
)
    requires
        0 <= k < tps.len(),
        is_run_with(trace, tps.take(k), outs, step),
        step(trace.last(), next, tps[k], out),
    ensures
        is_run_with(trace.push(next), tps.take(k + 1), outs.push(out), step),
        somes(outs.push(out)) == match out {
            Some(e) => somes(outs).push(e),
            None => somes(outs),
        },
{
    let t2 = trace.push(next);
    let o2 = outs.push(out);
    assert(o2.drop_last() =~= outs);
    assert forall|i: int| 0 <= i < k + 1 implies #[trigger] step(t2[i], t2[i + 1], tps.take(k + 1)[i], o2[i]) by {
        if i < k {
            assert(step(trace[i], trace[i + 1], tps.take(k)[i], outs[i]));
        }
    }
}

pub open spec fn cp_step(cur: NodeId, rec: bool, dest: Seq<char>) -> spec_fn(FsModel, FsModel, Seq<char>, Option<Seq<char>>) -> bool {
    |a: FsModel, b: FsModel, s: Seq<char>, e: Option<Seq<char>>| cp_moves(cur, rec, dest, a, b, s, e)
}

/// `r` and `b` are what `cp` with `args`, run in `cur` on `a`, answers and
/// leaves: unknown options are refused, as is a missing destination;
/// otherwise every operand but the last is copied, in order, to the last.
pub open spec fn cp_result(r: CommandRes, a: FsModel, b: FsModel, cur: NodeId, args: Seq<Seq<char>>) -> bool {
    let opts = options_of(args);
    let tps = targets_of(args);
    match first_not_in(opts, 'r', 'f') {
        Some(c) => r.is_failure(
            invalid_option_msg("cp"@, c, "This version of cp only supports options 'r' and 'f'"@),
        ) && b == a,
        None => if tps.len() < 2 {
            r.is_failure("cp: missing destination file operand"@) && b == a
        } else {
            exists|trace: Seq<FsModel>, outs: Seq<Option<Seq<char>>>|
                {
                    &&& #[trigger] is_run_with(trace, tps.drop_last(), outs, cp_step(cur, opts.contains('r'), tps.last()))
                    &&& trace[0] == a
                    &&& trace.last() == b
                    &&& reports(r, somes(outs))
                }
        },
    }
}

/// Runs `cp` with `args` in `current_dir`.
pub fn cp_run(vfs: &mut VirtualFilesystem, current_dir: NodeId, args: Vec<&str>) -> (r: CommandRes)
    requires
        old(vfs).wf(),
    ensures
        final(vfs).wf(),
        cp_result(r, old(vfs)@, final(vfs)@, current_dir, strs_view(args@)),
{
    let (options, targets) = parse_multitarget(args);
    let recursive = has_option(&options, 'r');
    match first_invalid_option(&options, 'r', 'f') {
        Some(c) => {
            let msg = with_char("cp: invalid option -- '", c, "'\nThis version of cp only supports options 'r' and 'f'");
            proof {
                reveal_strlit("cp: invalid option -- '");
                reveal_strlit("'\nThis version of cp only supports options 'r' and 'f'");
                reveal_strlit("cp");
                reveal_strlit(": invalid option -- '");
                reveal_strlit("'\n");
                reveal_strlit("This version of cp only supports options 'r' and 'f'");
                assert(msg@ =~= invalid_option_msg("cp"@, c, "This version of cp only supports options 'r' and 'f'"@));
            }
            return CommandRes::new().with_error().with_stderr(msg.as_str());
        },
        None => {},
    }
    if targets.len() < 2 {
        return CommandRes::new().with_error().with_stderr("cp: missing destination file operand");
    }
    let n = targets.len() - 1;
    let dest = targets[n];
    let ghost all_tps = strs_view(targets@);
    let ghost tps = all_tps.drop_last();
    assert(all_tps.last() == dest@);
    let ghost mut trace: Seq<FsModel> = seq![vfs@];
    let ghost mut outs: Seq<Option<Seq<char>>> = Seq::empty();
    let mut errs: Vec<String> = Vec::new();
    let mut i: usize = 0;
    assert(tps.take(0) =~= Seq::<Seq<char>>::empty());
    while i < n
        invariant
            vfs.wf(),
            n + 1 == targets.len(),
            i <= n,
            all_tps == strs_view(targets@),
            tps == all_tps.drop_last(),
            dest@ == all_tps.last(),
            is_run_with(trace, tps.take(i as int), outs, cp_step(current_dir, recursive, dest@)),
            trace[0] == old(vfs)@,
            trace.last() == vfs@,
            names_of(errs@) == somes(outs),
        decreases n - i,
    {
        assert(tps[i as int] == targets@[i as int]@);
        let res = copy_item(vfs, current_dir, targets[i], dest, recursive);
        proof {
            lemma_run_with_push(trace, tps, outs, i as int, vfs@, err_view(res), cp_step(current_dir, recursive, dest@));
            trace = trace.push(vfs@);
            outs = outs.push(err_view(res));
        }
        let ghost old_errs = names_of(errs@);
        match res {
            Err(msg) => {
                errs.push(msg);
                assert(names_of(errs@) =~= old_errs.push(errs@.last()@));
            },
            Ok(()) => {},
        }
        i = i + 1;
    }
    assert(tps.take(i as int) =~= tps);
    report_errors(&errs)
}

/// The result of a command that reports its error lines.
fn report_errors(errs: &Vec<String>) -> (r: CommandRes)
    ensures
        reports(r, names_of(errs@)),
{
    if errs.len() > 0 {
        let text = join_strings(errs, "\n");
        CommandRes::new().with_error().with_stderr(text.as_str())
    } else {
        CommandRes::new()
    }
}

/// Copies files and directories (the filesystem-backed variant).
pub struct VfsCpCommand;

impl VfsCpCommand {
    pub fn new() -> (r: Self) {
        VfsCpCommand
    }

    /// Runs `cp` with `args` in `current_dir`.
    pub fn execute(
        &self,
        vfs: &mut VirtualFilesystem,
        current_dir: NodeId,
        args: Vec<&str>,
        stdin: Option<&str>,
        is_tty: bool,
    ) -> (r: CommandRes)
        requires
            old(vfs).wf(),
        ensures
            final(vfs).wf(),
            cp_result(r, old(vfs)@, final(vfs)@, current_dir, strs_view(args@)),
    {
        cp_run(vfs, current_dir, args)
    }
}

} // verus!

verus! {

/// The arguments `mv` hands to `cp` for one source.
pub open spec fn mv_cp_args(is_dir: bool, source: Seq<char>, dest: Seq<char>) -> Seq<Seq<char>> {
    if is_dir {
        seq!["-r"@, source, dest]
    } else {
        seq![source, dest]
    }
}

/// The arguments `mv` hands to `rm` for one source.
pub open spec fn mv_rm_args(is_dir: bool, source: Seq<char>) -> Seq<Seq<char>> {
    if is_dir {
        seq!["-r"@, source]
    } else {
        seq![source]
    }
}

/// First step of `mv`: a file (not a directory) at the destination is
/// deleted if it can be; `b` is what is left.
pub open spec fn mv_clears(a: FsModel, b: FsModel, cur: NodeId, dest: Seq<char>) -> bool {
    match spec_resolve_path(a, cur, dest) {
        Ok(d) => if a.live(d) && !is_dir(a.data(d)) {
            if d == a.root || a.data(d).permissions.immutable {
                b == a
            } else {
                crate::vfs::pruned(a, b, crate::vfs::just(d))
            }
        } else {
            b == a
        },
        Err(_) => b == a,
    }
}

/// The standard error text of a result, or `unknown error`.
pub open spec fn stderr_or_unknown(r: CommandRes) -> Seq<char> {
    match r.stderr() {
        Some(t) => t,
        None => "unknown error"@,
    }
}

/// One source of `mv`: how `b` follows from `a`, and the error line `err`.
/// A movable source is moved by deleting a file in the way, copying, then
/// removing the source.
pub open spec fn mv_moves(cur: NodeId, dest: Seq<char>, a: FsModel, b: FsModel, source: Seq<char>, err: Option<Seq<char>>) -> bool {
    let stat = "mv: cannot stat '"@ + source + "': No such file or directory"@;
    &&& b.wf()
    &&& match spec_resolve_path(a, cur, source) {
        Err(_) => err == Some(stat) && b == a,
        Ok(s) => if !a.live(s) {
            err == Some(stat) && b == a
        } else if a.data(s).permissions.immutable {
            err == Some("mv: cannot move '"@ + source + "': Permission denied"@) && b == a
        } else {
            let dir = is_dir(a.data(s));
            exists|m1: FsModel, m2: FsModel, rc: CommandRes|
                {
                    &&& #[trigger] mv_clears(a, m1, cur, dest)
                    &&& m1.wf()
                    &&& #[trigger] cp_result(rc, m1, m2, cur, mv_cp_args(dir, source, dest))
                    &&& if rc.spec_is_err() {
                        b == m2 && err == Some("mv: copy failed: "@ + stderr_or_unknown(rc))
                    } else {
                        exists|rr: CommandRes|
                            {
                                &&& #[trigger] crate::fs_tools::rm_result(rr, m2, b, cur, mv_rm_args(dir, source))
                                &&& err == (if rr.spec_is_err() {
                                    Some("mv: cannot remove '"@ + source + "': Permission denied"@)
                                } else {
                                    None
                                })
                            }
                    }
                }
        },
    }
}

/// Moves one source to the destination.
fn move_item(vfs: &mut VirtualFilesystem, cur: NodeId, source: &str, dest: &str) -> (r: Result<(), String>)
    requires
        old(vfs).wf(),
    ensures
        final(vfs).wf(),
        mv_moves(cur, dest@, old(vfs)@, final(vfs)@, source@, err_view(r)),
{
    proof {
        vfs.lemma_wf();
    }
    let ghost a = vfs@;
    let s = match vfs.resolve_path(cur, source) {
        Ok(s) => s,
        Err(_) => {
            return Err(cat3("mv: cannot stat '", source, "': No such file or directory"));
        },
    };
    let (immutable, is_directory) = match vfs.get_node(s) {
        Some(node) => (node.permissions.immutable, node.is_directory()),
        None => {
            return Err(cat3("mv: cannot stat '", source, "': No such file or directory"));
        },
    };
    if immutable {
        return Err(cat3("mv: cannot move '", source, "': Permission denied"));
    }
    match vfs.resolve_path(cur, dest) {
        Ok(d) => {
            let is_file = match vfs.get_node(d) {
                Some(dn) => !dn.is_directory(),
                None => false,
            };
            if is_file {
                let _ = vfs.delete_node(d);
            }
        },
        Err(_) => {},
    }
    proof {
        vfs.lemma_wf();
    }
    let ghost m1 = vfs@;
    assert(mv_clears(a, m1, cur, dest@));
    let cp_args: Vec<&str> = if is_directory {
        vec!["-r", source, dest]
    } else {
        vec![source, dest]
    };
    assert(strs_view(cp_args@) =~= mv_cp_args(is_directory, source@, dest@));
    let rc = cp_run(vfs, cur, cp_args);
    proof {
        vfs.lemma_wf();
    }
    let ghost m2 = vfs@;
    if rc.is_error() {
        let detail: &str = match &rc {
            CommandRes::Output { stderr_text: Some(msg), .. } => msg.as_str(),
            _ => "unknown error",
        };
        let mut msg = String::from_str("mv: copy failed: ");
        msg.append(detail);
        proof {
            assert(msg@ == "mv: copy failed: "@ + stderr_or_unknown(rc));
            assert(mv_clears(a, m1, cur, dest@) && m1.wf() && cp_result(rc, m1, m2, cur, mv_cp_args(is_directory, source@, dest@)));
        }
        return Err(msg);
    }
    let rm_args: Vec<&str> = if is_directory {
        vec!["-r", source]
    } else {
        vec![source]
    };
    assert(strs_view(rm_args@) =~= mv_rm_args(is_directory, source@));
    let rr = RmCommand::new().execute(vfs, cur, rm_args, None, false);
    proof {
        vfs.lemma_wf();
        assert(crate::fs_tools::rm_result(rr, m2, vfs@, cur, mv_rm_args(is_directory, source@)));
        assert(mv_clears(a, m1, cur, dest@) && m1.wf() && cp_result(rc, m1, m2, cur, mv_cp_args(is_directory, source@, dest@)));
    }
    if rr.is_error() {
        return Err(cat3("mv: cannot remove '", source, "': Permission denied"));
    }
    Ok(())
}

pub open spec fn mv_step(cur: NodeId, dest: Seq<char>) -> spec_fn(FsModel, FsModel, Seq<char>, Option<Seq<char>>) -> bool {
    |a: FsModel, b: FsModel, s: Seq<char>, e: Option<Seq<char>>| mv_moves(cur, dest, a, b, s, e)
}

/// `r` and `b` are what `mv` with `args`, run in `cur` on `a`, answers and
/// leaves: a missing destination is refused; otherwise every operand but
/// the last is moved, in order, to the last.
pub open spec fn mv_result(r: CommandRes, a: FsModel, b: FsModel, cur: NodeId, args: Seq<Seq<char>>) -> bool {
    let tps = targets_of(args);
    if tps.len() < 2 {
        r.is_failure("mv: missing destination file operand"@) && b == a
    } else {
        exists|trace: Seq<FsModel>, outs: Seq<Option<Seq<char>>>|
            {
                &&& #[trigger] is_run_with(trace, tps.drop_last(), outs, mv_step(cur, tps.last()))
                &&& trace[0] == a
                &&& trace.last() == b
                &&& reports(r, somes(outs))
            }
    }
}

/// Runs `mv` with `args` in `current_dir`.
pub fn mv_run(vfs: &mut VirtualFilesystem, current_dir: NodeId, args: Vec<&str>) -> (r: CommandRes)
    requires
        old(vfs).wf(),
    ensures
        final(vfs).wf(),
        mv_result(r, old(vfs)@, final(vfs)@, current_dir, strs_view(args@)),
{
    let (_, targets) = parse_multitarget(args);
    if targets.len() < 2 {
        return CommandRes::new().with_error().with_stderr("mv: missing destination file operand");
    }
    let n = targets.len() - 1;
    let dest = targets[n];
    let ghost all_tps = strs_view(targets@);
    let ghost tps = all_tps.drop_last();
    let ghost mut trace: Seq<FsModel> = seq![vfs@];
    let ghost mut outs: Seq<Option<Seq<char>>> = Seq::empty();
    let mut errs: Vec<String> = Vec::new();
    let mut i: usize = 0;
    assert(tps.take(0) =~= Seq::<Seq<char>>::empty());
    while i < n
        invariant
            vfs.wf(),
            n + 1 == targets.len(),
            i <= n,
            all_tps == strs_view(targets@),
            tps == all_tps.drop_last(),
            dest@ == all_tps.last(),
            is_run_with(trace, tps.take(i as int), outs, mv_step(current_dir, dest@)),
            trace[0] == old(vfs)@,
            trace.last() == vfs@,
            names_of(errs@) == somes(outs),
        decreases n - i,
    {
        assert(tps[i as int] == targets@[i as int]@);
        let res = move_item(vfs, current_dir, targets[i], dest);
        proof {
            lemma_run_with_push(trace, tps, outs, i as int, vfs@, err_view(res), mv_step(current_dir, dest@));
            trace = trace.push(vfs@);
            outs = outs.push(err_view(res));
        }
        let ghost old_errs = names_of(errs@);
        match res {
            Err(msg) => {
                errs.push(msg);
                assert(names_of(errs@) =~= old_errs.push(errs@.last()@));
            },
            Ok(()) => {},
        }
        i = i + 1;
    }
    assert(tps.take(i as int) =~= tps);
    report_errors(&errs)
}

/// Moves files and directories (the filesystem-backed variant).
pub struct VfsMvCommand;

impl VfsMvCommand {
    pub fn new() -> (r: Self) {
        VfsMvCommand
    }

    /// Runs `mv` with `args` in `current_dir`.
    pub fn execute(
        &self,
        vfs: &mut VirtualFilesystem,
        current_dir: NodeId,
        args: Vec<&str>,
        stdin: Option<&str>,
        is_tty: bool,
    ) -> (r: CommandRes)
        requires
            old(vfs).wf(),
        ensures
            final(vfs).wf(),
            mv_result(r, old(vfs)@, final(vfs)@, current_dir, strs_view(args@)),
    {
        mv_run(vfs, current_dir, args)
    }
}

} // verus!
