use indextree::{Arena, NodeId};
use vstd::prelude::*;

use crate::sort::{key_of, sort_by_key, sorted_by_key, stable_sort, Keyed};
use crate::text::{decimal, pad_left, pad_right, padded_left, padded_right, spec_decimal, chars_of, split_nonempty, split_nonempty_chars, string_of, views_of};
use crate::tree::{
    arena_get, arena_new, arena_new_node, arena_nodes, node_append, node_children, node_id_eq,
    node_parent, node_remove, NodeRec,
};
use vstd::utf8::encode_utf8;

verus! {

/// One entry of the filesystem: a directory, a file or a link.
#[derive(Debug, Clone)]
pub struct VfsNode {
    pub name: String,
    pub node_type: VfsNodeType,
    pub permissions: Permissions,
    pub metadata: NodeMetadata,
}

#[derive(Debug, Clone)]
pub enum VfsNodeType {
    Directory,
    File { content: FileContent },
    Link { target: String },
}

#[derive(Debug, Clone)]
pub enum FileContent {
    Static(&'static str),
    Dynamic(String),
    NavFile(String),
}

#[derive(Debug, Clone, Copy)]
pub struct Permissions {
    pub read: bool,
    pub write: bool,
    pub execute: bool,
    pub immutable: bool,
}

/// Size, ownership and times (seconds since the Unix epoch) of a node.
#[derive(Debug, Clone)]
pub struct NodeMetadata {
    pub size: u64,
    pub owner: String,
    pub group: String,
    pub created: i64,
    pub modified: i64,
}

#[derive(Debug, Clone)]
pub enum VfsError {
    NotFound,
    PermissionDenied,
    NotADirectory,
    NotAFile,
    AlreadyExists,
    QuotaExceeded,
    InvalidPath,
    SystemError(String),
}

/// One line of a directory listing.
#[derive(Debug, Clone)]
pub struct DirEntry {
    pub name: String,
    pub node_id: NodeId,
    pub is_directory: bool,
    pub is_executable: bool,
}

/// The filesystem as a mathematical object: the live nodes, the root, and
/// the depth of each node below the root.
pub struct FsModel {
    pub nodes: Map<NodeId, NodeRec>,
    pub root: NodeId,
    pub depth: Map<NodeId, nat>,
}

pub open spec fn is_dir(d: VfsNode) -> bool {
    d.node_type is Directory
}

impl FsModel {
    pub open spec fn live(self, n: NodeId) -> bool {
        self.nodes.contains_key(n)
    }

    pub open spec fn data(self, n: NodeId) -> VfsNode {
        self.nodes[n].data
    }

    pub open spec fn parent(self, n: NodeId) -> Option<NodeId> {
        self.nodes[n].parent
    }

    pub open spec fn children(self, n: NodeId) -> Seq<NodeId> {
        self.nodes[n].children
    }

    /// The tree is well formed: the root is a parentless directory, every
    /// other node hangs under a live parent one level deeper, parent and
    /// child links agree, no child is listed twice, only directories have
    /// children, and there are no links.
    pub open spec fn wf(self) -> bool {
        &&& self.live(self.root)
        &&& self.parent(self.root) is None
        &&& is_dir(self.data(self.root))
        &&& self.depth.dom() == self.nodes.dom()
        &&& self.depth[self.root] == 0
        &&& forall|n: NodeId|
            #![trigger self.nodes[n]]
            self.live(n) && n != self.root ==> {
                &&& self.parent(n) is Some
                &&& self.live(self.parent(n)->0)
                &&& self.children(self.parent(n)->0).contains(n)
                &&& self.depth[n] == self.depth[self.parent(n)->0] + 1
            }
        &&& forall|p: NodeId, i: int|
            #![trigger self.nodes[p].children[i]]
            self.live(p) && 0 <= i < self.children(p).len() ==> {
                &&& self.live(self.children(p)[i])
                &&& self.parent(self.children(p)[i]) == Some(p)
            }
        &&& forall|p: NodeId|
            #![trigger self.nodes[p]]
            self.live(p) ==> {
                &&& self.children(p).no_duplicates()
                &&& (!is_dir(self.data(p)) ==> self.children(p).len() == 0)
                &&& !(self.data(p).node_type is Link)
            }
    }
}

/// The first node among `cs[j..]` whose name is `name`.
pub open spec fn first_named_from(m: FsModel, cs: Seq<NodeId>, name: Seq<char>, j: int) -> Option<NodeId>
    decreases cs.len() - j,
{
    if j < 0 || j >= cs.len() {
        None
    } else if m.data(cs[j]).name@ == name {
        Some(cs[j])
    } else {
        first_named_from(m, cs, name, j + 1)
    }
}

/// The first child of `dir` named `name`.
pub open spec fn child_named(m: FsModel, dir: NodeId, name: Seq<char>) -> Option<NodeId> {
    first_named_from(m, m.children(dir), name, 0)
}

/// One step of a path walk: `.` stays, `..` goes to the parent (or stays at
/// a parentless node), any other name goes to the first child so named. A
/// node that was deleted has neither parent nor children.
pub open spec fn spec_step(m: FsModel, cur: NodeId, comp: Seq<char>) -> Result<NodeId, VfsError> {
    if comp == seq!['.'] {
        Ok(cur)
    } else if comp == seq!['.', '.'] {
        if m.live(cur) {
            match m.parent(cur) {
                Some(p) => Ok(p),
                None => Ok(cur),
            }
        } else {
            Ok(cur)
        }
    } else if m.live(cur) {
        match child_named(m, cur, comp) {
            Some(c) => Ok(c),
            None => Err(VfsError::NotFound),
        }
    } else {
        Err(VfsError::NotFound)
    }
}

/// The walk from `cur` along `comps[k..]`, stopping at the first failure.
pub open spec fn walk_from(m: FsModel, cur: NodeId, comps: Seq<Seq<char>>, k: int) -> Result<NodeId, VfsError>
    decreases comps.len() - k,
{
    if k < 0 || k >= comps.len() {
        Ok(cur)
    } else {
        match spec_step(m, cur, comps[k]) {
            Ok(n) => walk_from(m, n, comps, k + 1),
            Err(e) => Err(e),
        }
    }
}

/// Where the path `p` (no `~` left in it) leads from `cur`: the walk along
/// its non-empty `/`-separated components.
pub open spec fn resolve_from(m: FsModel, cur: NodeId, p: Seq<char>) -> Result<NodeId, VfsError> {
    walk_from(m, cur, split_nonempty(p, '/'), 0)
}

/// Where `path` leads from `base`: `""` and `"."` name `base`, `"~"` names
/// the root, a leading `"~/"` stands for `"/"`, a path starting with `/` is
/// walked from the root and any other from `base`.
pub open spec fn spec_resolve_path(m: FsModel, base: NodeId, path: Seq<char>) -> Result<NodeId, VfsError> {
    if path.len() == 0 || path == seq!['.'] {
        Ok(base)
    } else if path == seq!['~'] {
        Ok(m.root)
    } else {
        let e = if path.len() >= 2 && path[0] == '~' && path[1] == '/' {
            path.drop_first()
        } else {
            path
        };
        if e.len() > 0 && e[0] == '/' {
            resolve_from(m, m.root, e.drop_first())
        } else {
            resolve_from(m, base, e)
        }
    }
}

/// The current time in seconds since the Unix epoch, from
/// `chrono::Local::now().timestamp()`. Nothing is stated of the value: it
/// depends on the clock.
#[verifier::external_body]
pub(crate) fn now_timestamp() -> i64 {
    chrono::Local::now().timestamp()
}

pub open spec fn spec_default_permissions() -> Permissions {
    Permissions { read: true, write: true, execute: false, immutable: false }
}

impl Default for Permissions {
    fn default() -> (r: Self)
        ensures
            r == spec_default_permissions(),
    {
        Permissions { read: true, write: true, execute: false, immutable: false }
    }
}

impl Permissions {
    pub fn read_only() -> (r: Self)
        ensures
            r == (Permissions { read: true, write: false, execute: false, immutable: true }),
    {
        Permissions { read: true, write: false, execute: false, immutable: true }
    }

    pub fn executable() -> (r: Self)
        ensures
            r == (Permissions { read: true, write: false, execute: true, immutable: true }),
    {
        Permissions { read: true, write: false, execute: true, immutable: true }
    }

    /// Writable (files may be created inside) but immutable (cannot itself be
    /// deleted or moved).
    pub fn system_dir() -> (r: Self)
        ensures
            r == (Permissions { read: true, write: true, execute: true, immutable: true }),
    {
        Permissions { read: true, write: true, execute: true, immutable: true }
    }
}

impl Default for NodeMetadata {
    /// Size 0, owned by `hans:staff`, created and modified now.
    fn default() -> (r: Self)
        ensures
            r.size == 0,
            r.owner@ == "hans"@,
            r.group@ == "staff"@,
            r.created == r.modified,
    {
        let now = now_timestamp();
        NodeMetadata {
            size: 0,
            owner: String::from_str("hans"),
            group: String::from_str("staff"),
            created: now,
            modified: now,
        }
    }
}

impl FileContent {
    /// A copy of this content, equal to it.
    pub fn duplicate(&self) -> (r: FileContent)
        ensures
            r == *self,
    {
        match self {
            FileContent::Static(s) => FileContent::Static(s),
            FileContent::Dynamic(s) => FileContent::Dynamic(s.clone()),
            FileContent::NavFile(s) => FileContent::NavFile(s.clone()),
        }
    }
}

/// The size recorded for a file: the byte length of its text, or 512 for a
/// navigation file.
pub open spec fn content_size(c: FileContent) -> u64 {
    match c {
        FileContent::Static(s) => (encode_utf8(s@).len() as usize) as u64,
        FileContent::Dynamic(s) => (encode_utf8(s@).len() as usize) as u64,
        FileContent::NavFile(_) => 512,
    }
}

pub fn file_size(content: &FileContent) -> (r: u64)
    ensures
        r == content_size(*content),
{
    match content {
        FileContent::Static(s) => s.len() as u64,
        FileContent::Dynamic(s) => s.as_str().len() as u64,
        FileContent::NavFile(_) => 512,
    }
}

/// A node made by a user: default permissions, owned by `user:user`.
pub open spec fn is_user_node(d: VfsNode, name: Seq<char>, t: VfsNodeType, size: u64) -> bool {
    &&& d.name@ == name
    &&& d.node_type == t
    &&& d.permissions == spec_default_permissions()
    &&& d.metadata.size == size
    &&& d.metadata.owner@ == "user"@
    &&& d.metadata.group@ == "user"@
    &&& d.metadata.created == d.metadata.modified
}

/// A node made by the system itself for the site's structure.
pub open spec fn is_system_node(d: VfsNode, name: Seq<char>, t: VfsNodeType, p: Permissions, size: u64, group: Seq<char>) -> bool {
    &&& d.name@ == name
    &&& d.node_type == t
    &&& d.permissions == p
    &&& d.metadata.size == size
    &&& d.metadata.owner@ == "hans"@
    &&& d.metadata.group@ == group
    &&& d.metadata.created == d.metadata.modified
}

/// `m` with a new leaf `id` holding `d` appended as the last child of `p`.
pub open spec fn with_child(m: FsModel, p: NodeId, id: NodeId, d: VfsNode) -> FsModel {
    FsModel {
        nodes: m.nodes.insert(id, NodeRec { data: d, parent: Some(p), children: Seq::empty() }).insert(
            p,
            NodeRec { children: m.children(p).push(id), ..m.nodes[p] },
        ),
        root: m.root,
        depth: m.depth.insert(id, m.depth[p] + 1),
    }
}

/// Why a node named `name` cannot be made under `parent`, if it cannot.
pub open spec fn create_error(m: FsModel, parent: NodeId, name: Seq<char>) -> Option<VfsError> {
    if !m.live(parent) {
        Some(VfsError::NotFound)
    } else if !m.data(parent).permissions.write {
        Some(VfsError::PermissionDenied)
    } else if !is_dir(m.data(parent)) {
        Some(VfsError::NotADirectory)
    } else if child_named(m, parent, name) is Some {
        Some(VfsError::AlreadyExists)
    } else {
        None
    }
}

/// What reading node `n` gives: its text, or why it cannot be read.
pub open spec fn spec_read_file(m: FsModel, n: NodeId) -> Result<Seq<char>, VfsError> {
    if !m.live(n) {
        Err(VfsError::NotFound)
    } else if !m.data(n).permissions.read {
        Err(VfsError::PermissionDenied)
    } else {
        match m.data(n).node_type {
            VfsNodeType::File { content } => match content {
                FileContent::Static(s) => Ok(s@),
                FileContent::Dynamic(s) => Ok(s@),
                FileContent::NavFile(p) => Ok(spec_nav_content(p@)),
            },
            // Links do not occur in a well-formed tree.
            _ => Err(VfsError::NotAFile),
        }
    }
}

pub proof fn lemma_with_child_wf(m: FsModel, p: NodeId, id: NodeId, d: VfsNode)
    requires
        m.wf(),
        m.live(p),
        is_dir(m.data(p)),
        !m.live(id),
        !(d.node_type is Link),
    ensures
        with_child(m, p, id, d).wf(),
        with_child(m, p, id, d).live(id),
        with_child(m, p, id, d).data(id) == d,
{
    let m2 = with_child(m, p, id, d);
    assert(m2.depth.dom() =~= m2.nodes.dom());
    assert forall|n: NodeId| #![trigger m2.nodes[n]] m2.live(n) && n != m2.root implies {
        &&& m2.parent(n) is Some
        &&& m2.live(m2.parent(n)->0)
        &&& m2.children(m2.parent(n)->0).contains(n)
        &&& m2.depth[n] == m2.depth[m2.parent(n)->0] + 1
    } by {
        if n == id {
            assert(m2.children(p)[m.children(p).len() as int] == id);
        } else if n == p {
            let q = m.parent(p)->0;
            assert(m.children(q).contains(p));
            if q == p {
                assert(m.depth[p] == m.depth[p] + 1);
            }
            let k = choose|k: int| 0 <= k < m.children(q).len() && m.children(q)[k] == p;
            assert(m2.children(q)[k] == p);
        } else {
            let q = m.parent(n)->0;
            assert(m.nodes[n] == m2.nodes[n]);
            let k = choose|k: int| 0 <= k < m.children(q).len() && m.children(q)[k] == n;
            assert(m.live(q));
            if q == p {
                assert(m2.children(q)[k] == n);
            } else {
                assert(m2.children(q)[k] == n);
            }
        }
    }
    assert forall|q: NodeId, i: int|
        #![trigger m2.nodes[q].children[i]]
        m2.live(q) && 0 <= i < m2.children(q).len() implies {
            &&& m2.live(m2.children(q)[i])
            &&& m2.parent(m2.children(q)[i]) == Some(q)
        } by {
        if q == p {
            if i < m.children(p).len() {
                let c = m.children(p)[i];
                assert(m.nodes[p].children[i] == c);
                assert(c != id);
            }
        } else if q != id {
            let c = m.children(q)[i];
            assert(m.nodes[q].children[i] == c);
            assert(c != id);
            if c == p {
                assert(m.parent(p) == Some(q));
            }
        }
    }
    assert forall|q: NodeId| #![trigger m2.nodes[q]] m2.live(q) implies {
        &&& m2.children(q).no_duplicates()
        &&& (!is_dir(m2.data(q)) ==> m2.children(q).len() == 0)
        &&& !(m2.data(q).node_type is Link)
    } by {
        if q == p {
            assert(m.nodes[p].children.no_duplicates());
            assert forall|i: int| 0 <= i < m.children(p).len() implies m2.children(p)[i] != id by {
                assert(m.nodes[p].children[i] == m.children(p)[i]);
            }
        } else if q != id {
            assert(m.nodes[q] == m2.nodes[q]);
        }
    }
}

/// `x` is `a` or lies below `a`.
pub open spec fn descends(m: FsModel, x: NodeId, a: NodeId) -> bool
    decreases m.depth[x],
{
    if x == a {
        true
    } else {
        match m.parent(x) {
            Some(p) => if m.depth[p] < m.depth[x] {
                descends(m, p, a)
            } else {
                false
            },
            None => false,
        }
    }
}

/// The nodes that `gone` does not pick.
pub open spec fn keep(gone: spec_fn(NodeId) -> bool) -> spec_fn(NodeId) -> bool {
    |c: NodeId| !gone(c)
}

/// `b` is `a` with the nodes that `gone` picks taken out: every other node
/// keeps its data, parent and depth, and its child list loses the nodes
/// taken out.
pub open spec fn pruned(a: FsModel, b: FsModel, gone: spec_fn(NodeId) -> bool) -> bool {
    &&& b.root == a.root
    &&& b.depth.dom() == b.nodes.dom()
    &&& forall|x: NodeId| #[trigger] b.live(x) <==> a.live(x) && !gone(x)
    &&& forall|x: NodeId|
        #![trigger b.nodes[x]]
        b.live(x) ==> {
            &&& b.data(x) == a.data(x)
            &&& b.parent(x) == a.parent(x)
            &&& b.children(x) == a.children(x).filter(keep(gone))
            &&& b.depth[x] == a.depth[x]
        }
}

/// Every element of a filtered sequence is one of the original's and
/// satisfies the predicate; every element that satisfies it stays.
pub proof fn lemma_filter_facts(s: Seq<NodeId>, pred: spec_fn(NodeId) -> bool)
    ensures
        forall|i: int| 0 <= i < s.filter(pred).len() ==> s.contains(#[trigger] s.filter(pred)[i]),
        forall|i: int| 0 <= i < s.filter(pred).len() ==> pred(#[trigger] s.filter(pred)[i]),
        forall|i: int| 0 <= i < s.len() && pred(s[i]) ==> #[trigger] s.filter(pred).contains(s[i]),
        s.filter(pred).len() <= s.len(),
    decreases s.len(),
{
    reveal(Seq::filter);
    #[allow(deprecated)]
    s.filter_lemma(pred);
    if s.len() > 0 {
        let init = s.drop_last();
        lemma_filter_facts(init, pred);
        let f = s.filter(pred);
        assert forall|i: int| 0 <= i < f.len() implies s.contains(#[trigger] f[i]) by {
            let fi = init.filter(pred);
            if i < fi.len() {
                assert(f[i] == fi[i]);
                assert(init.contains(fi[i]));
                let k = choose|k: int| 0 <= k < init.len() && init[k] == fi[i];
                assert(s[k] == init[k]);
            } else {
                assert(f[i] == s.last());
                assert(s[s.len() - 1] == s.last());
            }
        }
    }
}

pub proof fn lemma_filter_all(s: Seq<NodeId>, pred: spec_fn(NodeId) -> bool)
    requires
        forall|i: int| 0 <= i < s.len() ==> pred(s[i]),
    ensures
        s.filter(pred) == s,
    decreases s.len(),
{
    reveal(Seq::filter);
    if s.len() > 0 {
        lemma_filter_all(s.drop_last(), pred);
        assert(s.drop_last().push(s.last()) =~= s);
    } else {
        assert(s.filter(pred) =~= s);
    }
}

pub proof fn lemma_filter_no_duplicates(s: Seq<NodeId>, pred: spec_fn(NodeId) -> bool)
    requires
        s.no_duplicates(),
    ensures
        s.filter(pred).no_duplicates(),
    decreases s.len(),
{
    reveal(Seq::filter);
    if s.len() > 0 {
        let init = s.drop_last();
        assert(init.no_duplicates());
        lemma_filter_no_duplicates(init, pred);
        lemma_filter_facts(init, pred);
        if pred(s.last()) {
            let f = init.filter(pred);
            assert(s.filter(pred) =~= f.push(s.last()));
            assert forall|i: int| 0 <= i < f.len() implies f[i] != s.last() by {
                assert(init.contains(f[i]));
                let k = choose|k: int| 0 <= k < init.len() && init[k] == f[i];
                assert(s[k] == init[k]);
            }
        }
    }
}

/// Taking out a set of nodes that holds, with each node, every node below
/// it, and does not hold the root, leaves a well-formed tree.
pub proof fn lemma_pruned_wf(a: FsModel, b: FsModel, gone: spec_fn(NodeId) -> bool)
    requires
        a.wf(),
        pruned(a, b, gone),
        !gone(a.root),
        forall|x: NodeId, y: NodeId|
            #![trigger gone(x), a.nodes[y]]
            a.live(y) && a.parent(y) == Some(x) && gone(x) ==> gone(y),
    ensures
        b.wf(),
{
    assert(b.live(b.root));
    assert forall|n: NodeId| #![trigger b.nodes[n]] b.live(n) && n != b.root implies {
        &&& b.parent(n) is Some
        &&& b.live(b.parent(n)->0)
        &&& b.children(b.parent(n)->0).contains(n)
        &&& b.depth[n] == b.depth[b.parent(n)->0] + 1
    } by {
        assert(a.live(n) && !gone(n));
        let p = a.parent(n)->0;
        assert(a.nodes[n].parent == Some(p));
        if gone(p) {
            assert(gone(n));
        }
        assert(b.live(p));
        let k = choose|k: int| 0 <= k < a.children(p).len() && a.children(p)[k] == n;
        lemma_filter_facts(a.children(p), keep(gone));
        assert(keep(gone)(n));
        assert(a.children(p).filter(keep(gone)).contains(a.children(p)[k]));
    }
    assert forall|q: NodeId, i: int|
        #![trigger b.nodes[q].children[i]]
        b.live(q) && 0 <= i < b.children(q).len() implies {
            &&& b.live(b.children(q)[i])
            &&& b.parent(b.children(q)[i]) == Some(q)
        } by {
        let f = a.children(q).filter(keep(gone));
        lemma_filter_facts(a.children(q), keep(gone));
        let c = f[i];
        assert(a.children(q).contains(c));
        assert(keep(gone)(c));
        let k = choose|k: int| 0 <= k < a.children(q).len() && a.children(q)[k] == c;
        assert(a.nodes[q].children[k] == c);
        assert(b.live(c));
        assert(b.nodes[c].parent == a.nodes[c].parent);
    }
    assert forall|q: NodeId| #![trigger b.nodes[q]] b.live(q) implies {
        &&& b.children(q).no_duplicates()
        &&& (!is_dir(b.data(q)) ==> b.children(q).len() == 0)
        &&& !(b.data(q).node_type is Link)
    } by {
        assert(a.nodes[q].children.no_duplicates());
        lemma_filter_no_duplicates(a.children(q), keep(gone));
        lemma_filter_facts(a.children(q), keep(gone));
    }
}

/// The nodes live in `a` and no longer live in `b`.
/// The node `n` alone.
pub open spec fn just(n: NodeId) -> spec_fn(NodeId) -> bool {
    |x: NodeId| x == n
}

pub open spec fn lost(a: FsModel, b: FsModel) -> spec_fn(NodeId) -> bool {
    |x: NodeId| a.live(x) && !b.live(x)
}

/// Some immutable node lies at or below `n`.
pub open spec fn has_immutable_below(m: FsModel, n: NodeId) -> bool {
    exists|x: NodeId| #[trigger] m.live(x) && descends(m, x, n) && m.data(x).permissions.immutable
}

/// `x` lies at or below one of `cs[0..j]`.
pub open spec fn in_first(m: FsModel, cs: Seq<NodeId>, j: int, x: NodeId) -> bool {
    exists|i: int| 0 <= i < j && #[trigger] descends(m, x, cs[i])
}

pub proof fn lemma_descends_depth(m: FsModel, x: NodeId, a: NodeId)
    requires
        descends(m, x, a),
    ensures
        m.depth[x] >= m.depth[a],
        m.depth[x] == m.depth[a] ==> x == a,
    decreases m.depth[x],
{
    if x != a {
        let p = m.parent(x)->0;
        lemma_descends_depth(m, p, a);
    }
}

pub proof fn lemma_descends_trans(m: FsModel, x: NodeId, y: NodeId, z: NodeId)
    requires
        descends(m, x, y),
        descends(m, y, z),
    ensures
        descends(m, x, z),
    decreases m.depth[x],
{
    if x != y {
        let p = m.parent(x)->0;
        lemma_descends_trans(m, p, y, z);
    }
}

/// A child of `node` lies at or below `node`.
pub proof fn lemma_child_descends(m: FsModel, node: NodeId, c: NodeId)
    requires
        m.wf(),
        m.live(c),
        c != m.root,
        m.parent(c) == Some(node),
    ensures
        descends(m, c, node),
{
    assert(m.nodes[c].parent == Some(node));
    assert(descends(m, node, node));
}

/// A node strictly below `node` lies at or below one of its children.
pub proof fn lemma_descends_child(m: FsModel, x: NodeId, node: NodeId) -> (j: int)
    requires
        m.wf(),
        m.live(x),
        descends(m, x, node),
        x != node,
    ensures
        0 <= j < m.children(node).len(),
        descends(m, x, m.children(node)[j]),
    decreases m.depth[x],
{
    let p = m.parent(x)->0;
    assert(m.nodes[x].parent == Some(p));
    if x == m.root {
        assert(false);
    }
    if p == node {
        let j = choose|j: int| 0 <= j < m.children(node).len() && m.children(node)[j] == x;
        j
    } else {
        let j = lemma_descends_child(m, p, node);
        let c = m.children(node)[j];
        assert(descends(m, p, p));
        assert(descends(m, x, p));
        lemma_descends_trans(m, x, p, c);
        j
    }
}

/// Taking nodes out does not change what lies below what among the nodes
/// that stay.
pub proof fn lemma_descends_frame(a: FsModel, b: FsModel, g: spec_fn(NodeId) -> bool, x: NodeId, y: NodeId)
    requires
        a.wf(),
        b.wf(),
        pruned(a, b, g),
        b.live(x),
    ensures
        descends(b, x, y) == descends(a, x, y),
    decreases a.depth[x],
{
    assert(b.nodes[x] == b.nodes[x]);
    if x != y {
        if x != b.root {
            let p = b.parent(x)->0;
            assert(b.nodes[p] == b.nodes[p]);
            lemma_descends_frame(a, b, g, p, y);
        }
    }
}

pub proof fn lemma_filter_congruent(s: Seq<NodeId>, p1: spec_fn(NodeId) -> bool, p2: spec_fn(NodeId) -> bool)
    requires
        forall|i: int| 0 <= i < s.len() ==> p1(s[i]) == p2(s[i]),
    ensures
        s.filter(p1) == s.filter(p2),
    decreases s.len(),
{
    reveal(Seq::filter);
    if s.len() > 0 {
        lemma_filter_congruent(s.drop_last(), p1, p2);
        assert(p1(s[s.len() - 1]) == p2(s[s.len() - 1]));
    }
}

pub proof fn lemma_filter_filter(
    s: Seq<NodeId>,
    p1: spec_fn(NodeId) -> bool,
    p2: spec_fn(NodeId) -> bool,
    p3: spec_fn(NodeId) -> bool,
)
    requires
        forall|i: int| 0 <= i < s.len() ==> p3(s[i]) == (p1(s[i]) && p2(s[i])),
    ensures
        s.filter(p1).filter(p2) == s.filter(p3),
    decreases s.len(),
{
    reveal(Seq::filter);
    if s.len() > 0 {
        let init = s.drop_last();
        lemma_filter_filter(init, p1, p2, p3);
        let l = s[s.len() - 1];
        assert(p3(l) == (p1(l) && p2(l)));
        if p1(l) {
            assert(s.filter(p1) == init.filter(p1).push(l));
            assert(s.filter(p1).drop_last() =~= init.filter(p1));
        }
    }
}

/// Taking nodes out twice is taking out those lost on the way.
pub proof fn lemma_pruned_trans(a: FsModel, b: FsModel, c: FsModel, g: spec_fn(NodeId) -> bool, h: spec_fn(NodeId) -> bool)
    requires
        a.wf(),
        pruned(a, b, g),
        pruned(b, c, h),
    ensures
        pruned(a, c, lost(a, c)),
{
    assert forall|x: NodeId| #[trigger] c.live(x) <==> a.live(x) && !lost(a, c)(x) by {
        if c.live(x) {
            assert(b.live(x));
        }
    }
    assert forall|x: NodeId| #![trigger c.nodes[x]] c.live(x) implies {
        &&& c.data(x) == a.data(x)
        &&& c.parent(x) == a.parent(x)
        &&& c.children(x) == a.children(x).filter(keep(lost(a, c)))
        &&& c.depth[x] == a.depth[x]
    } by {
        assert(b.live(x));
        assert(b.nodes[x] == b.nodes[x]);
        let s = a.children(x);
        assert forall|i: int| 0 <= i < s.len() implies keep(lost(a, c))(s[i]) == (keep(g)(s[i]) && keep(h)(s[i])) by {
            assert(a.nodes[x].children[i] == s[i]);
            assert(a.live(s[i]));
            assert(c.live(s[i]) == (b.live(s[i]) && !h(s[i])));
            assert(b.live(s[i]) == (a.live(s[i]) && !g(s[i])));
        }
        lemma_filter_filter(s, keep(g), keep(h), keep(lost(a, c)));
    }
}

impl Keyed for DirEntry {
    open spec fn key(&self) -> Seq<char> {
        self.name@
    }

    fn key_str(&self) -> (r: &str) {
        self.name.as_str()
    }
}

/// `e` is the listing line of node `c`.
pub open spec fn describes(m: FsModel, e: DirEntry, c: NodeId) -> bool {
    &&& e.node_id == c
    &&& e.name@ == m.data(c).name@
    &&& e.is_directory == is_dir(m.data(c))
    &&& e.is_executable == m.data(c).permissions.execute
}

/// The listing line of node `c`.
pub open spec fn entry_of(m: FsModel, c: NodeId) -> DirEntry {
    DirEntry {
        name: m.data(c).name,
        node_id: c,
        is_directory: is_dir(m.data(c)),
        is_executable: m.data(c).permissions.execute,
    }
}

pub open spec fn entry_fn(m: FsModel) -> spec_fn(NodeId) -> DirEntry {
    |c: NodeId| entry_of(m, c)
}

/// The listing of directory `n`: the lines of its children, sorted by name,
/// children with the same name in the order they were made.
pub open spec fn spec_listing(m: FsModel, n: NodeId) -> Seq<DirEntry> {
    stable_sort(m.children(n).map_values(entry_fn(m)), key_of::<DirEntry>())
}

/// `es` lists the children of `n`, one line each, sorted by name.
pub open spec fn lists(m: FsModel, n: NodeId, es: Seq<DirEntry>) -> bool {
    &&& es.len() == m.children(n).len()
    &&& sorted_by_key(es)
    &&& forall|i: int| 0 <= i < es.len() ==> describes(m, #[trigger] es[i], es[i].node_id) && m.children(n).contains(es[i].node_id)
    &&& forall|c: NodeId| #[trigger] m.children(n).contains(c) ==> exists|i: int| 0 <= i < es.len() && #[trigger] es[i].node_id == c
}

/// Why node `n` cannot be listed, if it cannot.
pub open spec fn list_error(m: FsModel, n: NodeId) -> Option<VfsError> {
    if !m.live(n) {
        Some(VfsError::NotFound)
    } else if !m.data(n).permissions.read {
        Some(VfsError::PermissionDenied)
    } else if !is_dir(m.data(n)) {
        Some(VfsError::NotADirectory)
    } else {
        None
    }
}

/// The names on the way from the root down to `n`, the root's own name left
/// out and empty names skipped.
pub open spec fn path_names(m: FsModel, n: NodeId) -> Seq<Seq<char>>
    decreases m.depth[n],
{
    match m.parent(n) {
        Some(p) => if m.depth[p] < m.depth[n] {
            let pre = path_names(m, p);
            if m.data(n).name@.len() == 0 {
                pre
            } else {
                pre.push(m.data(n).name@)
            }
        } else {
            Seq::empty()
        },
        None => Seq::empty(),
    }
}

/// `parts` joined with `sep` between each two.
pub open spec fn join_with(parts: Seq<Seq<char>>, sep: Seq<char>) -> Seq<char>
    decreases parts.len(),
{
    if parts.len() == 0 {
        Seq::empty()
    } else if parts.len() == 1 {
        parts[0]
    } else {
        join_with(parts.drop_last(), sep) + sep + parts.last()
    }
}

/// The absolute path of `n`: `/` followed by the names on the way down,
/// separated by `/`; the root's path is `/`.
pub open spec fn spec_node_path(m: FsModel, n: NodeId) -> Seq<char> {
    let parts = path_names(m, n);
    if parts.len() == 0 {
        "/"@
    } else {
        "/"@ + join_with(parts, "/"@)
    }
}

pub open spec fn read_only_perms() -> Permissions {
    Permissions { read: true, write: false, execute: false, immutable: true }
}

pub open spec fn executable_perms() -> Permissions {
    Permissions { read: true, write: false, execute: true, immutable: true }
}

pub open spec fn system_dir_perms() -> Permissions {
    Permissions { read: true, write: true, execute: true, immutable: true }
}

/// A directory of the site's own structure.
pub open spec fn is_system_dir(d: VfsNode, name: Seq<char>) -> bool {
    is_system_node(d, name, VfsNodeType::Directory, system_dir_perms(), 4096, "staff"@)
}

/// A file of the site's own structure: executable ones belong to group
/// `wheel`, the others are read-only and belong to `staff`.
pub open spec fn is_system_file(d: VfsNode, name: Seq<char>, content: FileContent, executable: bool) -> bool {
    is_system_node(
        d,
        name,
        VfsNodeType::File { content: content },
        if executable { executable_perms() } else { read_only_perms() },
        content_size(content),
        if executable { "wheel"@ } else { "staff"@ },
    )
}

/// A `nav.rs` file that navigates to `target`.
pub open spec fn is_nav_file(d: VfsNode, target: Seq<char>) -> bool {
    &&& d.node_type matches VfsNodeType::File { content: FileContent::NavFile(t) } && t@ == target
    &&& d.name@ == "nav.rs"@
    &&& d.permissions == executable_perms()
    &&& d.metadata.size == 512
    &&& d.metadata.owner@ == "hans"@
    &&& d.metadata.group@ == "wheel"@
    &&& d.metadata.created == d.metadata.modified
}

/// The tree a new filesystem starts with, for the given blog posts:
/// `/blog` (a `nav.rs`, then one directory per post holding a `nav.rs`),
/// `/cv` (a `nav.rs`), `/mines.sh`, `/thanks.txt`, `/.zshrc` and `/nav.rs`.
pub open spec fn initial_layout(m: FsModel, posts: Seq<Seq<char>>) -> bool {
    let rc = m.children(m.root);
    let blog = rc[0];
    let cv = rc[1];
    &&& is_system_node(m.data(m.root), Seq::empty(), VfsNodeType::Directory, spec_default_permissions(), 4096, "staff"@)
    &&& rc.len() == 6
    &&& is_system_dir(m.data(blog), "blog"@)
    &&& is_system_dir(m.data(cv), "cv"@)
    &&& is_system_file(m.data(rc[2]), "mines.sh"@, FileContent::Static(MINES_SH), true)
    &&& is_system_file(m.data(rc[3]), "thanks.txt"@, FileContent::Static(THANKS_TXT), false)
    &&& is_system_file(m.data(rc[4]), ".zshrc"@, FileContent::Static(ZSHRC_CONTENT), false)
    &&& is_nav_file(m.data(rc[5]), "/"@)
    &&& m.children(blog).len() == posts.len() + 1
    &&& is_nav_file(m.data(m.children(blog)[0]), "/blog"@)
    &&& forall|i: int|
        0 <= i < posts.len() ==> {
            let d = #[trigger] m.children(blog)[i + 1];
            &&& is_system_dir(m.data(d), posts[i])
            &&& m.children(d).len() == 1
            &&& is_nav_file(m.data(m.children(d)[0]), "/blog/"@ + posts[i])
        }
    &&& m.children(cv).len() == 1
    &&& is_nav_file(m.data(m.children(cv)[0]), "/cv"@)
}

/// `c` when `b` holds, `-` otherwise.
pub open spec fn flag(b: bool, c: char) -> Seq<char> {
    if b {
        seq![c]
    } else {
        seq!['-']
    }
}

/// The `rwx` triple of a node's permissions.
pub open spec fn spec_rwx(p: Permissions) -> Seq<char> {
    flag(p.read, 'r') + flag(p.write, 'w') + flag(p.execute, 'x')
}

/// The mode column of `ls -l`: `d` or `-`, then the same `rwx` triple for
/// owner, group and others.
pub open spec fn spec_mode_string(d: VfsNode) -> Seq<char> {
    flag(is_dir(d), 'd') + spec_rwx(d.permissions) + spec_rwx(d.permissions) + spec_rwx(d.permissions)
}

/// The `ls -l` columns before the name: mode, link count (width 2, right),
/// owner and group (width 6, left), size (width 6, right), each followed by
/// a space.
pub open spec fn spec_long_meta(d: VfsNode, link_count: nat) -> Seq<char> {
    spec_mode_string(d) + " "@ + pad_left(spec_decimal(link_count), 2) + " "@ + pad_right(d.metadata.owner@, 6) + " "@
        + pad_right(d.metadata.group@, 6) + " "@ + pad_left(spec_decimal(d.metadata.size as nat), 6) + " "@
}

fn flag_str(b: bool, c: &'static str) -> (r: &'static str)
    ensures
        r@ == (if b { c@ } else { "-"@ }),
{
    if b { c } else { "-" }
}

impl VfsNode {
    pub fn long_meta_string(&self, link_count: usize) -> (r: String)
        ensures
            r@ == spec_long_meta(*self, link_count as nat),
    {
        let is_directory = matches!(self.node_type, VfsNodeType::Directory);
        let mut mode = String::from_str(flag_str(is_directory, "d"));
        proof {
            reveal_strlit("d");
            reveal_strlit("-");
            assert(flag(is_dir(*self), 'd') == (if is_directory { "d"@ } else { "-"@ }));
            assert(mode@ =~= flag(is_dir(*self), 'd') + Seq::empty());
        }
        let mut k: usize = 0;
        while k < 3
            invariant
                k <= 3,
                mode@ == flag(is_dir(*self), 'd') + (if k == 0 { Seq::empty() } else if k == 1 { spec_rwx(self.permissions) } else if k == 2 { spec_rwx(self.permissions) + spec_rwx(self.permissions) } else { spec_rwx(self.permissions) + spec_rwx(self.permissions) + spec_rwx(self.permissions) }),
                is_directory == is_dir(*self),
            decreases 3 - k,
        {
            proof {
                reveal_strlit("r");
                reveal_strlit("w");
                reveal_strlit("x");
                reveal_strlit("-");
            }
            mode.append(flag_str(self.permissions.read, "r"));
            mode.append(flag_str(self.permissions.write, "w"));
            mode.append(flag_str(self.permissions.execute, "x"));
            assert(flag(self.permissions.read, 'r') == (if self.permissions.read { "r"@ } else { "-"@ }));
            assert(flag(self.permissions.write, 'w') == (if self.permissions.write { "w"@ } else { "-"@ }));
            assert(flag(self.permissions.execute, 'x') == (if self.permissions.execute { "x"@ } else { "-"@ }));
            k = k + 1;
        }
        proof {
            reveal_strlit("d");
            reveal_strlit("-");
            assert(flag(is_dir(*self), 'd') == (if is_directory { "d"@ } else { "-"@ }));
        }
        let mut r = mode;
        r.append(" ");
        let lc = decimal(link_count as u64);
        r.append(padded_left(lc.as_str(), 2).as_str());
        r.append(" ");
        r.append(padded_right(self.metadata.owner.as_str(), 6).as_str());
        r.append(" ");
        r.append(padded_right(self.metadata.group.as_str(), 6).as_str());
        r.append(" ");
        let sz = decimal(self.metadata.size);
        r.append(padded_left(sz.as_str(), 6).as_str());
        r.append(" ");
        proof {
            assert(r@ =~= spec_long_meta(*self, link_count as nat));
        }
        r
    }

    /// A copy of this node, equal to it field by field.
    pub fn duplicate(&self) -> (r: VfsNode)
        ensures
            r == *self,
    {
        let node_type = match &self.node_type {
            VfsNodeType::Directory => VfsNodeType::Directory,
            VfsNodeType::File { content } => VfsNodeType::File { content: content.duplicate() },
            VfsNodeType::Link { target } => VfsNodeType::Link { target: target.clone() },
        };
        VfsNode {
            name: self.name.clone(),
            node_type,
            permissions: self.permissions,
            metadata: NodeMetadata {
                size: self.metadata.size,
                owner: self.metadata.owner.clone(),
                group: self.metadata.group.clone(),
                created: self.metadata.created,
                modified: self.metadata.modified,
            },
        }
    }

    pub fn is_directory(&self) -> (r: bool)
        ensures
            r == is_dir(*self),
    {
        matches!(self.node_type, VfsNodeType::Directory)
    }

    pub fn is_executable(&self) -> (r: bool)
        ensures
            r == self.permissions.execute,
    {
        self.permissions.execute
    }

    /// Names starting with `.` are hidden.
    pub fn is_hidden(&self) -> (r: bool)
        ensures
            r == (self.name@.len() > 0 && self.name@[0] == '.'),
    {
        let s = self.name.as_str();
        s.unicode_len() > 0 && s.get_char(0) == '.'
    }
}

/// A tree-structured in-memory filesystem.
pub struct VirtualFilesystem {
    arena: Arena<VfsNode>,
    root: NodeId,
    depth: Ghost<Map<NodeId, nat>>,
    /// A bound above every depth in the tree.
    limit: Ghost<nat>,
}

impl View for VirtualFilesystem {
    type V = FsModel;

    closed spec fn view(&self) -> FsModel {
        FsModel { nodes: arena_nodes(self.arena), root: self.root, depth: self.depth@ }
    }
}

impl VirtualFilesystem {
    /// The tree is well formed (see `FsModel::wf`).
    pub closed spec fn wf(&self) -> bool {
        &&& self@.wf()
        &&& forall|n: NodeId| #[trigger] self@.depth.contains_key(n) ==> self@.depth[n] < self.limit@
    }

    pub proof fn lemma_wf(&self)
        requires
            self.wf(),
        ensures
            self@.wf(),
            forall|n: NodeId| #[trigger] self@.live(n) ==> self@.depth[n] < self.depth_bound(),
    {
    }

    /// A number above the depth of every node.
    pub closed spec fn depth_bound(&self) -> nat {
        self.limit@
    }

    /// A filesystem holding the site's structure, with one directory under
    /// `/blog` for each post.
    pub fn new(blog_posts: Vec<String>) -> (r: Self)
        ensures
            r.wf(),
            initial_layout(r@, blog_posts@.map_values(|p: String| p@)),
    {
        let now = now_timestamp();
        let root_node = VfsNode {
            name: String::new(),
            node_type: VfsNodeType::Directory,
            permissions: Permissions::default(),
            metadata: NodeMetadata {
                size: 4096,
                owner: String::from_str("hans"),
                group: String::from_str("staff"),
                created: now,
                modified: now,
            },
        };
        let mut arena = arena_new();
        let root = arena_new_node(&mut arena, root_node);
        let mut vfs = VirtualFilesystem {
            arena,
            root,
            depth: Ghost(Map::empty().insert(root, 0nat)),
            limit: Ghost(1),
        };
        proof {
            assert(vfs@.depth.dom() =~= vfs@.nodes.dom());
            assert forall|n: NodeId| #![trigger vfs@.nodes[n]] vfs@.live(n) implies vfs@.children(n).no_duplicates() by {}
        }
        vfs.initialize_system_structure(blog_posts);
        vfs
    }

    fn initialize_system_structure(&mut self, blog_posts: Vec<String>)
        requires
            old(self).wf(),
            old(self)@.children(old(self)@.root).len() == 0,
            is_system_node(old(self)@.data(old(self)@.root), Seq::empty(), VfsNodeType::Directory, spec_default_permissions(), 4096, "staff"@),
        ensures
            final(self).wf(),
            initial_layout(final(self)@, blog_posts@.map_values(|p: String| p@)),
    {
        let ghost posts = blog_posts@.map_values(|p: String| p@);
        let root = self.root;
        let blog_id = self.create_system_directory_in("blog", root);
        let cv_id = self.create_system_directory_in("cv", root);
        self.create_system_file_in("mines.sh", FileContent::Static(MINES_SH), true, root);
        self.create_system_file_in("thanks.txt", FileContent::Static(THANKS_TXT), false, root);
        self.create_system_file_in(".zshrc", FileContent::Static(ZSHRC_CONTENT), false, root);
        self.create_system_file_in("nav.rs", FileContent::NavFile(String::from_str("/")), true, root);
        self.create_system_file_in("nav.rs", FileContent::NavFile(String::from_str("/blog")), true, blog_id);
        let ghost after_root = self@;
        let ghost mut dirs: Seq<NodeId> = Seq::empty();
        proof {
            assert(after_root.children(root).len() == 6);
            assert(after_root.children(root)[0] == blog_id);
            assert(after_root.children(root)[1] == cv_id);
            assert(after_root.children(blog_id).len() == 1);
            assert(after_root.parent(blog_id) == Some(root));
            assert(after_root.children(blog_id) + dirs =~= after_root.children(blog_id));
        }
        let mut i: usize = 0;
        while i < blog_posts.len()
            invariant
                self.wf(),
                self@.root == root,
                posts == blog_posts@.map_values(|p: String| p@),
                i <= blog_posts.len(),
                dirs.len() == i,
                after_root.live(blog_id),
                blog_id != cv_id,
                forall|x: NodeId| #[trigger] after_root.live(x) && x != blog_id ==> self@.live(x) && self@.nodes[x] == after_root.nodes[x],
                self@.live(blog_id),
                self@.data(blog_id) == after_root.data(blog_id),
                is_dir(after_root.data(blog_id)),
                self@.parent(blog_id) == Some(root),
                after_root.live(root),
                self@.children(blog_id) == after_root.children(blog_id) + dirs,
                forall|k: int| 0 <= k < i ==> {
                    let d = #[trigger] dirs[k];
                    &&& self@.live(d)
                    &&& !after_root.live(d)
                    &&& is_system_dir(self@.data(d), posts[k])
                    &&& self@.children(d).len() == 1
                    &&& is_nav_file(self@.data(self@.children(d)[0]), "/blog/"@ + posts[k])
                },
            decreases blog_posts.len() - i,
        {
            let ghost before = self@;
            let post = &blog_posts[i];
            let post_dir_id = self.create_system_directory_in(post.as_str(), blog_id);
            let ghost mid = self@;
            let mut post_path = String::from_str("/blog/");
            post_path.append(post.as_str());
            let nav_id = self.create_system_file_in("nav.rs", FileContent::NavFile(post_path), true, post_dir_id);
            proof {
                let after = self@;
                assert(posts[i as int] == post@);
                assert forall|x: NodeId| #[trigger] before.live(x) && x != blog_id implies after.live(x) && after.nodes[x] == before.nodes[x] by {
                    assert(x != post_dir_id);
                }
                assert forall|x: NodeId| #[trigger] after_root.live(x) && x != blog_id implies self@.live(x) && self@.nodes[x] == after_root.nodes[x] by {
                    assert(before.live(x) && before.nodes[x] == after_root.nodes[x]);
                }
                assert(after.children(post_dir_id) =~= seq![nav_id]);
                assert(after.children(blog_id) =~= after_root.children(blog_id) + dirs.push(post_dir_id));
                assert forall|k: int| 0 <= k < i + 1 implies {
                    let d = #[trigger] dirs.push(post_dir_id)[k];
                    &&& after.live(d)
                    &&& !after_root.live(d)
                    &&& is_system_dir(after.data(d), posts[k])
                    &&& after.children(d).len() == 1
                    &&& is_nav_file(after.data(after.children(d)[0]), "/blog/"@ + posts[k])
                } by {
                    if k < i {
                        let d = dirs[k];
                        assert(dirs.push(post_dir_id)[k] == d);
                        assert(before.live(d));
                        assert(d != blog_id);
                        assert(after.nodes[d] == before.nodes[d]);
                        let f = before.children(d)[0];
                        assert(before.nodes[d].children[0] == f);
                        assert(before.live(f));
                        assert(f != blog_id) by {
                            assert(before.parent(f) == Some(d));
                            assert(d != root);
                        }
                        assert(after.nodes[f] == before.nodes[f]);
                    } else {
                        assert(dirs.push(post_dir_id)[k] == post_dir_id);
                        assert(!after_root.live(post_dir_id)) by {
                            if after_root.live(post_dir_id) {
                                if post_dir_id != blog_id {
                                    assert(before.live(post_dir_id));
                                }
                            }
                        }
                    }
                }
                dirs = dirs.push(post_dir_id);
            }
            i = i + 1;
        }
        let ghost before_cv = self@;
        proof {
            assert(after_root.live(cv_id));
            assert(self@.live(cv_id));
        }
        self.create_system_file_in("nav.rs", FileContent::NavFile(String::from_str("/cv")), true, cv_id);
        proof {
            let m = self@;
            let rc = after_root.children(root);
            assert(m.root == root);
            assert forall|x: NodeId| #[trigger] before_cv.live(x) && x != cv_id implies m.live(x) && m.nodes[x] == before_cv.nodes[x] by {}
            assert(before_cv.nodes[root] == after_root.nodes[root]);
            assert(m.children(root) == rc);
            assert forall|k: int| 2 <= k < 6 implies #[trigger] m.nodes[rc[k]] == after_root.nodes[rc[k]] by {
                assert(after_root.nodes[root].children[k] == rc[k]);
                assert(after_root.live(rc[k]));
                assert(rc[k] != blog_id && rc[k] != cv_id);
            }
            assert(m.nodes[rc[2]] == after_root.nodes[rc[2]]);
            assert(m.nodes[rc[3]] == after_root.nodes[rc[3]]);
            assert(m.nodes[rc[4]] == after_root.nodes[rc[4]]);
            assert(m.nodes[rc[5]] == after_root.nodes[rc[5]]);
            assert(m.children(blog_id) == before_cv.children(blog_id));
            let bn = after_root.children(blog_id)[0];
            assert(after_root.live(bn)) by {
                assert(after_root.nodes[blog_id].children[0] == bn);
            }
            assert(bn != blog_id);
            assert(bn != cv_id) by {
                assert(after_root.parent(bn) == Some(blog_id));
            }
            assert(m.children(blog_id)[0] == bn);
            assert(m.nodes[bn] == after_root.nodes[bn]);
            assert forall|k: int| 0 <= k < posts.len() implies {
                let d = #[trigger] m.children(blog_id)[k + 1];
                &&& is_system_dir(m.data(d), posts[k])
                &&& m.children(d).len() == 1
                &&& is_nav_file(m.data(m.children(d)[0]), "/blog/"@ + posts[k])
            } by {
                let d = dirs[k];
                assert(m.children(blog_id)[k + 1] == d);
                assert(d != cv_id);
                assert(m.nodes[d] == before_cv.nodes[d]);
                let f = before_cv.children(d)[0];
                assert(before_cv.nodes[d].children[0] == f);
                assert(before_cv.live(f));
                assert(f != cv_id) by {
                    assert(before_cv.parent(f) == Some(d));
                    assert(before_cv.nodes[cv_id] == after_root.nodes[cv_id]);
                }
                assert(m.nodes[f] == before_cv.nodes[f]);
            }
        }
    }

    /// Adds a system directory named `name` as the last child of `parent`.
    fn create_system_directory_in(&mut self, name: &str, parent: NodeId) -> (id: NodeId)
        requires
            old(self).wf(),
            old(self)@.live(parent),
            is_dir(old(self)@.data(parent)),
        ensures
            final(self).wf(),
            !old(self)@.live(id),
            final(self)@ == with_child(old(self)@, parent, id, final(self)@.data(id)),
            is_system_dir(final(self)@.data(id), name@),
    {
        let now = now_timestamp();
        let node = VfsNode {
            name: String::from_str(name),
            node_type: VfsNodeType::Directory,
            permissions: Permissions::system_dir(),
            metadata: NodeMetadata {
                size: 4096,
                owner: String::from_str("hans"),
                group: String::from_str("staff"),
                created: now,
                modified: now,
            },
        };
        let ghost d = node;
        let id = self.attach_new(parent, node);
        proof {
            lemma_with_child_wf(old(self)@, parent, id, d);
        }
        id
    }

    /// Adds a system file named `name` holding `content` as the last child
    /// of `parent`.
    fn create_system_file_in(&mut self, name: &str, content: FileContent, executable: bool, parent: NodeId) -> (id: NodeId)
        requires
            old(self).wf(),
            old(self)@.live(parent),
            is_dir(old(self)@.data(parent)),
        ensures
            final(self).wf(),
            !old(self)@.live(id),
            final(self)@ == with_child(old(self)@, parent, id, final(self)@.data(id)),
            is_system_file(final(self)@.data(id), name@, content, executable),
            content matches FileContent::NavFile(t) ==> is_nav_file(final(self)@.data(id), t@) || name@ != "nav.rs"@ || !executable,
    {
        let size = file_size(&content);
        let permissions = if executable { Permissions::executable() } else { Permissions::read_only() };
        let group = if executable { String::from_str("wheel") } else { String::from_str("staff") };
        let now = now_timestamp();
        let node = VfsNode {
            name: String::from_str(name),
            node_type: VfsNodeType::File { content },
            permissions,
            metadata: NodeMetadata { size, owner: String::from_str("hans"), group, created: now, modified: now },
        };
        let ghost d = node;
        let id = self.attach_new(parent, node);
        proof {
            lemma_with_child_wf(old(self)@, parent, id, d);
        }
        id
    }

    /// The node `path` leads to from `base`. A deleted `base` has neither
    /// parent nor children.
    pub fn resolve_path(&self, base: NodeId, path: &str) -> (r: Result<NodeId, VfsError>)
        requires
            self.wf(),
        ensures
            r == spec_resolve_path(self@, base, path@),
            r matches Ok(n) ==> self@.live(n) || n == base,
            self@.live(base) ==> (r matches Ok(n) ==> self@.live(n)),
    {
        let p = chars_of(path);
        if p.len() == 0 || (p.len() == 1 && p[0] == '.') {
            assert(p@.len() == 1 ==> p@ =~= seq!['.']);
            return Ok(base);
        }
        assert(p@ != seq!['.']);
        if p.len() == 1 && p[0] == '~' {
            assert(p@ =~= seq!['~']);
            return Ok(self.root);
        }
        assert(p@ != seq!['~']);
        let mut e: Vec<char> = Vec::new();
        let start: usize = if p.len() >= 2 && p[0] == '~' && p[1] == '/' { 1 } else { 0 };
        let mut i: usize = start;
        while i < p.len()
            invariant
                start <= i <= p.len(),
                e@ =~= p@.subrange(start as int, i as int),
            decreases p.len() - i,
        {
            e.push(p[i]);
            i = i + 1;
        }
        assert(start == 1 ==> e@ =~= p@.drop_first());
        assert(start == 0 ==> e@ =~= p@);
        if e.len() > 0 && e[0] == '/' {
            let mut rest: Vec<char> = Vec::new();
            let mut j: usize = 1;
            while j < e.len()
                invariant
                    1 <= j <= e.len(),
                    rest@ =~= e@.subrange(1, j as int),
                decreases e.len() - j,
            {
                rest.push(e[j]);
                j = j + 1;
            }
            assert(rest@ =~= e@.drop_first());
            self.resolve_from_node(self.root, &rest)
        } else {
            self.resolve_from_node(base, &e)
        }
    }

    fn resolve_from_node(&self, start: NodeId, p: &Vec<char>) -> (r: Result<NodeId, VfsError>)
        requires
            self.wf(),
        ensures
            r == resolve_from(self@, start, p@),
            r matches Ok(n) ==> self@.live(n) || n == start,
            self@.live(start) ==> (r matches Ok(n) ==> self@.live(n)),
    {
        let parts = split_nonempty_chars(p, '/');
        let ghost comps = split_nonempty(p@, '/');
        let mut current = start;
        let start_live = arena_get(&self.arena, start).is_some();
        let mut k: usize = 0;
        while k < parts.len()
            invariant
                self.wf(),
                start_live == self@.live(start),
                self@.live(current) == start_live,
                !start_live ==> current == start,
                views_of(parts@) == comps,
                comps == split_nonempty(p@, '/'),
                k <= parts.len(),
                walk_from(self@, start, comps, 0) == walk_from(self@, current, comps, k as int),
            decreases parts.len() - k,
        {
            let part = &parts[k];
            assert(comps[k as int] == part@);
            if part.len() == 1 && part[0] == '.' {
                assert(part@ =~= seq!['.']);
            } else if part.len() == 2 && part[0] == '.' && part[1] == '.' {
                assert(part@ =~= seq!['.', '.']);
                assert(part@ != seq!['.']);
                if start_live {
                    match node_parent(&self.arena, current) {
                        Some(parent) => {
                            current = parent;
                        },
                        None => {},
                    }
                }
            } else {
                assert(part@ != seq!['.']) by {
                    if part@ == seq!['.'] { assert(part@.len() == 1); }
                }
                assert(part@ != seq!['.', '.']) by {
                    if part@ == seq!['.', '.'] { assert(part@.len() == 2); }
                }
                if !start_live {
                    assert(spec_step(self@, current, comps[k as int]) == Err::<NodeId, VfsError>(VfsError::NotFound));
                    assert(walk_from(self@, current, comps, k as int) == Err::<NodeId, VfsError>(VfsError::NotFound));
                    return Err(VfsError::NotFound);
                }
                match self.find_child(current, part) {
                    Some(c) => {
                        current = c;
                    },
                    None => {
                        assert(spec_step(self@, current, comps[k as int]) == Err::<NodeId, VfsError>(VfsError::NotFound));
                        assert(walk_from(self@, current, comps, k as int) == Err::<NodeId, VfsError>(VfsError::NotFound));
                        return Err(VfsError::NotFound);
                    },
                }
            }
            k = k + 1;
        }
        Ok(current)
    }

    /// Stores `data` as a new last child of the live directory `parent`.
    fn attach_new(&mut self, parent: NodeId, data: VfsNode) -> (id: NodeId)
        requires
            old(self).wf(),
            old(self)@.live(parent),
            is_dir(old(self)@.data(parent)),
            !(data.node_type is Link),
        ensures
            final(self).wf(),
            !old(self)@.live(id),
            final(self)@ == with_child(old(self)@, parent, id, data),
    {
        let ghost m = self@;
        let id = arena_new_node(&mut self.arena, data);
        node_append(&mut self.arena, parent, id);
        proof {
            self.depth = Ghost(self.depth@.insert(id, self.depth@[parent] + 1));
            if self.limit@ < self.depth@[id] + 1 {
                self.limit = Ghost(self.depth@[id] + 1);
            }
            lemma_with_child_wf(m, parent, id, data);
            assert(self@.nodes =~= with_child(m, parent, id, data).nodes);
            assert(self@.depth =~= with_child(m, parent, id, data).depth);
        }
        id
    }

    /// Checks that a node named `name` may be made under `parent`.
    pub(crate) fn check_create(&self, parent: NodeId, name: &str) -> (r: Result<(), VfsError>)
        requires
            self.wf(),
        ensures
            match create_error(self@, parent, name@) {
                Some(e) => r == Err::<(), VfsError>(e),
                None => r is Ok,
            },
    {
        let parent_node = match arena_get(&self.arena, parent) {
            Some(d) => d,
            None => {
                return Err(VfsError::NotFound);
            },
        };
        if !parent_node.permissions.write {
            return Err(VfsError::PermissionDenied);
        }
        if !matches!(parent_node.node_type, VfsNodeType::Directory) {
            return Err(VfsError::NotADirectory);
        }
        let name_chars = chars_of(name);
        if self.find_child(parent, &name_chars).is_some() {
            return Err(VfsError::AlreadyExists);
        }
        Ok(())
    }

    /// Makes a user file named `name` holding `content` under `parent`.
    pub fn create_file(&mut self, parent: NodeId, name: &str, content: FileContent) -> (r: Result<NodeId, VfsError>)
        requires
            old(self).wf(),
        ensures
            final(self).wf(),
            match create_error(old(self)@, parent, name@) {
                Some(e) => r == Err::<NodeId, VfsError>(e) && final(self)@ == old(self)@,
                None => r matches Ok(id) && !old(self)@.live(id) && final(self)@ == with_child(
                    old(self)@,
                    parent,
                    id,
                    final(self)@.data(id),
                ) && is_user_node(
                    final(self)@.data(id),
                    name@,
                    VfsNodeType::File { content: content },
                    content_size(content),
                ),
            },
    {
        match self.check_create(parent, name) {
            Err(e) => {
                return Err(e);
            },
            Ok(()) => {},
        }
        let size = file_size(&content);
        let now = now_timestamp();
        let node = VfsNode {
            name: String::from_str(name),
            node_type: VfsNodeType::File { content },
            permissions: Permissions::default(),
            metadata: NodeMetadata {
                size,
                owner: String::from_str("user"),
                group: String::from_str("user"),
                created: now,
                modified: now,
            },
        };
        let ghost d = node;
        let id = self.attach_new(parent, node);
        proof {
            lemma_with_child_wf(old(self)@, parent, id, d);
        }
        Ok(id)
    }

    /// Makes a user directory named `name` under `parent`.
    pub fn create_directory(&mut self, parent: NodeId, name: &str) -> (r: Result<NodeId, VfsError>)
        requires
            old(self).wf(),
        ensures
            final(self).wf(),
            match create_error(old(self)@, parent, name@) {
                Some(e) => r == Err::<NodeId, VfsError>(e) && final(self)@ == old(self)@,
                None => r matches Ok(id) && !old(self)@.live(id) && final(self)@ == with_child(
                    old(self)@,
                    parent,
                    id,
                    final(self)@.data(id),
                ) && is_user_node(final(self)@.data(id), name@, VfsNodeType::Directory, 4096),
            },
    {
        match self.check_create(parent, name) {
            Err(e) => {
                return Err(e);
            },
            Ok(()) => {},
        }
        let now = now_timestamp();
        let node = VfsNode {
            name: String::from_str(name),
            node_type: VfsNodeType::Directory,
            permissions: Permissions::default(),
            metadata: NodeMetadata {
                size: 4096,
                owner: String::from_str("user"),
                group: String::from_str("user"),
                created: now,
                modified: now,
            },
        };
        let ghost d = node;
        let id = self.attach_new(parent, node);
        proof {
            lemma_with_child_wf(old(self)@, parent, id, d);
        }
        Ok(id)
    }

    /// The text of a file node.
    pub fn read_file(&self, node: NodeId) -> (r: Result<String, VfsError>)
        requires
            self.wf(),
        ensures
            match r {
                Ok(s) => spec_read_file(self@, node) == Ok::<Seq<char>, VfsError>(s@),
                Err(e) => spec_read_file(self@, node) == Err::<Seq<char>, VfsError>(e),
            },
    {
        let data = match arena_get(&self.arena, node) {
            Some(d) => d,
            None => {
                return Err(VfsError::NotFound);
            },
        };
        if !data.permissions.read {
            return Err(VfsError::PermissionDenied);
        }
        match &data.node_type {
            VfsNodeType::File { content } => match content {
                FileContent::Static(s) => Ok(String::from_str(s)),
                FileContent::Dynamic(s) => Ok(s.clone()),
                FileContent::NavFile(path) => Ok(generate_nav_content(path.as_str())),
            },
            VfsNodeType::Directory => Err(VfsError::NotAFile),
            VfsNodeType::Link { .. } => {
                proof {
                    assert(self@.nodes[node].data == *data);
                }
                Err(VfsError::NotAFile)
            },
        }
    }

    /// The data of a live node, `None` for any other id.
    pub fn get_node(&self, node: NodeId) -> (r: Option<&VfsNode>)
        ensures
            r is Some <==> self@.live(node),
            r matches Some(d) ==> *d == self@.data(node),
    {
        arena_get(&self.arena, node)
    }

    pub fn get_root(&self) -> (r: NodeId)
        ensures
            r == self@.root,
    {
        self.root
    }

    /// The parent of a node: `None` for the root and for an id that names no
    /// live node (one that was removed, or never made here).
    pub fn get_parent(&self, node: NodeId) -> (r: Option<NodeId>)
        ensures
            self@.live(node) ==> r == self@.parent(node),
            !self@.live(node) ==> r is None,
    {
        match arena_get(&self.arena, node) {
            Some(_) => node_parent(&self.arena, node),
            None => None,
        }
    }

    /// Deletes a single node: not the root, nothing immutable, and no
    /// directory that still has children.
    pub fn delete_node(&mut self, node: NodeId) -> (r: Result<(), VfsError>)
        requires
            old(self).wf(),
        ensures
            final(self).wf(),
            if node == old(self)@.root {
                r == Err::<(), VfsError>(VfsError::PermissionDenied) && final(self)@ == old(self)@
            } else if !old(self)@.live(node) {
                r == Err::<(), VfsError>(VfsError::NotFound) && final(self)@ == old(self)@
            } else if old(self)@.data(node).permissions.immutable {
                r == Err::<(), VfsError>(VfsError::PermissionDenied) && final(self)@ == old(self)@
            } else if is_dir(old(self)@.data(node)) && old(self)@.children(node).len() > 0 {
                (r matches Err(VfsError::SystemError(msg)) && msg@ == "Directory not empty"@)
                    && final(self)@ == old(self)@
            } else {
                r == Ok::<(), VfsError>(()) && pruned(old(self)@, final(self)@, just(node))
            },
    {
        if node_id_eq(node, self.root) {
            return Err(VfsError::PermissionDenied);
        }
        let data = match arena_get(&self.arena, node) {
            Some(d) => d,
            None => {
                return Err(VfsError::NotFound);
            },
        };
        if data.permissions.immutable {
            return Err(VfsError::PermissionDenied);
        }
        if matches!(data.node_type, VfsNodeType::Directory) && node_children(&self.arena, node).len() > 0 {
            return Err(VfsError::SystemError(String::from_str("Directory not empty")));
        }
        self.remove_leaf(node);
        Ok(())
    }

    /// Deletes `node` and everything below it, children first; stops at
    /// the first node that may not be deleted.
    pub fn delete_node_recursive(&mut self, node: NodeId) -> (r: Result<(), VfsError>)
        requires
            old(self).wf(),
        ensures
            final(self).wf(),
            pruned(old(self)@, final(self)@, lost(old(self)@, final(self)@)),
            old(self)@.live(node) && old(self)@.data(node).permissions.immutable ==> r == Err::<(), VfsError>(
                VfsError::PermissionDenied,
            ) && final(self)@ == old(self)@,
            forall|x: NodeId| #[trigger] lost(old(self)@, final(self)@)(x) ==> !old(self)@.data(x).permissions.immutable,
            if node == old(self)@.root {
                r == Err::<(), VfsError>(VfsError::PermissionDenied) && final(self)@ == old(self)@
            } else if !old(self)@.live(node) {
                r == Err::<(), VfsError>(VfsError::NotFound) && final(self)@ == old(self)@
            } else if has_immutable_below(old(self)@, node) {
                &&& r == Err::<(), VfsError>(VfsError::PermissionDenied)
                &&& final(self)@.live(node)
                &&& forall|x: NodeId| #[trigger] old(self)@.live(x) && !final(self)@.live(x)
                    ==> descends(old(self)@, x, node) && x != node
            } else {
                &&& r == Ok::<(), VfsError>(())
                &&& forall|x: NodeId| #[trigger] old(self)@.live(x)
                    ==> (final(self)@.live(x) <==> !descends(old(self)@, x, node))
            },
    {
        self.delete_subtree(node)
    }

    fn delete_subtree(&mut self, node: NodeId) -> (r: Result<(), VfsError>)
        requires
            old(self).wf(),
        ensures
            final(self).wf(),
            final(self).limit@ == old(self).limit@,
            pruned(old(self)@, final(self)@, lost(old(self)@, final(self)@)),
            old(self)@.live(node) && old(self)@.data(node).permissions.immutable ==> r == Err::<(), VfsError>(
                VfsError::PermissionDenied,
            ) && final(self)@ == old(self)@,
            forall|x: NodeId| #[trigger] lost(old(self)@, final(self)@)(x) ==> !old(self)@.data(x).permissions.immutable,
            if node == old(self)@.root {
                r == Err::<(), VfsError>(VfsError::PermissionDenied) && final(self)@ == old(self)@
            } else if !old(self)@.live(node) {
                r == Err::<(), VfsError>(VfsError::NotFound) && final(self)@ == old(self)@
            } else if has_immutable_below(old(self)@, node) {
                &&& r == Err::<(), VfsError>(VfsError::PermissionDenied)
                &&& final(self)@.live(node)
                &&& forall|x: NodeId| #[trigger] old(self)@.live(x) && !final(self)@.live(x)
                    ==> descends(old(self)@, x, node) && x != node
            } else {
                &&& r == Ok::<(), VfsError>(())
                &&& forall|x: NodeId| #[trigger] old(self)@.live(x)
                    ==> (final(self)@.live(x) <==> !descends(old(self)@, x, node))
            },
        decreases old(self).limit@ - old(self)@.depth[node],
    {
        let ghost a = self@;
        proof {
            self.lemma_pruned_self();
        }
        if node_id_eq(node, self.root) {
            return Err(VfsError::PermissionDenied);
        }
        let data = match arena_get(&self.arena, node) {
            Some(d) => d,
            None => {
                return Err(VfsError::NotFound);
            },
        };
        if data.permissions.immutable {
            proof {
                assert(descends(a, node, node));
                assert(a.live(node) && descends(a, node, node) && a.data(node).permissions.immutable);
            }
            return Err(VfsError::PermissionDenied);
        }
        let is_directory = matches!(data.node_type, VfsNodeType::Directory);
        if is_directory {
            let cs = node_children(&self.arena, node);
            let ghost limit = self.limit@;
            let mut j: usize = 0;
            assert(cs@.skip(0) =~= cs@);
            assert forall|x: NodeId| #[trigger] lost(a, self@)(x) <==> (a.live(x) && in_first(a, cs@, 0, x)) by {}
            while j < cs.len()
                invariant
                    self.wf(),
                    self.limit@ == limit,
                    limit == old(self).limit@,
                    a == old(self)@,
                    a.wf(),
                    a.live(node),
                    node != a.root,
                    !a.data(node).permissions.immutable,
                    cs@ == a.children(node),
                    j <= cs.len(),
                    self@.live(node),
                    self@.children(node) == cs@.skip(j as int),
                    pruned(a, self@, lost(a, self@)),
                    forall|x: NodeId| #[trigger] lost(a, self@)(x) <==> (a.live(x) && in_first(a, cs@, j as int, x)),
                    forall|x: NodeId| #[trigger] a.live(x) && in_first(a, cs@, j as int, x) ==> !a.data(x).permissions.immutable,
                decreases cs.len() - j,
            {
                let c = cs[j];
                let ghost cur = self@;
                proof {
                    assert(cur.nodes[node].children[0] == cs@.skip(j as int)[0]);
                    assert(cur.live(c));
                    assert(a.nodes[node].children[j as int] == c);
                    assert(cur.nodes[c] == cur.nodes[c]);
                    assert(a.depth[c] == a.depth[node] + 1);
                    assert(cur.depth[c] == a.depth[c]);
                    assert(self.limit@ - self@.depth[c] < old(self).limit@ - old(self)@.depth[node]);
                    self.lemma_wf();
                    lemma_child_descends(a, node, c);
                }
                let sub = self.delete_subtree(c);
                let ghost next = self@;
                proof {
                    self.lemma_wf();
                    lemma_pruned_trans(a, cur, next, lost(a, cur), lost(cur, next));
                    assert(c != cur.root);
                }
                match sub {
                    Err(e) => {
                        proof {
                            assert(has_immutable_below(cur, c));
                            let w = choose|w: NodeId| #[trigger] cur.live(w) && descends(cur, w, c) && cur.data(w).permissions.immutable;
                            lemma_descends_frame(a, cur, lost(a, cur), w, c);
                            lemma_descends_trans(a, w, c, node);
                            assert(cur.nodes[w] == cur.nodes[w]);
                            assert(a.live(w) && descends(a, w, node) && a.data(w).permissions.immutable);
                            assert(has_immutable_below(a, node));
                            if descends(cur, node, c) {
                                lemma_descends_frame(a, cur, lost(a, cur), node, c);
                                lemma_descends_depth(a, node, c);
                            }
                            assert(next.live(node));
                            assert forall|x: NodeId| #[trigger] lost(a, next)(x) implies !a.data(x).permissions.immutable by {
                                if cur.live(x) {
                                    assert(lost(cur, next)(x));
                                    assert(cur.nodes[x] == cur.nodes[x]);
                                } else {
                                    assert(lost(a, cur)(x));
                                }
                            }
                            assert forall|x: NodeId| #[trigger] a.live(x) && !next.live(x) implies descends(a, x, node) && x != node by {
                                if cur.live(x) {
                                    assert(lost(cur, next)(x));
                                    lemma_descends_frame(a, cur, lost(a, cur), x, c);
                                    lemma_descends_trans(a, x, c, node);
                                } else {
                                    assert(lost(a, cur)(x));
                                    let i = choose|i: int| 0 <= i < j && #[trigger] descends(a, x, cs@[i]);
                                    assert(a.nodes[node].children[i] == cs@[i]);
                                    lemma_child_descends(a, node, cs@[i]);
                                    lemma_descends_trans(a, x, cs@[i], node);
                                }
                            }
                        }
                        return Err(e);
                    },
                    Ok(()) => {},
                }
                proof {
                    // The node itself stays.
                    if descends(cur, node, c) {
                        lemma_descends_frame(a, cur, lost(a, cur), node, c);
                        lemma_descends_depth(a, node, c);
                    }
                    assert(next.live(node));
                    // Its child list loses exactly `c`.
                    let rest = cs@.skip(j + 1);
                    assert(cs@.skip(j as int) =~= seq![c] + rest);
                    let kp = keep(lost(cur, next));
                    assert(next.children(node) == cur.children(node).filter(kp));
                    Seq::filter_distributes_over_add(seq![c], rest, kp);
                    reveal(Seq::filter);
                    assert(descends(cur, c, c));
                    assert(!kp(c));
                    assert(seq![c].drop_last() =~= Seq::<NodeId>::empty());
                    assert(Seq::<NodeId>::empty().filter(kp) =~= Seq::<NodeId>::empty());
                    assert(seq![c].last() == c);
                    assert(seq![c].filter(kp) =~= Seq::<NodeId>::empty());
                    assert forall|i: int| 0 <= i < rest.len() implies kp(rest[i]) by {
                        let k = j + 1 + i;
                        assert(rest[i] == cs@[k]);
                        assert(a.nodes[node].children[k] == cs@[k]);
                        assert(cur.nodes[node].children[i + 1] == cs@.skip(j as int)[i + 1]);
                        assert(cur.live(rest[i]));
                        assert(cur.nodes[rest[i]] == cur.nodes[rest[i]]);
                        if descends(cur, rest[i], c) {
                            assert(a.nodes[node].children.no_duplicates());
                            assert(rest[i] != c);
                            assert(cur.parent(rest[i]) == Some(node));
                            lemma_descends_depth(cur, node, c);
                        }
                    }
                    lemma_filter_all(rest, kp);
                    assert(Seq::<NodeId>::empty() + rest =~= rest);
                    // What is lost so far.
                    assert forall|x: NodeId| #[trigger] lost(a, next)(x) <==> (a.live(x) && in_first(a, cs@, j + 1, x)) by {
                        if a.live(x) && in_first(a, cs@, j + 1, x) {
                            let i = choose|i: int| 0 <= i < j + 1 && #[trigger] descends(a, x, cs@[i]);
                            if i < j {
                                assert(in_first(a, cs@, j as int, x));
                            } else if cur.live(x) {
                                lemma_descends_frame(a, cur, lost(a, cur), x, c);
                            }
                        }
                        if lost(a, next)(x) {
                            if cur.live(x) {
                                lemma_descends_frame(a, cur, lost(a, cur), x, c);
                                assert(descends(a, x, cs@[j as int]));
                            } else {
                                assert(lost(a, cur)(x));
                                let i = choose|i: int| 0 <= i < j && #[trigger] descends(a, x, cs@[i]);
                                assert(descends(a, x, cs@[i]));
                            }
                        }
                    }
                    assert forall|x: NodeId| #[trigger] a.live(x) && in_first(a, cs@, j + 1, x) implies !a.data(x).permissions.immutable by {
                        let i = choose|i: int| 0 <= i < j + 1 && #[trigger] descends(a, x, cs@[i]);
                        if i < j {
                            assert(in_first(a, cs@, j as int, x));
                        } else if cur.live(x) {
                            lemma_descends_frame(a, cur, lost(a, cur), x, c);
                            assert(cur.nodes[x] == cur.nodes[x]);
                            if a.data(x).permissions.immutable {
                                assert(cur.live(x) && descends(cur, x, c) && cur.data(x).permissions.immutable);
                            }
                        } else {
                            assert(lost(a, cur)(x));
                        }
                    }
                }
                j = j + 1;
            }
            proof {
                assert(self@.children(node).len() == 0);
            }
        } else {
            proof {
                assert(a.nodes[node] == a.nodes[node]);
            }
        }
        let ghost cur = self@;
        proof {
            self.lemma_wf();
            assert(cur.nodes[node] == cur.nodes[node]);
            assert(cur.children(node).len() == 0);
        }
        self.remove_leaf(node);
        proof {
            let fin = self@;
            lemma_pruned_trans(a, cur, fin, lost(a, cur), just(node));
            let cs = a.children(node);
            assert forall|x: NodeId| #[trigger] a.live(x) implies (fin.live(x) <==> !descends(a, x, node)) by {
                if descends(a, x, node) && x != node {
                    let i = lemma_descends_child(a, x, node);
                    assert(in_first(a, cs, cs.len() as int, x));
                    assert(lost(a, cur)(x));
                }
                if !fin.live(x) && x != node {
                    assert(lost(a, cur)(x));
                    let i = choose|i: int| 0 <= i < cs.len() && #[trigger] descends(a, x, cs[i]);
                    assert(a.nodes[node].children[i] == cs[i]);
                    lemma_child_descends(a, node, cs[i]);
                    lemma_descends_trans(a, x, cs[i], node);
                }
            }
            if has_immutable_below(a, node) {
                let w = choose|w: NodeId| #[trigger] a.live(w) && descends(a, w, node) && a.data(w).permissions.immutable;
                let i = lemma_descends_child(a, w, node);
                assert(in_first(a, cs, cs.len() as int, w));
            }
            assert forall|x: NodeId| #[trigger] lost(a, fin)(x) implies !a.data(x).permissions.immutable by {
                if x != node {
                    assert(lost(a, cur)(x));
                }
            }
        }
        Ok(())
    }

    proof fn lemma_pruned_self(&self)
        requires
            self.wf(),
        ensures
            pruned(self@, self@, lost(self@, self@)),
    {
        assert forall|x: NodeId| #![trigger self@.nodes[x]] self@.live(x) implies self@.children(x) == self@.children(x).filter(keep(lost(self@, self@))) by {
            let s = self@.children(x);
            assert forall|i: int| 0 <= i < s.len() implies keep(lost(self@, self@))(s[i]) by {
                assert(self@.nodes[x].children[i] == s[i]);
            }
            lemma_filter_all(s, keep(lost(self@, self@)));
        }
    }

    /// The children of a directory, sorted by name.
    pub fn list_directory(&self, node: NodeId) -> (r: Result<Vec<DirEntry>, VfsError>)
        requires
            self.wf(),
        ensures
            match list_error(self@, node) {
                Some(e) => r == Err::<Vec<DirEntry>, VfsError>(e),
                None => r matches Ok(es) && lists(self@, node, es@) && es@ == spec_listing(self@, node),
            },
    {
        let data = match arena_get(&self.arena, node) {
            Some(d) => d,
            None => {
                return Err(VfsError::NotFound);
            },
        };
        if !data.permissions.read {
            return Err(VfsError::PermissionDenied);
        }
        match &data.node_type {
            VfsNodeType::Directory => {},
            VfsNodeType::File { .. } => {
                return Err(VfsError::NotADirectory);
            },
            VfsNodeType::Link { .. } => {
                proof {
                    assert(self@.nodes[node].data == *data);
                }
                return Err(VfsError::NotADirectory);
            },
        }
        let cs = node_children(&self.arena, node);
        let mut entries: Vec<DirEntry> = Vec::new();
        let mut j: usize = 0;
        while j < cs.len()
            invariant
                self.wf(),
                self@.live(node),
                cs@ == self@.children(node),
                j <= cs.len(),
                entries@.len() == j,
                forall|i: int| 0 <= i < j ==> describes(self@, #[trigger] entries@[i], cs@[i]),
                forall|i: int| 0 <= i < j ==> #[trigger] entries@[i] == entry_of(self@, cs@[i]),
            decreases cs.len() - j,
        {
            let c = cs[j];
            proof {
                assert(self@.nodes[node].children[j as int] == c);
            }
            match arena_get(&self.arena, c) {
                Some(cd) => {
                    entries.push(DirEntry {
                        name: cd.name.clone(),
                        node_id: c,
                        is_directory: matches!(cd.node_type, VfsNodeType::Directory),
                        is_executable: cd.permissions.execute,
                    });
                },
                None => {
                    proof {
                        assert(false);
                    }
                },
            }
            j = j + 1;
        }
        let ghost u = entries@;
        assert(u =~= self@.children(node).map_values(entry_fn(self@)));
        let sorted = sort_by_key(entries);
        proof {
            let es = sorted@;
            vstd::seq_lib::to_multiset_len(es);
            vstd::seq_lib::to_multiset_len(u);
            assert forall|i: int| 0 <= i < es.len() implies describes(self@, #[trigger] es[i], es[i].node_id) && self@.children(node).contains(es[i].node_id) by {
                vstd::seq_lib::to_multiset_contains(es, es[i]);
                vstd::seq_lib::to_multiset_contains(u, es[i]);
                assert(es.contains(es[i]));
                let k = choose|k: int| 0 <= k < u.len() && u[k] == es[i];
                assert(describes(self@, u[k], cs@[k]));
            }
            assert forall|c: NodeId| #[trigger] self@.children(node).contains(c) implies exists|i: int| 0 <= i < es.len() && #[trigger] es[i].node_id == c by {
                let k = choose|k: int| 0 <= k < cs@.len() && cs@[k] == c;
                assert(describes(self@, u[k], cs@[k]));
                vstd::seq_lib::to_multiset_contains(es, u[k]);
                vstd::seq_lib::to_multiset_contains(u, u[k]);
                assert(u.contains(u[k]));
                let i = choose|i: int| 0 <= i < es.len() && es[i] == u[k];
                assert(es[i].node_id == c);
            }
        }
        Ok(sorted)
    }

    /// The absolute path of a live node.
    pub fn get_node_path(&self, node: NodeId) -> (r: String)
        requires
            self.wf(),
            self@.live(node),
        ensures
            r@ == spec_node_path(self@, node),
    {
        if node_id_eq(node, self.root) {
            proof {
                assert(self@.nodes[node].parent is None);
            }
            return String::from_str("/");
        }
        let mut parts: Vec<String> = Vec::new();
        let mut current = node;
        let ghost m = self@;
        loop
            invariant
                self.wf(),
                m == self@,
                m.live(current),
                path_names(m, node) == path_names(m, current) + parts@.map_values(|x: String| x@),
            ensures
                m.live(current),
                m.parent(current) is None,
                path_names(m, node) == path_names(m, current) + parts@.map_values(|x: String| x@),
            decreases m.depth[current],
        {
            assert(m.nodes[current] == m.nodes[current]);
            match node_parent(&self.arena, current) {
                Some(parent) => {
                    let ghost before = parts@.map_values(|x: String| x@);
                    match arena_get(&self.arena, current) {
                        Some(d) => {
                            if d.name.as_str().unicode_len() > 0 {
                                parts.insert(0, d.name.clone());
                                assert(parts@.map_values(|x: String| x@) =~= seq![d.name@] + before);
                                assert(path_names(m, current) == path_names(m, parent).push(d.name@));
                                assert(path_names(m, parent).push(d.name@) + before =~= path_names(m, parent) + (seq![d.name@] + before));
                            } else {
                                assert(path_names(m, current) == path_names(m, parent));
                            }
                        },
                        None => {
                            proof {
                                assert(false);
                            }
                        },
                    }
                    current = parent;
                },
                None => {
                    break;
                },
            }
        }
        proof {
            assert(path_names(m, current) =~= Seq::<Seq<char>>::empty());
            assert(Seq::<Seq<char>>::empty() + parts@.map_values(|x: String| x@) =~= parts@.map_values(|x: String| x@));
        }
        if parts.len() == 0 {
            return String::from_str("/");
        }
        let ghost ps = parts@.map_values(|x: String| x@);
        let mut r = String::from_str("/");
        r.append(parts[0].as_str());
        let mut i: usize = 1;
        assert(ps.take(1) =~= seq![ps[0]]);
        while i < parts.len()
            invariant
                1 <= i <= parts.len(),
                ps == parts@.map_values(|x: String| x@),
                r@ == "/"@ + join_with(ps.take(i as int), "/"@),
            decreases parts.len() - i,
        {
            r.append("/");
            r.append(parts[i].as_str());
            assert(ps.take(i + 1).drop_last() =~= ps.take(i as int));
            assert(ps.take(i + 1).last() == ps[i as int]);
            i = i + 1;
        }
        assert(ps.take(parts.len() as int) =~= ps);
        r
    }

    /// Takes a live leaf other than the root out of the tree.
    fn remove_leaf(&mut self, node: NodeId)
        requires
            old(self).wf(),
            old(self)@.live(node),
            node != old(self)@.root,
            old(self)@.children(node).len() == 0,
        ensures
            final(self).wf(),
            final(self).limit@ == old(self).limit@,
            pruned(old(self)@, final(self)@, just(node)),
    {
        let ghost a = self@;
        let ghost gone = just(node);
        proof {
            assert(a.nodes[node].parent is Some);
        }
        node_remove(&mut self.arena, node);
        proof {
            self.depth = Ghost(self.depth@.remove(node));
            let b = self@;
            let p = a.parent(node)->0;
            assert(keep(gone) =~= (|c: NodeId| c != node));
            assert(b.depth.dom() =~= b.nodes.dom());
            assert forall|x: NodeId| #![trigger b.nodes[x]] b.live(x) implies {
                &&& b.data(x) == a.data(x)
                &&& b.parent(x) == a.parent(x)
                &&& b.children(x) == a.children(x).filter(keep(gone))
                &&& b.depth[x] == a.depth[x]
            } by {
                if x != p {
                    assert(a.nodes[x].children.len() == a.children(x).len());
                    assert forall|i: int| 0 <= i < a.children(x).len() implies keep(gone)(a.children(x)[i]) by {
                        assert(a.nodes[x].children[i] == a.children(x)[i]);
                        if a.children(x)[i] == node {
                            assert(a.parent(node) == Some(x));
                        }
                    }
                    lemma_filter_all(a.children(x), keep(gone));
                }
            }
            assert forall|x: NodeId, y: NodeId|
                #![trigger gone(x), a.nodes[y]]
                a.live(y) && a.parent(y) == Some(x) && gone(x) implies gone(y) by {
                if y != a.root {
                    let k = choose|k: int| 0 <= k < a.children(x).len() && a.children(x)[k] == y;
                    assert(a.nodes[node].children.len() == 0);
                }
            }
            lemma_pruned_wf(a, b, gone);
        }
    }

    /// The first child of `dir` whose name is `name`.
    fn find_child(&self, dir: NodeId, name: &Vec<char>) -> (r: Option<NodeId>)
        requires
            self.wf(),
            self@.live(dir),
        ensures
            r == child_named(self@, dir, name@),
            r matches Some(c) ==> self@.live(c),
    {
        let cs = node_children(&self.arena, dir);
        let target = string_of(name);
        let mut j: usize = 0;
        while j < cs.len()
            invariant
                self.wf(),
                self@.live(dir),
                cs@ == self@.children(dir),
                target@ == name@,
                j <= cs.len(),
                child_named(self@, dir, name@) == first_named_from(self@, cs@, name@, j as int),
            decreases cs.len() - j,
        {
            let c = cs[j];
            assert(self@.live(c)) by {
                assert(self@.nodes[dir].children[j as int] == c);
            }
            match arena_get(&self.arena, c) {
                Some(d) => {
                    if d.name == target {
                        return Some(c);
                    }
                },
                None => {},
            }
            j = j + 1;
        }
        None
    }
}


/// The contents of `/mines.sh`.
pub const MINES_SH: &'static str = "#!/bin/bash\nset -e\n\n# https://mines.hansbaker.com\n# Minesweeper client with multiplayer, replay analysis, and stat tracking\nmines\n";

/// The contents of `/thanks.txt`.
pub const THANKS_TXT: &'static str = "Thank you to my wife and my daughter for bringing immense joy to my life.";

/// The contents of `/.zshrc`.
pub const ZSHRC_CONTENT: &'static str = "# Simple zsh configuration\nunsetopt beep\n\n# Basic completion\nautoload -Uz compinit\ncompinit\n\n# plugins\nplugins = (zsh-autosuggestions, zsh-history-substring-search)\n\n# Aliases\nalias ll='ls -la'\nalias la='ls -a'\nalias h='history'\n\n# robbyrussell theme prompt\n# Arrow changes color based on exit status, directory in cyan, git status\nPROMPT='%(?:%{$fg_bold[green]%}➜ :%{$fg_bold[red]%}➜ )%{$fg[cyan]%}%c%{$reset_color%} $(git_prompt_info)'\n\nZSH_THEME_GIT_PROMPT_PREFIX=\"%{$fg_bold[blue]%}git:(%{$fg[red]%}\"\nZSH_THEME_GIT_PROMPT_SUFFIX=\"%{$reset_color%} \"\nZSH_THEME_GIT_PROMPT_DIRTY=\"%{$fg[blue]%}) %{$fg[yellow]%}✗\"\nZSH_THEME_GIT_PROMPT_CLEAN=\"%{$fg[blue]%})\"\n\n# History settings\nHISTFILE=window.localStorage[\"cmd_history\"]\nHISTSIZE=1000\nSAVEHIST=1000\nsetopt SHARE_HISTORY\nsetopt APPEND_HISTORY\n\n# zsh-history-substring-search configuration\nbindkey '^[[A' history-substring-search-up # or '\\eOA'\nbindkey '^[[B' history-substring-search-down # or '\\eOB'\nHISTORY_SUBSTRING_SEARCH_ENSURE_UNIQUE=1\nHISTORY_SUBSTRING_SEARCH_HIGHLIGHT_FOUND=0\nHISTORY_SUBSTRING_SEARCH_HIGHLIGHT_NOT_FOUND=0\n";

/// The text of a `nav.rs` file before its target path.
pub const NAV_PREFIX: &'static str = "use leptos::prelude::*;\nuse leptos_router::{hooks::use_navigate, UseNavigateOptions};\n\nfunc main() {\n    Effect::new((_) => {\n        let navigate = use_navigate();\n        navigate(\"";

/// The text of a `nav.rs` file after its target path.
pub const NAV_SUFFIX: &'static str = "\", UseNavigateOptions::default);\n    })\n}\n";

/// The contents of a `nav.rs` file that navigates to `path` (`"/"` when
/// `path` is empty).
pub open spec fn spec_nav_content(path: Seq<char>) -> Seq<char> {
    NAV_PREFIX@ + (if path.len() == 0 { "/"@ } else { path }) + NAV_SUFFIX@
}

/// The contents of a `nav.rs` file that navigates to `path`.
pub fn generate_nav_content(path: &str) -> (r: String)
    ensures
        r@ == spec_nav_content(path@),
{
    let mut r = String::from_str(NAV_PREFIX);
    if path.unicode_len() == 0 {
        r.append("/");
    } else {
        r.append(path);
    }
    r.append(NAV_SUFFIX);
    r
}

} // verus!
