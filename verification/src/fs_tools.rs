use indextree::NodeId;
use vstd::prelude::*;

use crate::command::CommandRes;
use crate::cp_mv_tools::{cp_result, cp_run, mv_result, mv_run};
use crate::fs::{options_of, strs_view, targets_of};
use crate::sort::{key_of, lemma_sort_map, sort_by_key, stable_sort, Keyed};
use crate::text::{cat3, concat, join_strings, last_index_of, names_of, rfind_char, skip_chars, take_chars, with_char};
use crate::tree::node_id_eq;
use crate::vfs::{
    is_dir, join_with, list_error, spec_listing, spec_node_path, spec_read_file, spec_resolve_path,
    child_named, create_error, descends, describes, has_immutable_below, is_user_node, just, lists, lost, pruned, with_child, DirEntry, FileContent, FsModel,
    VfsError, VfsNode, VfsNodeType, VirtualFilesystem,
};
use crate::text::{contains_str, occurs_at, str_eq};
use crate::vfs_laws::{lemma_first_named_exists, lemma_first_named_none};
use vstd::utf8::encode_utf8;

pub use crate::fs::parse_multitarget;

verus! {

/// One line of an `ls` listing: the node shown, its link count, the name
/// it is shown under and its path.
pub struct VfsItem {
    pub node: VfsNode,
    pub link_count: usize,
    pub display_name: String,
    pub path: String,
}

/// A listing line as a mathematical value.
pub struct ItemV {
    pub name: Seq<char>,
    pub node: VfsNode,
    pub link_count: nat,
    pub path: Seq<char>,
}

impl View for VfsItem {
    type V = ItemV;

    open spec fn view(&self) -> ItemV {
        ItemV {
            name: self.display_name@,
            node: self.node,
            link_count: self.link_count as nat,
            path: self.path@,
        }
    }
}

impl Keyed for VfsItem {
    open spec fn key(&self) -> Seq<char> {
        self.display_name@
    }

    fn key_str(&self) -> (r: &str) {
        self.display_name.as_str()
    }
}

/// The listing of one directory operand of `ls`: the operand as typed and
/// the lines under it.
pub struct DirListing {
    pub name: String,
    pub items: Vec<VfsItem>,
}

pub open spec fn item_view() -> spec_fn(VfsItem) -> ItemV {
    |i: VfsItem| i@
}

pub open spec fn item_key() -> spec_fn(ItemV) -> Seq<char> {
    |i: ItemV| i.name
}

pub open spec fn item_views(v: Seq<VfsItem>) -> Seq<ItemV> {
    v.map_values(item_view())
}

impl View for DirListing {
    type V = (Seq<char>, Seq<ItemV>);

    open spec fn view(&self) -> (Seq<char>, Seq<ItemV>) {
        (self.name@, item_views(self.items@))
    }
}

impl Keyed for DirListing {
    open spec fn key(&self) -> Seq<char> {
        self.name@
    }

    fn key_str(&self) -> (r: &str) {
        self.name.as_str()
    }
}

pub open spec fn listing_view() -> spec_fn(DirListing) -> (Seq<char>, Seq<ItemV>) {
    |d: DirListing| d@
}

pub open spec fn listing_key() -> spec_fn((Seq<char>, Seq<ItemV>)) -> Seq<char> {
    |d: (Seq<char>, Seq<ItemV>)| d.0
}

/// What `ls` shows on a terminal: the file operands, then one listing per
/// directory operand (headed by its name when there is more than one
/// thing to show), in the short or the long format.
pub struct LsView {
    pub long_format: bool,
    pub is_multi: bool,
    pub file_items: Vec<VfsItem>,
    pub dir_listings: Vec<DirListing>,
}

pub struct LsViewV {
    pub long_format: bool,
    pub is_multi: bool,
    pub file_items: Seq<ItemV>,
    pub dir_listings: Seq<(Seq<char>, Seq<ItemV>)>,
}

impl View for LsView {
    type V = LsViewV;

    open spec fn view(&self) -> LsViewV {
        LsViewV {
            long_format: self.long_format,
            is_multi: self.is_multi,
            file_items: item_views(self.file_items@),
            dir_listings: self.dir_listings@.map_values(listing_view()),
        }
    }
}

/// The first option letter that is neither `a` nor `b`.
pub open spec fn first_not_in(s: Seq<char>, a: char, b: char) -> Option<char>
    decreases s.len(),
{
    if s.len() == 0 {
        None
    } else if s[0] != a && s[0] != b {
        Some(s[0])
    } else {
        first_not_in(s.drop_first(), a, b)
    }
}

/// The first option letter that is neither `a` nor `b`, if any.
pub fn first_invalid_option(options: &Vec<char>, a: char, b: char) -> (r: Option<char>)
    ensures
        r == first_not_in(options@, a, b),
{
    let mut i: usize = 0;
    assert(options@.skip(0) =~= options@);
    while i < options.len()
        invariant
            i <= options.len(),
            first_not_in(options@, a, b) == first_not_in(options@.skip(i as int), a, b),
        decreases options.len() - i,
    {
        assert(options@.skip(i as int).drop_first() =~= options@.skip(i + 1));
        if options[i] != a && options[i] != b {
            return Some(options[i]);
        }
        i = i + 1;
    }
    assert(options@.skip(i as int) =~= Seq::<char>::empty());
    None
}

/// Whether `c` is among the option letters.
pub fn has_option(options: &Vec<char>, c: char) -> (r: bool)
    ensures
        r == options@.contains(c),
{
    let mut i: usize = 0;
    while i < options.len()
        invariant
            i <= options.len(),
            forall|k: int| 0 <= k < i ==> options@[k] != c,
        decreases options.len() - i,
    {
        if options[i] == c {
            return true;
        }
        i = i + 1;
    }
    false
}

/// The message for an option letter a command does not know.
pub open spec fn invalid_option_msg(cmd: Seq<char>, c: char, rest: Seq<char>) -> Seq<char> {
    cmd + ": invalid option -- '"@ + seq![c] + "'\n"@ + rest
}

/// `n + 2`, held in a `usize`.
pub open spec fn plus_two(n: nat) -> nat {
    if n + 2 > usize::MAX {
        usize::MAX as nat
    } else {
        n + 2
    }
}

/// The link count `ls` shows for a node: for a directory, its number of
/// children (none if it cannot be listed) plus two; for a file, one.
pub open spec fn link_count_of(m: FsModel, c: NodeId) -> nat {
    if is_dir(m.data(c)) {
        plus_two(
            if list_error(m, c) is None {
                m.children(c).len()
            } else {
                0
            },
        )
    } else {
        1
    }
}

/// The listing line of node `c` under the name `name`.
pub open spec fn item_of(m: FsModel, c: NodeId, name: Seq<char>) -> ItemV {
    ItemV { name, node: m.data(c), link_count: link_count_of(m, c), path: spec_node_path(m, c) }
}

/// A name that starts with `.`.
pub open spec fn hidden_name(s: Seq<char>) -> bool {
    s.len() > 0 && s[0] == '.'
}

/// The lines `ls` keeps: all of them with `-a`, else those not hidden.
pub open spec fn shown(all: bool) -> spec_fn(DirEntry) -> bool {
    |e: DirEntry| all || !hidden_name(e.name@)
}

pub open spec fn entry_item(m: FsModel) -> spec_fn(DirEntry) -> ItemV {
    |e: DirEntry| item_of(m, e.node_id, e.name@)
}

/// The parent of `n`, or the root for the root itself.
pub open spec fn parent_or_root(m: FsModel, n: NodeId) -> NodeId {
    match m.parent(n) {
        Some(p) => p,
        None => m.root,
    }
}

/// The `.` and `..` lines of a listing with `-a`.
pub open spec fn dot_items(m: FsModel, n: NodeId, all: bool) -> Seq<ItemV> {
    if all {
        seq![
            ItemV {
                name: "."@,
                node: m.data(n),
                link_count: plus_two(m.children(n).len()),
                path: spec_node_path(m, n),
            },
            item_of(m, parent_or_root(m, n), ".."@),
        ]
    } else {
        Seq::empty()
    }
}

/// The lines `ls` shows for directory `n`, sorted by name.
pub open spec fn dir_items(m: FsModel, n: NodeId, all: bool) -> Seq<ItemV> {
    stable_sort(dot_items(m, n, all) + spec_listing(m, n).filter(shown(all)).map_values(entry_item(m)), item_key())
}

/// The listing line of a live node.
fn vfs_item(vfs: &VirtualFilesystem, id: NodeId, display_name: String) -> (r: VfsItem)
    requires
        vfs.wf(),
        vfs@.live(id),
    ensures
        r@ == item_of(vfs@, id, display_name@),
{
    proof {
        vfs.lemma_wf();
    }
    let node = match vfs.get_node(id) {
        Some(d) => d.duplicate(),
        None => vstd::pervasive::unreached(),
    };
    let link_count: usize = if node.is_directory() {
        match vfs.list_directory(id) {
            Ok(es) => es.len().saturating_add(2),
            Err(_) => 2,
        }
    } else {
        1
    };
    VfsItem { node, link_count, display_name, path: vfs.get_node_path(id) }
}

/// Whether a name starts with `.`.
fn is_hidden_name(s: &str) -> (r: bool)
    ensures
        r == hidden_name(s@),
{
    s.unicode_len() > 0 && s.get_char(0) == '.'
}

/// The lines `ls` shows for a directory that can be listed, sorted by name.
fn dir_listing_items(vfs: &VirtualFilesystem, n: NodeId, all: bool) -> (r: Vec<VfsItem>)
    requires
        vfs.wf(),
        vfs@.live(n),
        list_error(vfs@, n) is None,
    ensures
        item_views(r@) == dir_items(vfs@, n, all),
{
    proof {
        vfs.lemma_wf();
    }
    let ghost m = vfs@;
    let entries = match vfs.list_directory(n) {
        Ok(es) => es,
        Err(_) => vstd::pervasive::unreached(),
    };
    let mut items: Vec<VfsItem> = Vec::new();
    if all {
        let node = match vfs.get_node(n) {
            Some(d) => d.duplicate(),
            None => vstd::pervasive::unreached(),
        };
        items.push(
            VfsItem {
                node,
                link_count: entries.len().saturating_add(2),
                display_name: String::from_str("."),
                path: vfs.get_node_path(n),
            },
        );
        let parent = match vfs.get_parent(n) {
            Some(p) => p,
            None => vfs.get_root(),
        };
        assert(m.live(parent));
        items.push(vfs_item(vfs, parent, String::from_str("..")));
        assert(item_views(items@) =~= dot_items(m, n, all));
    } else {
        assert(item_views(items@) =~= dot_items(m, n, all));
    }
    let ghost dots = item_views(items@);
    let mut i: usize = 0;
    assert(entries@.take(0).filter(shown(all)) =~= Seq::<DirEntry>::empty()) by {
        reveal(Seq::filter);
    }
    assert(dots + entries@.take(0).filter(shown(all)).map_values(entry_item(m)) =~= dots);
    while i < entries.len()
        invariant
            vfs.wf(),
            m == vfs@,
            m.wf(),
            m.live(n),
            i <= entries.len(),
            entries@ == spec_listing(m, n),
            forall|k: int| 0 <= k < entries@.len() ==> m.children(n).contains(#[trigger] entries@[k].node_id),
            item_views(items@) == dots + entries@.take(i as int).filter(shown(all)).map_values(entry_item(m)),
        decreases entries.len() - i,
    {
        reveal(Seq::filter);
        let e = &entries[i];
        let ghost pre = entries@.take(i as int).filter(shown(all));
        assert(entries@.take(i + 1).drop_last() =~= entries@.take(i as int));
        assert(entries@.take(i + 1).last() == *e);
        let ghost old_items = items@;
        if all || !is_hidden_name(e.name.as_str()) {
            proof {
                assert(m.children(n).contains(e.node_id));
                let k = choose|k: int| 0 <= k < m.children(n).len() && m.children(n)[k] == e.node_id;
                assert(m.nodes[n].children[k] == e.node_id);
            }
            let it = vfs_item(vfs, e.node_id, e.name.clone());
            items.push(it);
            assert(entries@.take(i + 1).filter(shown(all)) == pre.push(*e));
            assert(item_views(items@) =~= item_views(old_items).push(it@));
            assert(pre.push(*e).map_values(entry_item(m)) =~= pre.map_values(entry_item(m)).push(entry_item(m)(*e)));
        } else {
            assert(entries@.take(i + 1).filter(shown(all)) == pre);
        }
        i = i + 1;
    }
    assert(entries@.take(i as int) =~= entries@);
    let ghost u = items@;
    let sorted = sort_by_key(items);
    proof {
        lemma_sort_map(u, key_of::<VfsItem>(), item_view(), item_key());
    }
    sorted
}

/// What `ls` finds for one operand.
pub enum LsOne {
    Missing(Seq<char>),
    Denied(Seq<char>),
    File(ItemV),
    Dir(Seq<char>, Seq<ItemV>),
}

/// The node an `ls` operand names; the empty operand names the current
/// directory.
pub open spec fn ls_node(m: FsModel, cur: NodeId, tp: Seq<char>) -> Result<NodeId, VfsError> {
    if tp.len() == 0 {
        Ok(cur)
    } else {
        spec_resolve_path(m, cur, tp)
    }
}

/// What `ls` finds for operand `tp`: nothing, a directory it may not
/// list, a file (shown under the operand with link count 0), or a
/// directory and its lines.
pub open spec fn ls_one(m: FsModel, cur: NodeId, all: bool, tp: Seq<char>) -> LsOne {
    match ls_node(m, cur, tp) {
        Err(_) => LsOne::Missing(tp),
        Ok(n) => match m.data(n).node_type {
            VfsNodeType::File { .. } => LsOne::File(
                ItemV { name: tp, node: m.data(n), link_count: 0, path: spec_node_path(m, n) },
            ),
            VfsNodeType::Directory => if list_error(m, n) is None {
                LsOne::Dir(tp, dir_items(m, n, all))
            } else {
                LsOne::Denied(tp)
            },
            VfsNodeType::Link { .. } => LsOne::Missing(tp),
        },
    }
}

pub open spec fn ls_one_fn(m: FsModel, cur: NodeId, all: bool) -> spec_fn(Seq<char>) -> LsOne {
    |tp: Seq<char>| ls_one(m, cur, all, tp)
}

pub open spec fn ls_missing_msg(tp: Seq<char>) -> Seq<char> {
    "ls: cannot access '"@ + tp + "': No such file or directory"@
}

pub open spec fn ls_denied_msg(tp: Seq<char>) -> Seq<char> {
    "ls: cannot access '"@ + tp + "': Permission denied"@
}

/// The error lines of a run of `ls`, in operand order.
pub open spec fn ls_errors(os: Seq<LsOne>) -> Seq<Seq<char>>
    decreases os.len(),
{
    if os.len() == 0 {
        Seq::empty()
    } else {
        let pre = ls_errors(os.drop_last());
        match os.last() {
            LsOne::Missing(tp) => pre.push(ls_missing_msg(tp)),
            LsOne::Denied(tp) => pre.push(ls_denied_msg(tp)),
            _ => pre,
        }
    }
}

/// The file lines of a run of `ls`, in operand order.
pub open spec fn ls_files(os: Seq<LsOne>) -> Seq<ItemV>
    decreases os.len(),
{
    if os.len() == 0 {
        Seq::empty()
    } else {
        let pre = ls_files(os.drop_last());
        match os.last() {
            LsOne::File(it) => pre.push(it),
            _ => pre,
        }
    }
}

/// The directory listings of a run of `ls`, in operand order.
pub open spec fn ls_dirs(os: Seq<LsOne>) -> Seq<(Seq<char>, Seq<ItemV>)>
    decreases os.len(),
{
    if os.len() == 0 {
        Seq::empty()
    } else {
        let pre = ls_dirs(os.drop_last());
        match os.last() {
            LsOne::Dir(tp, items) => pre.push((tp, items)),
            _ => pre,
        }
    }
}

/// The operands of `ls`; with none, the current directory.
pub open spec fn ls_targets(args: Seq<Seq<char>>) -> Seq<Seq<char>> {
    if targets_of(args).len() == 0 {
        seq![Seq::empty()]
    } else {
        targets_of(args)
    }
}

pub open spec fn item_name() -> spec_fn(ItemV) -> Seq<char> {
    |i: ItemV| i.name
}

pub open spec fn listing_names() -> spec_fn((Seq<char>, Seq<ItemV>)) -> Seq<Seq<char>> {
    |d: (Seq<char>, Seq<ItemV>)| d.1.map_values(item_name())
}

/// The names `ls` prints when its output is not a terminal: the files,
/// then the lines of each listing.
pub open spec fn ls_names(files: Seq<ItemV>, dirs: Seq<(Seq<char>, Seq<ItemV>)>) -> Seq<Seq<char>> {
    files.map_values(item_name()) + dirs.map_values(listing_names()).flatten_alt()
}

/// `r` is what `ls` with arguments `args`, run in directory `cur` of `m`,
/// answers: an unknown option letter is refused; otherwise each operand
/// (the current directory when there is none) is listed, errors are
/// joined on standard error, and the files and listings, each sorted by
/// name, are shown as a view on a terminal or as names one per line.
pub open spec fn ls_result(r: CommandRes, m: FsModel, cur: NodeId, args: Seq<Seq<char>>, is_tty: bool) -> bool {
    let opts = options_of(args);
    match first_not_in(opts, 'a', 'l') {
        Some(c) => r.is_failure(
            invalid_option_msg("ls"@, c, "This version of ls only supports options 'a' and 'l'"@),
        ),
        None => {
            let all = opts.contains('a');
            let os = ls_targets(args).map_values(ls_one_fn(m, cur, all));
            let errs = ls_errors(os);
            let files = stable_sort(ls_files(os), item_key());
            let dirs = stable_sort(ls_dirs(os), listing_key());
            &&& r is Output
            &&& r.spec_is_err() == (errs.len() > 0)
            &&& r.stderr() == (if errs.len() > 0 {
                Some(join_with(errs, "\n"@))
            } else {
                None
            })
            &&& if is_tty {
                &&& r.stdout() is None
                &&& r matches CommandRes::Output { stdout_view: Some(v), .. } && v@ == LsViewV {
                    long_format: opts.contains('l'),
                    is_multi: dirs.len() > 1 || (dirs.len() > 0 && files.len() > 0),
                    file_items: files,
                    dir_listings: dirs,
                }
            } else {
                let names = ls_names(files, dirs);
                &&& !r.has_view()
                &&& r.stdout() == (if names.len() > 0 {
                    Some(join_with(names, "\n"@))
                } else {
                    None
                })
            }
        },
    }
}

/// What `ls` found for one operand.
enum Found {
    Missing,
    Denied,
    File(VfsItem),
    Dir(Vec<VfsItem>),
}

/// Lists one operand of `ls`.
fn ls_target(vfs: &VirtualFilesystem, cur: NodeId, tp: &str, all: bool) -> (r: Found)
    requires
        vfs.wf(),
        vfs@.live(cur),
    ensures
        match ls_one(vfs@, cur, all, tp@) {
            LsOne::Missing(_) => r is Missing,
            LsOne::Denied(_) => r is Denied,
            LsOne::File(it) => r matches Found::File(x) && x@ == it,
            LsOne::Dir(_, items) => r matches Found::Dir(v) && item_views(v@) == items,
        },
{
    let resolved = if tp.unicode_len() == 0 {
        Ok(cur)
    } else {
        vfs.resolve_path(cur, tp)
    };
    let id = match resolved {
        Ok(id) => id,
        Err(_) => {
            return Found::Missing;
        },
    };
    let node = match vfs.get_node(id) {
        Some(d) => d,
        None => vstd::pervasive::unreached(),
    };
    match &node.node_type {
        VfsNodeType::File { .. } => Found::File(
            VfsItem {
                node: node.duplicate(),
                link_count: 0,
                display_name: String::from_str(tp),
                path: vfs.get_node_path(id),
            },
        ),
        VfsNodeType::Directory => {
            if vfs.list_directory(id).is_ok() {
                Found::Dir(dir_listing_items(vfs, id, all))
            } else {
                Found::Denied
            }
        },
        VfsNodeType::Link { .. } => Found::Missing,
    }
}

/// Lists directories and files.
pub struct LsCommand;

impl LsCommand {
    pub fn new() -> (r: Self) {
        LsCommand
    }

    /// Runs `ls` with `args` in directory `current_dir`. The filesystem is
    /// only read.
    #[verifier::spinoff_prover]
    #[verifier::rlimit(30)]
    pub fn execute(
        &self,
        vfs: &mut VirtualFilesystem,
        current_dir: NodeId,
        args: Vec<&str>,
        stdin: Option<&str>,
        is_tty: bool,
    ) -> (r: CommandRes)
        requires
            old(vfs).wf(),
            old(vfs)@.live(current_dir),
        ensures
            final(vfs)@ == old(vfs)@,
            final(vfs).wf(),
            ls_result(r, old(vfs)@, current_dir, strs_view(args@), is_tty),
    {
        let ghost a = strs_view(args@);
        let (options, target_paths) = parse_multitarget(args);
        match first_invalid_option(&options, 'a', 'l') {
            Some(c) => {
                let msg = with_char("ls: invalid option -- '", c, "'\nThis version of ls only supports options 'a' and 'l'");
                proof {
                    reveal_strlit("ls: invalid option -- '");
                    reveal_strlit("'\nThis version of ls only supports options 'a' and 'l'");
                    reveal_strlit("ls");
                    reveal_strlit(": invalid option -- '");
                    reveal_strlit("'\n");
                    reveal_strlit("This version of ls only supports options 'a' and 'l'");
                    assert(msg@ =~= invalid_option_msg("ls"@, c, "This version of ls only supports options 'a' and 'l'"@));
                }
                return CommandRes::new().with_error().with_stderr(msg.as_str());
            },
            None => {},
        }
        let all = has_option(&options, 'a');
        let long_format = has_option(&options, 'l');
        let targets: Vec<&str> = if target_paths.len() == 0 {
            let mut t: Vec<&str> = Vec::new();
            t.push("");
            proof {
                reveal_strlit("");
                assert(""@ =~= Seq::<char>::empty());
                assert(t@[0]@ == ""@);
                assert(strs_view(t@) =~= seq![Seq::<char>::empty()]);
            }
            t
        } else {
            target_paths
        };
        let fsys: &VirtualFilesystem = vfs;
        let ghost m = fsys@;
        let ghost tps = strs_view(targets@);
        let ghost os = tps.map_values(ls_one_fn(m, current_dir, all));
        assert(tps == ls_targets(a));
        let mut errs: Vec<String> = Vec::new();
        let mut files: Vec<VfsItem> = Vec::new();
        let mut dirs: Vec<DirListing> = Vec::new();
        let mut i: usize = 0;
        assert(os.take(0) =~= Seq::<LsOne>::empty());
        while i < targets.len()
            invariant
                fsys.wf(),
                m == fsys@,
                m.live(current_dir),
                i <= targets.len(),
                tps == strs_view(targets@),
                os == tps.map_values(ls_one_fn(m, current_dir, all)),
                names_of(errs@) == ls_errors(os.take(i as int)),
                item_views(files@) == ls_files(os.take(i as int)),
                dirs@.map_values(listing_view()) == ls_dirs(os.take(i as int)),
            decreases targets.len() - i,
        {
            let tp = targets[i];
            let ghost pre = os.take(i as int);
            assert(os.take(i + 1).drop_last() =~= pre);
            assert(os.take(i + 1).last() == ls_one(m, current_dir, all, tp@));
            let found = ls_target(fsys, current_dir, tp, all);
            let ghost old_errs = names_of(errs@);
            let ghost old_files = item_views(files@);
            let ghost old_dirs = dirs@.map_values(listing_view());
            match found {
                Found::Missing => {
                    let msg = cat3("ls: cannot access '", tp, "': No such file or directory");
                    errs.push(msg);
                    assert(names_of(errs@) =~= old_errs.push(msg@));
                },
                Found::Denied => {
                    let msg = cat3("ls: cannot access '", tp, "': Permission denied");
                    errs.push(msg);
                    assert(names_of(errs@) =~= old_errs.push(msg@));
                },
                Found::File(it) => {
                    files.push(it);
                    assert(item_views(files@) =~= old_files.push(it@));
                },
                Found::Dir(items) => {
                    let d = DirListing { name: String::from_str(tp), items };
                    dirs.push(d);
                    assert(dirs@.map_values(listing_view()) =~= old_dirs.push(d@));
                },
            }
            i = i + 1;
        }
        assert(os.take(i as int) =~= os);
        let ghost fu = files@;
        let ghost du = dirs@;
        let files = sort_by_key(files);
        let dirs = sort_by_key(dirs);
        proof {
            lemma_sort_map(fu, key_of::<VfsItem>(), item_view(), item_key());
            lemma_sort_map(du, key_of::<DirListing>(), listing_view(), listing_key());
        }
        let ghost sorted_files = item_views(files@);
        let ghost sorted_dirs = dirs@.map_values(listing_view());
        let mut result = CommandRes::new();
        if errs.len() > 0 {
            let text = join_strings(&errs, "\n");
            result = result.with_error().with_stderr(text.as_str());
        }
        if is_tty {
            let is_multi = dirs.len() > 1 || (dirs.len() > 0 && files.len() > 0);
            let view = LsView { long_format, is_multi, file_items: files, dir_listings: dirs };
            result = result.with_stdout_view(view);
        } else {
            let mut names: Vec<String> = Vec::new();
            let mut j: usize = 0;
            while j < files.len()
                invariant
                    j <= files.len(),
                    names_of(names@) == item_views(files@).take(j as int).map_values(item_name()),
                decreases files.len() - j,
            {
                let ghost before = names_of(names@);
                names.push(files[j].display_name.clone());
                assert(item_views(files@).take(j + 1) =~= item_views(files@).take(j as int).push(files@[j as int]@));
                assert(names_of(names@) =~= before.push(files@[j as int].display_name@));
                j = j + 1;
            }
            assert(item_views(files@).take(j as int) =~= item_views(files@));
            let ghost fnames = names_of(names@);
            let ghost lnames = sorted_dirs.map_values(listing_names());
            assert(lnames.take(0).flatten_alt() =~= Seq::<Seq<char>>::empty());
            let mut k: usize = 0;
            while k < dirs.len()
                invariant
                    k <= dirs.len(),
                    lnames == dirs@.map_values(listing_view()).map_values(listing_names()),
                    names_of(names@) == fnames + lnames.take(k as int).flatten_alt(),
                decreases dirs.len() - k,
            {
                let items = &dirs[k].items;
                let ghost base = names_of(names@);
                let mut q: usize = 0;
                while q < items.len()
                    invariant
                        q <= items.len(),
                        names_of(names@) == base + item_views(items@).take(q as int).map_values(item_name()),
                    decreases items.len() - q,
                {
                    let ghost before = names_of(names@);
                    names.push(items[q].display_name.clone());
                    assert(item_views(items@).take(q + 1) =~= item_views(items@).take(q as int).push(items@[q as int]@));
                    assert(names_of(names@) =~= before.push(items@[q as int].display_name@));
                    q = q + 1;
                }
                assert(item_views(items@).take(q as int) =~= item_views(items@));
                assert(lnames.take(k + 1).drop_last() =~= lnames.take(k as int));
                assert(lnames.take(k + 1).last() == item_views(items@).map_values(item_name()));
                k = k + 1;
            }
            assert(lnames.take(k as int) =~= lnames);
            assert(names_of(names@) =~= ls_names(sorted_files, sorted_dirs));
            if names.len() > 0 {
                let text = join_strings(&names, "\n");
                result = result.with_stdout_text(text.as_str());
            }
        }
        result
    }
}

/// The part of a path before its last `/` (empty when it has none).
pub open spec fn parent_part(t: Seq<char>) -> Seq<char> {
    match last_index_of(t, '/') {
        Some(p) => t.take(p),
        None => Seq::empty(),
    }
}

/// The part of a path after its last `/` (all of it when it has none).
pub open spec fn name_part(t: Seq<char>) -> Seq<char> {
    match last_index_of(t, '/') {
        Some(p) => t.skip(p + 1),
        None => t,
    }
}

/// Splits a path at its last `/` into the directory part and the name.
pub fn split_at_last_slash(t: &str) -> (r: (&str, &str))
    ensures
        r.0@ == parent_part(t@),
        r.1@ == name_part(t@),
{
    let n = t.unicode_len();
    match rfind_char(t, '/') {
        Some(pos) => (take_chars(t, pos), skip_chars(t, pos + 1)),
        None => {
            proof {
                reveal_strlit("");
                assert(""@ =~= Seq::<char>::empty());
            }
            ("", t)
        },
    }
}

/// The directory an operand's directory part names: the current directory
/// when the part is empty.
pub open spec fn dir_of(m: FsModel, cur: NodeId, pp: Seq<char>) -> Result<NodeId, VfsError> {
    if pp.len() == 0 {
        Ok(cur)
    } else {
        spec_resolve_path(m, cur, pp)
    }
}

/// `r` is what `cd` with `args`, run in `cur`, answers: too many operands
/// are refused; the operand (`/` when there is none; the empty operand
/// stands for the root) must name a directory, which is navigated to
/// unless it is `cur` itself.
pub open spec fn cd_result(r: CommandRes, m: FsModel, cur: NodeId, args: Seq<Seq<char>>) -> bool {
    if args.len() >= 2 {
        r.is_failure("cd: too many arguments"@)
    } else {
        let t = if args.len() == 0 {
            "/"@
        } else {
            args[0]
        };
        let res = if t.len() == 0 {
            Ok(m.root)
        } else {
            spec_resolve_path(m, cur, t)
        };
        match res {
            Ok(n) => match m.data(n).node_type {
                VfsNodeType::Directory => if n == cur {
                    r.is_empty_output()
                } else {
                    r.redirect_target() == Some(spec_node_path(m, n))
                },
                VfsNodeType::File { .. } => r.is_failure("cd: not a directory: "@ + t),
                VfsNodeType::Link { .. } => r.is_failure("cd: cannot follow link: "@ + t),
            },
            Err(_) => r.is_failure("cd: no such file or directory: "@ + t),
        }
    }
}

/// Changes the current directory (navigates the site).
pub struct CdCommand;

impl CdCommand {
    pub fn new() -> (r: Self) {
        CdCommand
    }

    /// Runs `cd` with `args` in `current_dir`. The filesystem is only read.
    pub fn execute(
        &self,
        vfs: &mut VirtualFilesystem,
        current_dir: NodeId,
        args: Vec<&str>,
        stdin: Option<&str>,
        is_tty: bool,
    ) -> (r: CommandRes)
        requires
            old(vfs).wf(),
            old(vfs)@.live(current_dir),
        ensures
            final(vfs)@ == old(vfs)@,
            final(vfs).wf(),
            cd_result(r, old(vfs)@, current_dir, strs_view(args@)),
    {
        if args.len() >= 2 {
            return CommandRes::new().with_error().with_stderr("cd: too many arguments");
        }
        let target: &str = if args.len() == 0 {
            "/"
        } else {
            args[0]
        };
        let fsys: &VirtualFilesystem = vfs;
        let resolved = if target.unicode_len() == 0 {
            Ok(fsys.get_root())
        } else {
            fsys.resolve_path(current_dir, target)
        };
        match resolved {
            Ok(id) => {
                proof {
                    fsys.lemma_wf();
                }
                let node = match fsys.get_node(id) {
                    Some(d) => d,
                    None => vstd::pervasive::unreached(),
                };
                match &node.node_type {
                    VfsNodeType::Directory => {
                        if node_id_eq(id, current_dir) {
                            CommandRes::new()
                        } else {
                            CommandRes::redirect(fsys.get_node_path(id))
                        }
                    },
                    VfsNodeType::File { .. } => {
                        let msg = concat("cd: not a directory: ", target);
                        CommandRes::new().with_error().with_stderr(msg.as_str())
                    },
                    VfsNodeType::Link { .. } => {
                        let msg = concat("cd: cannot follow link: ", target);
                        CommandRes::new().with_error().with_stderr(msg.as_str())
                    },
                }
            },
            Err(_) => {
                let msg = concat("cd: no such file or directory: ", target);
                CommandRes::new().with_error().with_stderr(msg.as_str())
            },
        }
    }
}

/// What `cat` gives for one operand: its text or an error line.
pub enum CatOne {
    Text(Seq<char>),
    Error(Seq<char>),
}

/// What `cat` gives for operand `tp`: the text of the file it names, or
/// why there is none.
pub open spec fn cat_one(m: FsModel, cur: NodeId, tp: Seq<char>) -> CatOne {
    let res = if tp.len() == 0 {
        Err(VfsError::NotFound)
    } else {
        spec_resolve_path(m, cur, tp)
    };
    match res {
        Err(_) => CatOne::Error("cat: "@ + tp + ": No such file or directory"@),
        Ok(n) => match m.data(n).node_type {
            VfsNodeType::File { .. } => match spec_read_file(m, n) {
                Ok(s) => CatOne::Text(s),
                Err(_) => CatOne::Error("cat: "@ + tp + ": Permission denied"@),
            },
            VfsNodeType::Directory => CatOne::Error("cat: "@ + tp + ": Is a directory"@),
            VfsNodeType::Link { .. } => CatOne::Error("cat: "@ + tp + ": No such file or directory"@),
        },
    }
}

pub open spec fn cat_one_fn(m: FsModel, cur: NodeId) -> spec_fn(Seq<char>) -> CatOne {
    |tp: Seq<char>| cat_one(m, cur, tp)
}

/// The texts of a run of `cat`, in operand order.
pub open spec fn cat_texts(os: Seq<CatOne>) -> Seq<Seq<char>>
    decreases os.len(),
{
    if os.len() == 0 {
        Seq::empty()
    } else {
        match os.last() {
            CatOne::Text(s) => cat_texts(os.drop_last()).push(s),
            CatOne::Error(_) => cat_texts(os.drop_last()),
        }
    }
}

/// The error lines of a run of `cat`, in operand order.
pub open spec fn cat_errors(os: Seq<CatOne>) -> Seq<Seq<char>>
    decreases os.len(),
{
    if os.len() == 0 {
        Seq::empty()
    } else {
        match os.last() {
            CatOne::Text(_) => cat_errors(os.drop_last()),
            CatOne::Error(e) => cat_errors(os.drop_last()).push(e),
        }
    }
}

/// `r` is what `cat` with `args`, run in `cur`, answers: options are
/// refused, as is a missing operand; otherwise the texts of the operands
/// are joined on standard output (when that is not empty) and their
/// errors on standard error.
pub open spec fn cat_result(r: CommandRes, m: FsModel, cur: NodeId, args: Seq<Seq<char>>) -> bool {
    let opts = options_of(args);
    let tps = targets_of(args);
    if opts.len() > 0 {
        r.is_failure(invalid_option_msg("cat"@, opts[0], "This version of cat doesn't support any options"@))
    } else if tps.len() == 0 {
        r.is_failure("cat: missing operand"@)
    } else {
        let os = tps.map_values(cat_one_fn(m, cur));
        let out = join_with(cat_texts(os), "\n"@);
        let errs = cat_errors(os);
        &&& r is Output
        &&& !r.has_view()
        &&& r.spec_is_err() == (errs.len() > 0)
        &&& r.stderr() == (if errs.len() > 0 {
            Some(join_with(errs, "\n"@))
        } else {
            None
        })
        &&& r.stdout() == (if out.len() > 0 {
            Some(out)
        } else {
            None
        })
    }
}

/// Prints the contents of files.
pub struct CatCommand;

impl CatCommand {
    pub fn new() -> (r: Self) {
        CatCommand
    }

    /// Runs `cat` with `args` in `current_dir`. The filesystem is only
    /// read.
    pub fn execute(
        &self,
        vfs: &mut VirtualFilesystem,
        current_dir: NodeId,
        args: Vec<&str>,
        stdin: Option<&str>,
        is_tty: bool,
    ) -> (r: CommandRes)
        requires
            old(vfs).wf(),
            old(vfs)@.live(current_dir),
        ensures
            final(vfs)@ == old(vfs)@,
            final(vfs).wf(),
            cat_result(r, old(vfs)@, current_dir, strs_view(args@)),
    {
        let (options, targets) = parse_multitarget(args);
        if options.len() > 0 {
            let msg = with_char("cat: invalid option -- '", options[0], "'\nThis version of cat doesn't support any options");
            proof {
                reveal_strlit("cat: invalid option -- '");
                reveal_strlit("'\nThis version of cat doesn't support any options");
                reveal_strlit("cat");
                reveal_strlit(": invalid option -- '");
                reveal_strlit("'\n");
                reveal_strlit("This version of cat doesn't support any options");
                assert(msg@ =~= invalid_option_msg("cat"@, options@[0], "This version of cat doesn't support any options"@));
            }
            return CommandRes::new().with_error().with_stderr(msg.as_str());
        }
        if targets.len() == 0 {
            return CommandRes::new().with_error().with_stderr("cat: missing operand");
        }
        let fsys: &VirtualFilesystem = vfs;
        proof {
            fsys.lemma_wf();
        }
        let ghost m = fsys@;
        let ghost tps = strs_view(targets@);
        let ghost os = tps.map_values(cat_one_fn(m, current_dir));
        let mut outs: Vec<String> = Vec::new();
        let mut errs: Vec<String> = Vec::new();
        let mut i: usize = 0;
        assert(os.take(0) =~= Seq::<CatOne>::empty());
        while i < targets.len()
            invariant
                fsys.wf(),
                m == fsys@,
                m.wf(),
                m.live(current_dir),
                i <= targets.len(),
                tps == strs_view(targets@),
                os == tps.map_values(cat_one_fn(m, current_dir)),
                names_of(outs@) == cat_texts(os.take(i as int)),
                names_of(errs@) == cat_errors(os.take(i as int)),
            decreases targets.len() - i,
        {
            let tp = targets[i];
            assert(os.take(i + 1).drop_last() =~= os.take(i as int));
            assert(os.take(i + 1).last() == cat_one(m, current_dir, tp@));
            let ghost old_outs = names_of(outs@);
            let ghost old_errs = names_of(errs@);
            let resolved = if tp.unicode_len() == 0 {
                Err(VfsError::NotFound)
            } else {
                fsys.resolve_path(current_dir, tp)
            };
            match resolved {
                Err(_) => {
                    errs.push(cat3("cat: ", tp, ": No such file or directory"));
                    assert(names_of(errs@) =~= old_errs.push(errs@.last()@));
                },
                Ok(id) => {
                    let node = match fsys.get_node(id) {
                        Some(d) => d,
                        None => vstd::pervasive::unreached(),
                    };
                    match &node.node_type {
                        VfsNodeType::File { .. } => match fsys.read_file(id) {
                            Ok(text) => {
                                outs.push(text);
                                assert(names_of(outs@) =~= old_outs.push(outs@.last()@));
                            },
                            Err(_) => {
                                errs.push(cat3("cat: ", tp, ": Permission denied"));
                                assert(names_of(errs@) =~= old_errs.push(errs@.last()@));
                            },
                        },
                        VfsNodeType::Directory => {
                            errs.push(cat3("cat: ", tp, ": Is a directory"));
                            assert(names_of(errs@) =~= old_errs.push(errs@.last()@));
                        },
                        VfsNodeType::Link { .. } => {
                            errs.push(cat3("cat: ", tp, ": No such file or directory"));
                            assert(names_of(errs@) =~= old_errs.push(errs@.last()@));
                        },
                    }
                },
            }
            i = i + 1;
        }
        assert(os.take(i as int) =~= os);
        let out = join_strings(&outs, "\n");
        let mut result = CommandRes::new();
        if errs.len() > 0 {
            let text = join_strings(&errs, "\n");
            result = result.with_error().with_stderr(text.as_str());
        }
        if out.as_str().unicode_len() > 0 {
            result = result.with_stdout_text(out.as_str());
        }
        result
    }
}

/// `trace` goes from its first model to its last, one step per operand,
/// each step related to the model it starts from by `step`.
pub open spec fn is_run(
    trace: Seq<FsModel>,
    tps: Seq<Seq<char>>,
    step: spec_fn(FsModel, FsModel, Seq<char>) -> bool,
) -> bool {
    &&& trace.len() == tps.len() + 1
    &&& forall|i: int| 0 <= i < tps.len() ==> #[trigger] step(trace[i], trace[i + 1], tps[i])
}

/// The error lines of a run: for each operand, what `err` says of it in
/// the model it met.
pub open spec fn run_errors(
    trace: Seq<FsModel>,
    tps: Seq<Seq<char>>,
    err: spec_fn(FsModel, Seq<char>) -> Option<Seq<char>>,
) -> Seq<Seq<char>>
    decreases tps.len(),
{
    if tps.len() == 0 {
        Seq::empty()
    } else {
        let pre = run_errors(trace, tps.drop_last(), err);
        match err(trace[tps.len() - 1], tps.last()) {
            Some(e) => pre.push(e),
            None => pre,
        }
    }
}

proof fn lemma_run_errors_frame(
    t1: Seq<FsModel>,
    t2: Seq<FsModel>,
    tps: Seq<Seq<char>>,
    err: spec_fn(FsModel, Seq<char>) -> Option<Seq<char>>,
)
    requires
        t1.len() >= tps.len(),
        t2.len() >= tps.len(),
        forall|i: int| 0 <= i < tps.len() ==> t1[i] == t2[i],
    ensures
        run_errors(t1, tps, err) == run_errors(t2, tps, err),
    decreases tps.len(),
{
    if tps.len() > 0 {
        lemma_run_errors_frame(t1, t2, tps.drop_last(), err);
    }
}

/// Extends a run by one step.
proof fn lemma_run_push(
    trace: Seq<FsModel>,
    tps: Seq<Seq<char>>,
    k: int,
    next: FsModel,
    step: spec_fn(FsModel, FsModel, Seq<char>) -> bool,
    err: spec_fn(FsModel, Seq<char>) -> Option<Seq<char>>,
)
    requires
        0 <= k < tps.len(),
        is_run(trace, tps.take(k), step),
        step(trace.last(), next, tps[k]),
    ensures
        is_run(trace.push(next), tps.take(k + 1), step),
        run_errors(trace.push(next), tps.take(k + 1), err) == match err(trace.last(), tps[k]) {
            Some(e) => run_errors(trace, tps.take(k), err).push(e),
            None => run_errors(trace, tps.take(k), err),
        },
{
    let t2 = trace.push(next);
    assert(tps.take(k + 1).drop_last() =~= tps.take(k));
    assert forall|i: int| 0 <= i < k + 1 implies #[trigger] step(t2[i], t2[i + 1], tps.take(k + 1)[i]) by {
        if i < k {
            assert(step(trace[i], trace[i + 1], tps.take(k)[i]));
        }
    }
    lemma_run_errors_frame(t2, trace, tps.take(k), err);
}

/// A result that reports `errs`: with none, a success with no output;
/// otherwise a failure with the lines joined on standard error.
pub open spec fn reports(r: CommandRes, errs: Seq<Seq<char>>) -> bool {
    if errs.len() == 0 {
        r.is_empty_output()
    } else {
        r.is_failure(join_with(errs, "\n"@))
    }
}

/// An error line as a plain value.
pub open spec fn opt_view(r: Option<String>) -> Option<Seq<char>> {
    match r {
        Some(s) => Some(s@),
        None => None,
    }
}

/// The result of a command that reports its error lines.
fn report(errs: &Vec<String>) -> (r: CommandRes)
    ensures
        reports(r, names_of(errs@)),
{
    if errs.len() > 0 {
        let text = join_strings(errs, "\n");
        CommandRes::new().with_error().with_stderr(text.as_str())
    } else {
        CommandRes::new()
    }
}

/// Whether directory `p` can be listed and has a child named `name`.
fn has_entry_named(vfs: &VirtualFilesystem, p: NodeId, name: &str) -> (r: bool)
    requires
        vfs.wf(),
    ensures
        r == (list_error(vfs@, p) is None && child_named(vfs@, p, name@) is Some),
{
    proof {
        vfs.lemma_wf();
    }
    let ghost m = vfs@;
    match vfs.list_directory(p) {
        Err(_) => false,
        Ok(es) => {
            let ghost cs = m.children(p);
            let mut i: usize = 0;
            while i < es.len()
                invariant
                    m == vfs@,
                    list_error(m, p) is None,
                    lists(m, p, es@),
                    cs == m.children(p),
                    i <= es.len(),
                    forall|k: int| 0 <= k < i ==> es@[k].name@ != name@,
                decreases es.len() - i,
            {
                if str_eq(es[i].name.as_str(), name) {
                    proof {
                        let c = es@[i as int].node_id;
                        assert(describes(m, es@[i as int], c));
                        assert(cs.contains(c));
                        let k = choose|k: int| 0 <= k < cs.len() && cs[k] == c;
                        lemma_first_named_exists(m, cs, name@, 0, k);
                    }
                    return true;
                }
                i = i + 1;
            }
            proof {
                assert forall|k: int| 0 <= k < cs.len() implies m.data(cs[k]).name@ != name@ by {
                    assert(cs.contains(cs[k]));
                    let j = choose|j: int| 0 <= j < es@.len() && #[trigger] es@[j].node_id == cs[k];
                    assert(describes(m, es@[j], es@[j].node_id));
                }
                lemma_first_named_none(m, cs, name@, 0);
            }
            false
        },
    }
}

/// What `touch` does with one operand.
pub enum TouchOne {
    Fail(Seq<char>),
    Keep,
    Create(NodeId, Seq<char>),
}

pub open spec fn touch_missing(t: Seq<char>) -> Seq<char> {
    "touch: cannot touch '"@ + t + "': No such file or directory"@
}

/// What `touch` does with operand `t`: nothing when the name is already
/// there, else it makes an empty file, or says why it cannot.
pub open spec fn touch_one(m: FsModel, cur: NodeId, t: Seq<char>) -> TouchOne {
    let name = name_part(t);
    if name.len() == 0 {
        TouchOne::Fail(touch_missing(t))
    } else {
        match dir_of(m, cur, parent_part(t)) {
            Err(_) => TouchOne::Fail(touch_missing(t)),
            Ok(p) => if list_error(m, p) is None && child_named(m, p, name) is Some {
                TouchOne::Keep
            } else {
                match create_error(m, p, name) {
                    None => TouchOne::Create(p, name),
                    Some(VfsError::PermissionDenied) => TouchOne::Fail(
                        "touch: cannot touch '"@ + t + "': Permission denied"@,
                    ),
                    Some(_) => TouchOne::Fail(touch_missing(t)),
                }
            },
        }
    }
}

/// An empty file made by the user under the name `name`.
pub open spec fn is_new_file(d: VfsNode, name: Seq<char>) -> bool {
    &&& d.node_type matches VfsNodeType::File { content: FileContent::Dynamic(s) } && s@.len() == 0
    &&& is_user_node(d, name, d.node_type, 0)
}

/// `b` is `a` with a new node `id` under `p` satisfying `made`.
pub open spec fn grows(a: FsModel, b: FsModel, p: NodeId, id: NodeId) -> bool {
    !a.live(id) && b == with_child(a, p, id, b.data(id))
}

/// One step of `touch`: `b` is `a` with the file made, or `a` itself.
pub open spec fn touch_moves(cur: NodeId, a: FsModel, b: FsModel, t: Seq<char>) -> bool {
    &&& b.wf()
    &&& match touch_one(a, cur, t) {
        TouchOne::Create(p, name) => exists|id: NodeId| #[trigger] grows(a, b, p, id) && is_new_file(b.data(id), name),
        _ => b == a,
    }
}

pub open spec fn touch_step(cur: NodeId) -> spec_fn(FsModel, FsModel, Seq<char>) -> bool {
    |a: FsModel, b: FsModel, t: Seq<char>| touch_moves(cur, a, b, t)
}

pub open spec fn touch_err(cur: NodeId) -> spec_fn(FsModel, Seq<char>) -> Option<Seq<char>> {
    |m: FsModel, t: Seq<char>|
        match touch_one(m, cur, t) {
            TouchOne::Fail(e) => Some(e),
            _ => None,
        }
}

/// Touches one operand.
fn touch_target(vfs: &mut VirtualFilesystem, cur: NodeId, t: &str) -> (r: Option<String>)
    requires
        old(vfs).wf(),
    ensures
        final(vfs).wf(),
        touch_step(cur)(old(vfs)@, final(vfs)@, t@),
        opt_view(r) == touch_err(cur)(old(vfs)@, t@),
{
    proof {
        vfs.lemma_wf();
    }
    let (pp, name) = split_at_last_slash(t);
    if name.unicode_len() == 0 {
        return Some(cat3("touch: cannot touch '", t, "': No such file or directory"));
    }
    let parent = if pp.unicode_len() == 0 {
        Ok(cur)
    } else {
        vfs.resolve_path(cur, pp)
    };
    let p = match parent {
        Ok(id) => id,
        Err(_) => {
            return Some(cat3("touch: cannot touch '", t, "': No such file or directory"));
        },
    };
    if has_entry_named(vfs, p, name) {
        return None;
    }
    match vfs.create_file(p, name, FileContent::Dynamic(String::new())) {
        Ok(id) => {
            proof {
                vfs.lemma_wf();
                assert(grows(old(vfs)@, vfs@, p, id));
                assert(encode_utf8(Seq::<char>::empty()) =~= Seq::<u8>::empty()) by {
                    reveal_with_fuel(encode_utf8, 2);
                }
                assert(is_new_file(vfs@.data(id), name@));
                assert(touch_one(old(vfs)@, cur, t@) == TouchOne::Create(p, name@));
                let a = old(vfs)@;
                let b = vfs@;
                assert(b.wf());
                assert(grows(a, b, p, id) && is_new_file(b.data(id), name@));
                match touch_one(a, cur, t@) {
                    TouchOne::Create(p2, n2) => {
                        assert(p2 == p && n2 == name@);
                        assert(grows(a, b, p2, id) && is_new_file(b.data(id), n2));
                    },
                    _ => {},
                }
                assert(touch_moves(cur, a, b, t@));
            }
            None
        },
        Err(VfsError::PermissionDenied) => {
            proof {
                vfs.lemma_wf();
            }
            Some(cat3("touch: cannot touch '", t, "': Permission denied"))
        },
        Err(_) => {
            proof {
                vfs.lemma_wf();
            }
            Some(cat3("touch: cannot touch '", t, "': No such file or directory"))
        },
    }
}

/// `r` and `b` are what `touch` with `args`, run in `cur` on `a`, answers
/// and leaves: each operand whose name is not there yet becomes an empty file, in order.
pub open spec fn touch_result(r: CommandRes, a: FsModel, b: FsModel, cur: NodeId, args: Seq<Seq<char>>) -> bool {
    let tps = targets_of(args);
    if tps.len() == 0 {
        r.is_failure("touch: missing file operand"@) && b == a
    } else {
        exists|trace: Seq<FsModel>|
            {
                &&& #[trigger] is_run(trace, tps, touch_step(cur))
                &&& trace[0] == a
                &&& trace.last() == b
                &&& reports(r, run_errors(trace, tps, touch_err(cur)))
            }
    }
}

/// Makes empty files.
pub struct TouchCommand;

impl TouchCommand {
    pub fn new() -> (r: Self) {
        TouchCommand
    }

    /// Runs `touch` with `args` in `current_dir`: each operand whose name
    /// is not there yet becomes an empty file, in order.
    pub fn execute(
        &self,
        vfs: &mut VirtualFilesystem,
        current_dir: NodeId,
        args: Vec<&str>,
        stdin: Option<&str>,
        is_tty: bool,
    ) -> (r: CommandRes)
        requires
            old(vfs).wf(),
        ensures
            final(vfs).wf(),
            touch_result(r, old(vfs)@, final(vfs)@, current_dir, strs_view(args@)),
    {
        let (_, targets) = parse_multitarget(args);
        if targets.len() == 0 {
            return CommandRes::new().with_error().with_stderr("touch: missing file operand");
        }
        let ghost tps = strs_view(targets@);
        let ghost mut trace: Seq<FsModel> = seq![vfs@];
        let mut errs: Vec<String> = Vec::new();
        let mut i: usize = 0;
        assert(tps.take(0) =~= Seq::<Seq<char>>::empty());
        while i < targets.len()
            invariant
                vfs.wf(),
                i <= targets.len(),
                tps == strs_view(targets@),
                is_run(trace, tps.take(i as int), touch_step(current_dir)),
                trace[0] == old(vfs)@,
                trace.last() == vfs@,
                names_of(errs@) == run_errors(trace, tps.take(i as int), touch_err(current_dir)),
            decreases targets.len() - i,
        {
            let ghost before = vfs@;
            let e = touch_target(vfs, current_dir, targets[i]);
            proof {
                lemma_run_push(trace, tps, i as int, vfs@, touch_step(current_dir), touch_err(current_dir));
                trace = trace.push(vfs@);
            }
            let ghost old_errs = names_of(errs@);
            match e {
                Some(msg) => {
                    errs.push(msg);
                    assert(names_of(errs@) =~= old_errs.push(errs@.last()@));
                },
                None => {},
            }
            i = i + 1;
        }
        assert(tps.take(i as int) =~= tps);
        report(&errs)
    }
}

/// What `mkdir` does with one operand.
pub enum MkdirOne {
    Fail(Seq<char>),
    Create(NodeId, Seq<char>),
}

pub open spec fn mkdir_msg(t: Seq<char>, tail: Seq<char>) -> Seq<char> {
    "mkdir: cannot create directory '"@ + t + tail
}

/// What `mkdir` does with operand `t`: makes the directory, or says why it
/// cannot.
pub open spec fn mkdir_one(m: FsModel, cur: NodeId, t: Seq<char>) -> MkdirOne {
    let name = name_part(t);
    if name.len() == 0 {
        MkdirOne::Fail(mkdir_msg(t, "': No such file or directory"@))
    } else {
        match dir_of(m, cur, parent_part(t)) {
            Err(_) => MkdirOne::Fail(mkdir_msg(t, "': No such file or directory"@)),
            Ok(p) => match create_error(m, p, name) {
                None => MkdirOne::Create(p, name),
                Some(VfsError::AlreadyExists) => MkdirOne::Fail(mkdir_msg(t, "': File exists"@)),
                Some(VfsError::PermissionDenied) => MkdirOne::Fail(mkdir_msg(t, "': Permission denied"@)),
                Some(VfsError::NotADirectory) => MkdirOne::Fail(mkdir_msg(t, "': Not a directory"@)),
                Some(_) => MkdirOne::Fail(mkdir_msg(t, "': No such file or directory"@)),
            },
        }
    }
}

/// One step of `mkdir`: `b` is `a` with the directory made, or `a` itself.
pub open spec fn mkdir_moves(cur: NodeId, a: FsModel, b: FsModel, t: Seq<char>) -> bool {
    &&& b.wf()
    &&& match mkdir_one(a, cur, t) {
        MkdirOne::Create(p, name) => exists|id: NodeId|
            #[trigger] grows(a, b, p, id) && is_user_node(b.data(id), name, VfsNodeType::Directory, 4096),
        _ => b == a,
    }
}

pub open spec fn mkdir_step(cur: NodeId) -> spec_fn(FsModel, FsModel, Seq<char>) -> bool {
    |a: FsModel, b: FsModel, t: Seq<char>| mkdir_moves(cur, a, b, t)
}

pub open spec fn mkdir_err(cur: NodeId) -> spec_fn(FsModel, Seq<char>) -> Option<Seq<char>> {
    |m: FsModel, t: Seq<char>|
        match mkdir_one(m, cur, t) {
            MkdirOne::Fail(e) => Some(e),
            _ => None,
        }
}

/// Makes the directory one operand names.
fn mkdir_target(vfs: &mut VirtualFilesystem, cur: NodeId, t: &str) -> (r: Option<String>)
    requires
        old(vfs).wf(),
    ensures
        final(vfs).wf(),
        mkdir_step(cur)(old(vfs)@, final(vfs)@, t@),
        opt_view(r) == mkdir_err(cur)(old(vfs)@, t@),
{
    proof {
        vfs.lemma_wf();
    }
    let (pp, name) = split_at_last_slash(t);
    if name.unicode_len() == 0 {
        return Some(cat3("mkdir: cannot create directory '", t, "': No such file or directory"));
    }
    let parent = if pp.unicode_len() == 0 {
        Ok(cur)
    } else {
        vfs.resolve_path(cur, pp)
    };
    let p = match parent {
        Ok(id) => id,
        Err(_) => {
            return Some(cat3("mkdir: cannot create directory '", t, "': No such file or directory"));
        },
    };
    let r = vfs.create_directory(p, name);
    proof {
        vfs.lemma_wf();
    }
    match r {
        Ok(id) => {
            proof {
                let a = old(vfs)@;
                let b = vfs@;
                assert(grows(a, b, p, id));
                match mkdir_one(a, cur, t@) {
                    MkdirOne::Create(p2, n2) => {
                        assert(p2 == p && n2 == name@);
                        assert(grows(a, b, p2, id) && is_user_node(b.data(id), n2, VfsNodeType::Directory, 4096));
                    },
                    _ => {},
                }
                assert(mkdir_moves(cur, a, b, t@));
            }
            None
        },
        Err(VfsError::AlreadyExists) => Some(cat3("mkdir: cannot create directory '", t, "': File exists")),
        Err(VfsError::PermissionDenied) => Some(cat3("mkdir: cannot create directory '", t, "': Permission denied")),
        Err(VfsError::NotADirectory) => Some(cat3("mkdir: cannot create directory '", t, "': Not a directory")),
        Err(_) => Some(cat3("mkdir: cannot create directory '", t, "': No such file or directory")),
    }
}

/// `r` and `b` are what `mkdir` with `args`, run in `cur` on `a`, answers
/// and leaves: each operand becomes a directory, in order.
pub open spec fn mkdir_result(r: CommandRes, a: FsModel, b: FsModel, cur: NodeId, args: Seq<Seq<char>>) -> bool {
    let tps = targets_of(args);
    if tps.len() == 0 {
        r.is_failure("mkdir: missing operand"@) && b == a
    } else {
        exists|trace: Seq<FsModel>|
            {
                &&& #[trigger] is_run(trace, tps, mkdir_step(cur))
                &&& trace[0] == a
                &&& trace.last() == b
                &&& reports(r, run_errors(trace, tps, mkdir_err(cur)))
            }
    }
}

/// Makes directories.
pub struct MkdirCommand;

impl MkdirCommand {
    pub fn new() -> (r: Self) {
        MkdirCommand
    }

    /// Runs `mkdir` with `args` in `current_dir`: each operand becomes a
    /// directory, in order.
    pub fn execute(
        &self,
        vfs: &mut VirtualFilesystem,
        current_dir: NodeId,
        args: Vec<&str>,
        stdin: Option<&str>,
        is_tty: bool,
    ) -> (r: CommandRes)
        requires
            old(vfs).wf(),
        ensures
            final(vfs).wf(),
            mkdir_result(r, old(vfs)@, final(vfs)@, current_dir, strs_view(args@)),
    {
        let (_, targets) = parse_multitarget(args);
        if targets.len() == 0 {
            return CommandRes::new().with_error().with_stderr("mkdir: missing operand");
        }
        let ghost tps = strs_view(targets@);
        let ghost mut trace: Seq<FsModel> = seq![vfs@];
        let mut errs: Vec<String> = Vec::new();
        let mut i: usize = 0;
        assert(tps.take(0) =~= Seq::<Seq<char>>::empty());
        while i < targets.len()
            invariant
                vfs.wf(),
                i <= targets.len(),
                tps == strs_view(targets@),
                is_run(trace, tps.take(i as int), mkdir_step(current_dir)),
                trace[0] == old(vfs)@,
                trace.last() == vfs@,
                names_of(errs@) == run_errors(trace, tps.take(i as int), mkdir_err(current_dir)),
            decreases targets.len() - i,
        {
            let e = mkdir_target(vfs, current_dir, targets[i]);
            proof {
                lemma_run_push(trace, tps, i as int, vfs@, mkdir_step(current_dir), mkdir_err(current_dir));
                trace = trace.push(vfs@);
            }
            let ghost old_errs = names_of(errs@);
            match e {
                Some(msg) => {
                    errs.push(msg);
                    assert(names_of(errs@) =~= old_errs.push(errs@.last()@));
                },
                None => {},
            }
            i = i + 1;
        }
        assert(tps.take(i as int) =~= tps);
        report(&errs)
    }
}

/// What `rm` does with one operand.
pub enum RmOne {
    Fail(Seq<char>),
    Delete(NodeId),
    DeleteTree(NodeId),
}

pub open spec fn rm_msg(t: Seq<char>, tail: Seq<char>) -> Seq<char> {
    "rm: cannot remove '"@ + t + tail
}

/// What `rm` does with operand `t`: a directory needs `-r`; with it the
/// whole subtree goes, without it the single node.
pub open spec fn rm_one(m: FsModel, cur: NodeId, rec: bool, t: Seq<char>) -> RmOne {
    match spec_resolve_path(m, cur, t) {
        Err(_) => RmOne::Fail(rm_msg(t, "': No such file or directory"@)),
        Ok(n) => if m.live(n) && is_dir(m.data(n)) && !rec {
            RmOne::Fail(rm_msg(t, "': Is a directory"@))
        } else if rec {
            RmOne::DeleteTree(n)
        } else {
            RmOne::Delete(n)
        },
    }
}

/// Why `rm` cannot remove operand `t`, if it cannot.
pub open spec fn rm_error(m: FsModel, cur: NodeId, rec: bool, t: Seq<char>) -> Option<Seq<char>> {
    match rm_one(m, cur, rec, t) {
        RmOne::Fail(e) => Some(e),
        RmOne::Delete(n) => if n == m.root || !m.live(n) || m.data(n).permissions.immutable {
            Some(rm_msg(t, "': Permission denied"@))
        } else if is_dir(m.data(n)) && m.children(n).len() > 0 {
            Some(rm_msg(t, "': Directory not empty"@))
        } else {
            None
        },
        RmOne::DeleteTree(n) => if n == m.root || !m.live(n) || has_immutable_below(m, n) {
            Some(rm_msg(t, "': Permission denied"@))
        } else {
            None
        },
    }
}

/// One step of `rm`: what goes from `a` to `b`. A subtree holding an
/// immutable node loses the deletable part met before it.
pub open spec fn rm_moves(cur: NodeId, rec: bool, a: FsModel, b: FsModel, t: Seq<char>) -> bool {
    &&& b.wf()
    &&& match rm_one(a, cur, rec, t) {
        RmOne::Fail(_) => b == a,
        RmOne::Delete(n) => if rm_error(a, cur, rec, t) is Some {
            b == a
        } else {
            pruned(a, b, just(n))
        },
        RmOne::DeleteTree(n) => if n == a.root || !a.live(n) {
            b == a
        } else if has_immutable_below(a, n) {
            &&& pruned(a, b, lost(a, b))
            &&& b.live(n)
            &&& forall|x: NodeId| #[trigger] a.live(x) && !b.live(x) ==> descends(a, x, n) && x != n
            &&& (a.data(n).permissions.immutable ==> b == a)
            &&& forall|x: NodeId| #[trigger] lost(a, b)(x) ==> !a.data(x).permissions.immutable
        } else {
            &&& pruned(a, b, lost(a, b))
            &&& forall|x: NodeId| #[trigger] a.live(x) ==> (b.live(x) <==> !descends(a, x, n))
        },
    }
}

pub open spec fn rm_step(cur: NodeId, rec: bool) -> spec_fn(FsModel, FsModel, Seq<char>) -> bool {
    |a: FsModel, b: FsModel, t: Seq<char>| rm_moves(cur, rec, a, b, t)
}

pub open spec fn rm_err(cur: NodeId, rec: bool) -> spec_fn(FsModel, Seq<char>) -> Option<Seq<char>> {
    |m: FsModel, t: Seq<char>| rm_error(m, cur, rec, t)
}

/// Removes what one operand names.
fn rm_target(vfs: &mut VirtualFilesystem, cur: NodeId, rec: bool, t: &str) -> (r: Option<String>)
    requires
        old(vfs).wf(),
    ensures
        final(vfs).wf(),
        rm_step(cur, rec)(old(vfs)@, final(vfs)@, t@),
        opt_view(r) == rm_err(cur, rec)(old(vfs)@, t@),
{
    proof {
        vfs.lemma_wf();
    }
    let id = match vfs.resolve_path(cur, t) {
        Ok(id) => id,
        Err(_) => {
            return Some(cat3("rm: cannot remove '", t, "': No such file or directory"));
        },
    };
    match vfs.get_node(id) {
        Some(node) => {
            if node.is_directory() && !rec {
                return Some(cat3("rm: cannot remove '", t, "': Is a directory"));
            }
        },
        None => {},
    }
    let res = if rec {
        vfs.delete_node_recursive(id)
    } else {
        vfs.delete_node(id)
    };
    proof {
        vfs.lemma_wf();
    }
    match res {
        Ok(()) => None,
        Err(VfsError::PermissionDenied) => Some(cat3("rm: cannot remove '", t, "': Permission denied")),
        Err(VfsError::SystemError(msg)) => {
            if contains_str(msg.as_str(), "not empty") {
                Some(cat3("rm: cannot remove '", t, "': Directory not empty"))
            } else {
                proof {
                    reveal_strlit("Directory not empty");
                    reveal_strlit("not empty");
                    assert(occurs_at(msg@, "not empty"@, 10));
                }
                Some(cat3("rm: cannot remove '", t, "': Permission denied"))
            }
        },
        Err(_) => Some(cat3("rm: cannot remove '", t, "': Permission denied")),
    }
}

/// `r` and `b` are what `rm` with `args`, run in `cur` on `a`, answers
/// and leaves: unknown options are refused; otherwise each operand is
/// removed in order (with `-r`, directories and all below them).
pub open spec fn rm_result(r: CommandRes, a: FsModel, b: FsModel, cur: NodeId, args: Seq<Seq<char>>) -> bool {
    let opts = options_of(args);
    let tps = targets_of(args);
    match first_not_in(opts, 'r', 'f') {
        Some(c) => r.is_failure(
            invalid_option_msg("rm"@, c, "This version of rm only supports options 'r' and 'f'"@),
        ) && b == a,
        None => if tps.len() == 0 {
            r.is_failure("rm: missing operand"@) && b == a
        } else {
            exists|trace: Seq<FsModel>|
                {
                    &&& #[trigger] is_run(trace, tps, rm_step(cur, opts.contains('r')))
                    &&& trace[0] == a
                    &&& trace.last() == b
                    &&& reports(r, run_errors(trace, tps, rm_err(cur, opts.contains('r'))))
                }
        },
    }
}

/// Removes files and directories.
pub struct RmCommand;

impl RmCommand {
    pub fn new() -> (r: Self) {
        RmCommand
    }

    /// Runs `rm` with `args` in `current_dir`: unknown options are refused;
    /// otherwise each operand is removed in order (with `-r`, directories
    /// and all below them).
    pub fn execute(
        &self,
        vfs: &mut VirtualFilesystem,
        current_dir: NodeId,
        args: Vec<&str>,
        stdin: Option<&str>,
        is_tty: bool,
    ) -> (r: CommandRes)
        requires
            old(vfs).wf(),
        ensures
            final(vfs).wf(),
            rm_result(r, old(vfs)@, final(vfs)@, current_dir, strs_view(args@)),
    {
        let (options, targets) = parse_multitarget(args);
        let recursive = has_option(&options, 'r');
        match first_invalid_option(&options, 'r', 'f') {
            Some(c) => {
                let msg = with_char("rm: invalid option -- '", c, "'\nThis version of rm only supports options 'r' and 'f'");
                proof {
                    reveal_strlit("rm: invalid option -- '");
                    reveal_strlit("'\nThis version of rm only supports options 'r' and 'f'");
                    reveal_strlit("rm");
                    reveal_strlit(": invalid option -- '");
                    reveal_strlit("'\n");
                    reveal_strlit("This version of rm only supports options 'r' and 'f'");
                    assert(msg@ =~= invalid_option_msg("rm"@, c, "This version of rm only supports options 'r' and 'f'"@));
                }
                return CommandRes::new().with_error().with_stderr(msg.as_str());
            },
            None => {},
        }
        if targets.len() == 0 {
            return CommandRes::new().with_error().with_stderr("rm: missing operand");
        }
        let ghost tps = strs_view(targets@);
        let ghost mut trace: Seq<FsModel> = seq![vfs@];
        let mut errs: Vec<String> = Vec::new();
        let mut i: usize = 0;
        assert(tps.take(0) =~= Seq::<Seq<char>>::empty());
        while i < targets.len()
            invariant
                vfs.wf(),
                i <= targets.len(),
                tps == strs_view(targets@),
                is_run(trace, tps.take(i as int), rm_step(current_dir, recursive)),
                trace[0] == old(vfs)@,
                trace.last() == vfs@,
                names_of(errs@) == run_errors(trace, tps.take(i as int), rm_err(current_dir, recursive)),
            decreases targets.len() - i,
        {
            let e = rm_target(vfs, current_dir, recursive, targets[i]);
            proof {
                lemma_run_push(trace, tps, i as int, vfs@, rm_step(current_dir, recursive), rm_err(current_dir, recursive));
                trace = trace.push(vfs@);
            }
            let ghost old_errs = names_of(errs@);
            match e {
                Some(msg) => {
                    errs.push(msg);
                    assert(names_of(errs@) =~= old_errs.push(errs@.last()@));
                },
                None => {},
            }
            i = i + 1;
        }
        assert(tps.take(i as int) =~= tps);
        report(&errs)
    }
}

/// Copies files and directories.
pub struct CpCommand;

impl CpCommand {
    pub fn new() -> (r: Self) {
        CpCommand
    }

    /// Runs `cp` with `args` in `current_dir`.
    pub fn execute(
        &self,
        vfs: &mut VirtualFilesystem,
        current_dir: NodeId,
        args: Vec<&str>,
        stdin: Option<&str>,
        is_tty: bool,
    ) -> (r: CommandRes)
        requires
            old(vfs).wf(),
        ensures
            final(vfs).wf(),
            cp_result(r, old(vfs)@, final(vfs)@, current_dir, strs_view(args@)),
    {
        cp_run(vfs, current_dir, args)
    }
}

/// Moves files and directories.
pub struct MvCommand;

impl MvCommand {
    pub fn new() -> (r: Self) {
        MvCommand
    }

    /// Runs `mv` with `args` in `current_dir`.
    pub fn execute(
        &self,
        vfs: &mut VirtualFilesystem,
        current_dir: NodeId,
        args: Vec<&str>,
        stdin: Option<&str>,
        is_tty: bool,
    ) -> (r: CommandRes)
        requires
            old(vfs).wf(),
        ensures
            final(vfs).wf(),
            mv_result(r, old(vfs)@, final(vfs)@, current_dir, strs_view(args@)),
    {
        mv_run(vfs, current_dir, args)
    }
}

/// A part of what `ls` shows on a terminal, in order: the file operands,
/// a blank line, the heading of directory operand `i`, or its listing.
#[derive(Clone, Copy, PartialEq, Eq, Structural, Debug)]
pub enum LsBlock {
    Files,
    Break,
    Heading(usize),
    Dir(usize),
}

/// The parts for the first `n` directory operands: each listing, headed
/// (after a blank line, but for the first) by its name when several
/// things are shown.
pub open spec fn dir_blocks(multi: bool, n: nat) -> Seq<LsBlock>
    decreases n,
{
    if n == 0 {
        Seq::empty()
    } else {
        let i = (n - 1) as usize;
        let head = if multi {
            (if n - 1 > 0 {
                seq![LsBlock::Break]
            } else {
                Seq::empty()
            }) + seq![LsBlock::Heading(i)]
        } else {
            Seq::empty()
        };
        dir_blocks(multi, (n - 1) as nat) + head + seq![LsBlock::Dir(i)]
    }
}

/// The parts of a listing: the file operands first (followed by a blank
/// line when several things are shown), then the directory operands.
pub open spec fn spec_blocks(v: LsViewV) -> Seq<LsBlock> {
    let files = if v.file_items.len() > 0 {
        seq![LsBlock::Files] + if v.is_multi {
            seq![LsBlock::Break]
        } else {
            Seq::empty()
        }
    } else {
        Seq::empty()
    };
    files + dir_blocks(v.is_multi, v.dir_listings.len())
}

impl LsView {
    /// The parts shown, in order.
    pub fn blocks(&self) -> (r: Vec<LsBlock>)
        ensures
            r@ == spec_blocks(self@),
    {
        let mut r: Vec<LsBlock> = Vec::new();
        if self.file_items.len() > 0 {
            r.push(LsBlock::Files);
            if self.is_multi {
                r.push(LsBlock::Break);
            }
        }
        let ghost files = r@;
        assert(files + dir_blocks(self.is_multi, 0) =~= files);
        let n = self.dir_listings.len();
        let mut i: usize = 0;
        while i < n
            invariant
                i <= n,
                n == self@.dir_listings.len(),
                r@ == files + dir_blocks(self.is_multi, i as nat),
            decreases n - i,
        {
            let ghost before = r@;
            if self.is_multi {
                if i > 0 {
                    r.push(LsBlock::Break);
                }
                r.push(LsBlock::Heading(i));
            }
            r.push(LsBlock::Dir(i));
            assert(r@ =~= files + dir_blocks(self.is_multi, (i + 1) as nat));
            i = i + 1;
        }
        r
    }

    /// The heading of directory operand `i`: its name and a colon.
    pub fn heading(&self, i: usize) -> (r: String)
        requires
            i < self@.dir_listings.len(),
        ensures
            r@ == self@.dir_listings[i as int].0 + ":"@,
    {
        concat(self.dir_listings[i].name.as_str(), ":")
    }
}

/// A line of the long format: the node's details, then its name.
pub fn long_line(item: &VfsItem) -> (r: String)
    ensures
        r@ == crate::vfs::spec_long_meta(item.node, item.link_count as nat) + item.display_name@,
{
    let meta = item.node.long_meta_string(item.link_count);
    concat(meta.as_str(), item.display_name.as_str())
}

} // verus!
