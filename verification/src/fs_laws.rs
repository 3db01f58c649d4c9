use vstd::prelude::*;

use crate::fs::{
    apply_from, entry_key, lemma_last_segment, spec_dir_base, spec_dir_items, spec_file_contents, spec_target_from,
    spec_target_path, strip_dot_slash, DirV, FileV, TargetV,
};
use crate::sort::{lemma_sort_map, stable_sort};
use crate::text::{seq_starts_with, split_acc, split_nonempty};
use crate::vfs::{
    initial_layout, join_with, resolve_from, spec_read_file, spec_resolve_path, spec_step, walk_from, FsModel,
    VfsError,
};
use crate::fs::target_executable;
use crate::vfs_laws::{clean_name, lemma_first_named_at, lemma_split_join as lemma_split_join_names};

verus! {

/// The names of a listing's entries.
pub open spec fn entry_names(s: Seq<(Seq<char>, TargetV)>) -> Seq<Seq<char>> {
    s.map_values(entry_key())
}

/// The names that a listing with hidden entries adds: `.`, `..`, and at the
/// top `.zshrc`.
pub open spec fn dot_names(d: DirV) -> Seq<Seq<char>> {
    if d is Base {
        seq!["."@, ".."@, ".zshrc"@]
    } else {
        seq!["."@, ".."@]
    }
}

/// A text ordered by itself.
pub open spec fn text_key() -> spec_fn(Seq<char>) -> Seq<char> {
    |s: Seq<char>| s
}

/// Listing a directory with its hidden entries gives the names of the plain
/// listing and those of `dot_names`, nothing else.
pub proof fn law_all_adds_dot_entries(d: DirV, posts: Seq<Seq<char>>)
    ensures
        entry_names(spec_dir_items(d, posts, true)).to_multiset() == entry_names(
            spec_dir_items(d, posts, false),
        ).to_multiset().add(dot_names(d).to_multiset()),
{
    let a = spec_dir_items(d, posts, false);
    let b = spec_dir_items(d, posts, true);
    let e = b.skip(a.len() as int);
    assert(b =~= a + e);
    assert(entry_names(b) =~= entry_names(a) + entry_names(e));
    assert(entry_names(e) =~= dot_names(d));
    vstd::seq_lib::lemma_multiset_commutative(entry_names(a), entry_names(e));
}

/// The blog folder lists its posts and `nav.rs`, by name.
pub proof fn law_blog_listing_names(posts: Seq<Seq<char>>)
    ensures
        entry_names(stable_sort(spec_dir_items(DirV::Blog, posts, false), entry_key())) == stable_sort(
            posts.push("nav.rs"@),
            text_key(),
        ),
{
    let items = spec_dir_items(DirV::Blog, posts, false);
    lemma_sort_map(items, entry_key(), entry_key(), text_key());
    assert(entry_names(items) =~= posts.push("nav.rs"@));
}

/// A directory's site path names that directory again; for a post, when it
/// is one of `posts` and its name holds no `/`.
pub proof fn law_dir_base_names_dir(d: DirV, posts: Seq<Seq<char>>)
    requires
        d matches DirV::BlogPost(p) ==> posts.contains(p) && p.len() > 0 && forall|i: int|
            0 <= i < p.len() ==> p[i] != '/',
    ensures
        spec_target_from(spec_dir_base(d), posts) == TargetV::Dir(d),
{
    reveal_strlit("/");
    reveal_strlit("/blog");
    reveal_strlit("/cv");
    reveal_strlit("/blog/");
    if let DirV::BlogPost(p) = d {
        let path = "/blog/"@ + p;
        assert(path.len() > "/blog"@.len());
        assert(path != "/"@ && path != "/blog"@ && path != "/cv"@);
        assert(path.subrange(0, 6) =~= "/blog/"@);
        assert(seq_starts_with(path, "/blog/"@));
        assert(path.skip(6) =~= p);
        assert(path[5] == '/');
        lemma_last_segment(path, 5);
    }
}

/// A `nav.rs` with an empty path navigates to the top, as one with `/`.
pub proof fn law_nav_of_empty_path_is_root()
    ensures
        spec_file_contents(FileV::Nav(Seq::empty())) == spec_file_contents(FileV::Nav("/"@)),
{
}

/// A piece of a path: not empty, and without `sep`.
pub open spec fn is_piece(c: Seq<char>, sep: char) -> bool {
    c.len() > 0 && forall|j: int| 0 <= j < c.len() ==> c[j] != sep
}

pub open spec fn all_pieces(p: Seq<Seq<char>>, sep: char) -> bool {
    forall|i: int| 0 <= i < p.len() ==> is_piece(#[trigger] p[i], sep)
}

/// No part is `.` or `..`.
pub open spec fn no_dots(p: Seq<Seq<char>>) -> bool {
    forall|i: int| 0 <= i < p.len() ==> (#[trigger] p[i]) != seq!['.'] && p[i] != seq!['.', '.']
}

proof fn lemma_split_no_sep(q: Seq<char>, sep: char, cur: Seq<char>)
    requires
        forall|j: int| 0 <= j < q.len() ==> q[j] != sep,
    ensures
        split_acc(q, sep, cur) == (if cur.len() + q.len() == 0 {
            Seq::<Seq<char>>::empty()
        } else {
            seq![cur + q]
        }),
    decreases q.len(),
{
    if q.len() == 0 {
        assert(cur + q =~= cur);
    } else {
        lemma_split_no_sep(q.drop_first(), sep, cur.push(q[0]));
        assert(cur.push(q[0]) + q.drop_first() =~= cur + q);
    }
}

proof fn lemma_split_append(s: Seq<char>, q: Seq<char>, sep: char, cur: Seq<char>)
    requires
        is_piece(q, sep),
    ensures
        split_acc(s + seq![sep] + q, sep, cur) == split_acc(s, sep, cur).push(q),
    decreases s.len(),
{
    let t = s + seq![sep] + q;
    let head: Seq<Seq<char>> = if cur.len() == 0 {
        Seq::empty()
    } else {
        seq![cur]
    };
    if s.len() == 0 {
        assert(t[0] == sep);
        assert(t.drop_first() =~= q);
        lemma_split_no_sep(q, sep, Seq::empty());
        assert(Seq::<char>::empty() + q =~= q);
        assert(head + seq![q] =~= head.push(q));
    } else {
        assert(t[0] == s[0]);
        assert(t.drop_first() =~= s.drop_first() + seq![sep] + q);
        if s[0] == sep {
            lemma_split_append(s.drop_first(), q, sep, Seq::empty());
            assert(head + split_acc(s.drop_first(), sep, Seq::empty()).push(q) =~= (head + split_acc(
                s.drop_first(),
                sep,
                Seq::empty(),
            )).push(q));
        } else {
            lemma_split_append(s.drop_first(), q, sep, cur.push(s[0]));
        }
    }
}

proof fn lemma_split_join(p: Seq<Seq<char>>)
    requires
        all_pieces(p, '/'),
    ensures
        split_nonempty("/"@ + join_with(p, "/"@), '/') == p,
    decreases p.len(),
{
    reveal_strlit("/");
    if p.len() == 0 {
        assert("/"@ + join_with(p, "/"@) =~= seq!['/']);
        assert(seq!['/'].drop_first() =~= Seq::<char>::empty());
        assert(split_acc(seq!['/'], '/', Seq::empty()) =~= Seq::<Seq<char>>::empty() + split_acc(
            Seq::empty(),
            '/',
            Seq::empty(),
        ));
        assert(p =~= Seq::<Seq<char>>::empty());
    } else if p.len() == 1 {
        assert(is_piece(p[0], '/'));
        assert("/"@ + join_with(p, "/"@) =~= Seq::<char>::empty() + seq!['/'] + p[0]);
        lemma_split_append(Seq::empty(), p[0], '/', Seq::empty());
        assert(p =~= Seq::<Seq<char>>::empty().push(p[0]));
    } else {
        let pre = p.drop_last();
        assert(all_pieces(pre, '/')) by {
            assert forall|i: int| 0 <= i < pre.len() implies is_piece(#[trigger] pre[i], '/') by {
                assert(pre[i] == p[i]);
            }
        }
        lemma_split_join(pre);
        assert(is_piece(p[p.len() - 1], '/'));
        assert("/"@ + join_with(p, "/"@) =~= ("/"@ + join_with(pre, "/"@)) + seq!['/'] + p.last());
        lemma_split_append("/"@ + join_with(pre, "/"@), p.last(), '/', Seq::empty());
        assert(p =~= pre.push(p.last()));
    }
}

proof fn lemma_split_pieces(s: Seq<char>, sep: char, cur: Seq<char>)
    requires
        forall|j: int| 0 <= j < cur.len() ==> cur[j] != sep,
    ensures
        all_pieces(split_acc(s, sep, cur), sep),
    decreases s.len(),
{
    let head: Seq<Seq<char>> = if cur.len() == 0 {
        Seq::empty()
    } else {
        seq![cur]
    };
    assert(all_pieces(head, sep));
    if s.len() == 0 {
    } else if s[0] == sep {
        lemma_split_pieces(s.drop_first(), sep, Seq::empty());
        let rest = split_acc(s.drop_first(), sep, Seq::empty());
        assert forall|i: int| 0 <= i < (head + rest).len() implies is_piece(#[trigger] (head + rest)[i], sep) by {
            if i < head.len() {
                assert((head + rest)[i] == head[i]);
            } else {
                assert((head + rest)[i] == rest[i - head.len()]);
            }
        }
    } else {
        lemma_split_pieces(s.drop_first(), sep, cur.push(s[0]));
    }
}

proof fn lemma_apply_clean(parts: Seq<Seq<char>>, comps: Seq<Seq<char>>, k: int)
    requires
        all_pieces(parts, '/'),
        no_dots(parts),
        all_pieces(comps, '/'),
    ensures
        all_pieces(apply_from(parts, comps, k), '/'),
        no_dots(apply_from(parts, comps, k)),
    decreases comps.len() - k,
{
    if 0 <= k < comps.len() {
        let c = comps[k];
        let next = if c == seq!['.'] {
            parts
        } else if c == seq!['.', '.'] {
            if parts.len() > 0 {
                parts.drop_last()
            } else {
                parts
            }
        } else {
            parts.push(c)
        };
        assert(all_pieces(next, '/') && no_dots(next)) by {
            assert forall|i: int| 0 <= i < next.len() implies is_piece(#[trigger] next[i], '/') && next[i] != seq![
                '.',
            ] && next[i] != seq!['.', '.'] by {
                if i < parts.len() {
                    assert(next[i] == parts[i]);
                } else {
                    assert(next[i] == c);
                }
            }
        }
        lemma_apply_clean(next, comps, k + 1);
    }
}

proof fn lemma_apply_plain(base: Seq<Seq<char>>, p: Seq<Seq<char>>, k: int)
    requires
        0 <= k <= p.len(),
        no_dots(p),
    ensures
        apply_from(base, p, k) == base + p.skip(k),
    decreases p.len() - k,
{
    if k == p.len() {
        assert(base + p.skip(k) =~= base);
    } else {
        assert(p[k] != seq!['.'] && p[k] != seq!['.', '.']);
        lemma_apply_plain(base.push(p[k]), p, k + 1);
        assert(base.push(p[k]) + p.skip(k + 1) =~= base + p.skip(k));
    }
}

/// A resolved path resolves to itself from any directory, when the
/// directory it was resolved in names no `.` or `..` part.
pub proof fn law_target_path_is_fixed_point(path: Seq<char>, target: Seq<char>, path2: Seq<char>)
    requires
        no_dots(split_nonempty(path, '/')),
    ensures
        spec_target_path(path2, spec_target_path(path, target, false), false) == spec_target_path(
            path,
            target,
            false,
        ),
{
    reveal_strlit("/");
    let t1 = strip_dot_slash(target);
    let absolute = t1.len() > 0 && t1[0] == '/';
    let home = t1 == seq!['~'] || (t1.len() >= 2 && t1[0] == '~' && t1[1] == '/');
    let base = if absolute || home {
        Seq::<Seq<char>>::empty()
    } else {
        split_nonempty(path, '/')
    };
    let t2 = if home {
        t1.drop_first()
    } else {
        t1
    };
    let comps = split_nonempty(t2, '/');
    lemma_split_pieces(path, '/', Seq::empty());
    lemma_split_pieces(t2, '/', Seq::empty());
    lemma_apply_clean(base, comps, 0);
    let parts = apply_from(base, comps, 0);
    let r = "/"@ + join_with(parts, "/"@);
    assert(r == spec_target_path(path, target, false));
    assert(r[0] == '/');
    assert(strip_dot_slash(r) == r);
    lemma_split_join(parts);
    lemma_apply_plain(Seq::empty(), parts, 0);
    assert(Seq::<Seq<char>>::empty() + parts.skip(0) =~= parts);
}

/// An absolute target resolves the same from every directory.
pub proof fn law_absolute_target_ignores_directory(path: Seq<char>, target: Seq<char>, preserve_dot: bool)
    requires
        target.len() > 0,
        target[0] == '/',
    ensures
        spec_target_path(path, target, preserve_dot) == spec_target_path("/"@, target, preserve_dot),
{
    assert(strip_dot_slash(target) == target);
}

/// What reading the file at `path` gives, the path resolved from the top.
pub open spec fn read_at(m: FsModel, path: Seq<char>) -> Result<Seq<char>, VfsError> {
    match spec_resolve_path(m, m.root, path) {
        Ok(n) => spec_read_file(m, n),
        Err(e) => Err(e),
    }
}

proof fn lemma_top_entry(m: FsModel, k: int, name: Seq<char>)
    requires
        m.wf(),
        0 <= k < m.children(m.root).len(),
        m.data(m.children(m.root)[k]).name@ == name,
        forall|i: int| 0 <= i < k ==> m.data(#[trigger] m.children(m.root)[i]).name@ != name,
        is_piece(name, '/'),
        name != seq!['.'],
        name != seq!['.', '.'],
    ensures
        spec_resolve_path(m, m.root, "/"@ + name) == Ok::<_, VfsError>(m.children(m.root)[k]),
{
    reveal_strlit("/");
    let path = "/"@ + name;
    assert(path[0] == '/');
    assert(path != seq!['.'] && path != seq!['~']) by {
        if path == seq!['.'] || path == seq!['~'] {
            assert(path[0] != '/');
        }
    }
    assert(path.drop_first() =~= name);
    lemma_split_no_sep(name, '/', Seq::empty());
    assert(Seq::<char>::empty() + name =~= name);
    assert(split_nonempty(name, '/') == seq![name]);
    lemma_first_named_at(m, m.children(m.root), name, 0, k);
    let c = m.children(m.root)[k];
    assert(spec_step(m, m.root, name) == Ok::<_, VfsError>(c));
    assert(walk_from(m, c, seq![name], 1) == Ok::<_, VfsError>(c));
    assert(walk_from(m, m.root, seq![name], 0) == Ok::<_, VfsError>(c));
    assert(resolve_from(m, m.root, path.drop_first()) == Ok::<_, VfsError>(c));
}

proof fn lemma_top_read(m: FsModel, k: int, name: Seq<char>, path: Seq<char>, text: Seq<char>)
    requires
        m.wf(),
        0 <= k < m.children(m.root).len(),
        m.data(m.children(m.root)[k]).name@ == name,
        forall|i: int| 0 <= i < k ==> m.data(#[trigger] m.children(m.root)[i]).name@ != name,
        is_piece(name, '/'),
        name != seq!['.'],
        name != seq!['.', '.'],
        path == "/"@ + name,
        spec_read_file(m, m.children(m.root)[k]) == Ok::<_, VfsError>(text),
    ensures
        read_at(m, path) == Ok::<_, VfsError>(text),
{
    lemma_top_entry(m, k, name);
}

/// The names of the entries at the top of a new filesystem, and what its
/// files read.
proof fn lemma_layout_top(m: FsModel, posts: Seq<Seq<char>>)
    requires
        m.wf(),
        initial_layout(m, posts),
    ensures
        m.children(m.root).len() == 6,
        m.data(m.children(m.root)[0]).name@ == "blog"@,
        m.data(m.children(m.root)[1]).name@ == "cv"@,
        m.data(m.children(m.root)[2]).name@ == "mines.sh"@,
        m.data(m.children(m.root)[3]).name@ == "thanks.txt"@,
        m.data(m.children(m.root)[4]).name@ == ".zshrc"@,
        m.data(m.children(m.root)[5]).name@ == "nav.rs"@,
        spec_read_file(m, m.children(m.root)[2]) == Ok::<_, VfsError>(spec_file_contents(FileV::MinesSh)),
        spec_read_file(m, m.children(m.root)[3]) == Ok::<_, VfsError>(spec_file_contents(FileV::ThanksTxt)),
        spec_read_file(m, m.children(m.root)[5]) == Ok::<_, VfsError>(spec_file_contents(FileV::Nav("/"@))),
{
    let rc = m.children(m.root);
    assert(m.nodes[m.root].children[2] == rc[2]);
    assert(m.nodes[m.root].children[3] == rc[3]);
    assert(m.nodes[m.root].children[5] == rc[5]);
}

proof fn lemma_site_names()
    ensures
        "/"@ + "mines.sh"@ == "/mines.sh"@,
        "/"@ + "thanks.txt"@ == "/thanks.txt"@,
        "/"@ + "nav.rs"@ == "/nav.rs"@,
        is_piece("mines.sh"@, '/') && "mines.sh"@ != seq!['.'] && "mines.sh"@ != seq!['.', '.'],
        is_piece("thanks.txt"@, '/') && "thanks.txt"@ != seq!['.'] && "thanks.txt"@ != seq!['.', '.'],
        is_piece("nav.rs"@, '/') && "nav.rs"@ != seq!['.'] && "nav.rs"@ != seq!['.', '.'],
        "blog"@ != "mines.sh"@ && "cv"@ != "mines.sh"@,
        "blog"@ != "thanks.txt"@ && "cv"@ != "thanks.txt"@ && "mines.sh"@ != "thanks.txt"@,
        "blog"@ != "nav.rs"@ && "cv"@ != "nav.rs"@ && "mines.sh"@ != "nav.rs"@ && "thanks.txt"@ != "nav.rs"@
            && ".zshrc"@ != "nav.rs"@,
{
    reveal_strlit("/");
    reveal_strlit("blog");
    reveal_strlit("cv");
    reveal_strlit("mines.sh");
    reveal_strlit("thanks.txt");
    reveal_strlit(".zshrc");
    reveal_strlit("nav.rs");
    reveal_strlit("/mines.sh");
    reveal_strlit("/thanks.txt");
    reveal_strlit("/nav.rs");
    assert("/"@ + "mines.sh"@ =~= "/mines.sh"@);
    assert("/"@ + "thanks.txt"@ =~= "/thanks.txt"@);
    assert("/"@ + "nav.rs"@ =~= "/nav.rs"@);
    assert(".zshrc"@[0] != "nav.rs"@[0]);
}

/// In a new filesystem `/mines.sh`, `/thanks.txt` and `/nav.rs` read as
/// the site map's files of those names do.
pub proof fn law_site_files_read_as_listed(m: FsModel, posts: Seq<Seq<char>>)
    requires
        m.wf(),
        initial_layout(m, posts),
    ensures
        read_at(m, "/mines.sh"@) == Ok::<_, VfsError>(spec_file_contents(FileV::MinesSh)),
        read_at(m, "/thanks.txt"@) == Ok::<_, VfsError>(spec_file_contents(FileV::ThanksTxt)),
        read_at(m, "/nav.rs"@) == Ok::<_, VfsError>(spec_file_contents(FileV::Nav("/"@))),
{
    lemma_layout_top(m, posts);
    lemma_site_names();
    let rc = m.children(m.root);
    assert forall|i: int| 0 <= i < 2 implies m.data(#[trigger] rc[i]).name@ != "mines.sh"@ by {
        assert(i == 0 || i == 1);
    }
    lemma_top_read(m, 2, "mines.sh"@, "/mines.sh"@, spec_file_contents(FileV::MinesSh));
    assert forall|i: int| 0 <= i < 3 implies m.data(#[trigger] rc[i]).name@ != "thanks.txt"@ by {
        assert(i == 0 || i == 1 || i == 2);
    }
    lemma_top_read(m, 3, "thanks.txt"@, "/thanks.txt"@, spec_file_contents(FileV::ThanksTxt));
    assert forall|i: int| 0 <= i < 5 implies m.data(#[trigger] rc[i]).name@ != "nav.rs"@ by {
        assert(i == 0 || i == 1 || i == 2 || i == 3 || i == 4);
    }
    lemma_top_read(m, 5, "nav.rs"@, "/nav.rs"@, spec_file_contents(FileV::Nav("/"@)));
}

/// Whether the node that `path` leads to from the top can be run: none
/// when the path leads nowhere.
pub open spec fn executable_at(m: FsModel, path: Seq<char>) -> Option<bool> {
    match spec_resolve_path(m, m.root, path) {
        Ok(n) => Some(m.data(n).permissions.execute),
        Err(_) => None,
    }
}

proof fn lemma_nested_entry(m: FsModel, k: int, dn: Seq<char>, j: int, fname: Seq<char>)
    requires
        m.wf(),
        0 <= k < m.children(m.root).len(),
        m.data(m.children(m.root)[k]).name@ == dn,
        forall|i: int| 0 <= i < k ==> m.data(#[trigger] m.children(m.root)[i]).name@ != dn,
        0 <= j < m.children(m.children(m.root)[k]).len(),
        m.data(m.children(m.children(m.root)[k])[j]).name@ == fname,
        forall|i: int| 0 <= i < j ==> m.data(#[trigger] m.children(m.children(m.root)[k])[i]).name@ != fname,
        clean_name(dn),
        clean_name(fname),
    ensures
        spec_resolve_path(m, m.root, seq!['/'] + dn + seq!['/'] + fname) == Ok::<_, VfsError>(
            m.children(m.children(m.root)[k])[j],
        ),
{
    let d = m.children(m.root)[k];
    let c = m.children(d)[j];
    let parts = seq![dn, fname];
    assert(parts.drop_last() =~= seq![dn]);
    assert(join_with(seq![dn], seq!['/']) == dn);
    assert(join_with(parts, seq!['/']) == dn + seq!['/'] + fname);
    assert forall|i: int| 0 <= i < parts.len() implies clean_name(#[trigger] parts[i]) by {
        if i == 0 {
            assert(parts[i] == dn);
        } else {
            assert(parts[i] == fname);
        }
    }
    lemma_split_join_names(parts);
    let path = seq!['/'] + dn + seq!['/'] + fname;
    assert(path[0] == '/');
    assert(path != seq!['.'] && path != seq!['~']) by {
        if path == seq!['.'] || path == seq!['~'] {
            assert(path[0] != '/');
        }
    }
    assert(path.drop_first() =~= join_with(parts, seq!['/']));
    assert(m.nodes[m.root].children[k] == d);
    assert(m.live(d));
    lemma_first_named_at(m, m.children(m.root), dn, 0, k);
    assert(spec_step(m, m.root, dn) == Ok::<_, VfsError>(d));
    assert(m.nodes[d].children[j] == c);
    lemma_first_named_at(m, m.children(d), fname, 0, j);
    assert(spec_step(m, d, fname) == Ok::<_, VfsError>(c));
    assert(walk_from(m, c, parts, 2) == Ok::<_, VfsError>(c));
    assert(walk_from(m, d, parts, 1) == Ok::<_, VfsError>(c));
    assert(walk_from(m, m.root, parts, 0) == Ok::<_, VfsError>(c));
}

/// Which entries of a new filesystem can be run.
proof fn lemma_layout_exec(m: FsModel, posts: Seq<Seq<char>>)
    requires
        m.wf(),
        initial_layout(m, posts),
    ensures
        m.data(m.children(m.root)[2]).permissions.execute,
        !m.data(m.children(m.root)[3]).permissions.execute,
        !m.data(m.children(m.root)[4]).permissions.execute,
        m.data(m.children(m.root)[5]).permissions.execute,
        m.children(m.children(m.root)[0]).len() >= 1,
        m.data(m.children(m.children(m.root)[0])[0]).name@ == "nav.rs"@,
        m.data(m.children(m.children(m.root)[0])[0]).permissions.execute,
        m.children(m.children(m.root)[1]).len() >= 1,
        m.data(m.children(m.children(m.root)[1])[0]).name@ == "nav.rs"@,
        m.data(m.children(m.children(m.root)[1])[0]).permissions.execute,
{
}

proof fn lemma_more_site_names()
    ensures
        "/"@ + ".zshrc"@ == "/.zshrc"@,
        is_piece(".zshrc"@, '/') && ".zshrc"@ != seq!['.'] && ".zshrc"@ != seq!['.', '.'],
        "blog"@ != ".zshrc"@ && "cv"@ != ".zshrc"@ && "mines.sh"@ != ".zshrc"@ && "thanks.txt"@ != ".zshrc"@,
        "blog"@ != "cv"@,
        clean_name("blog"@) && clean_name("cv"@) && clean_name("nav.rs"@),
        seq!['/'] + "blog"@ + seq!['/'] + "nav.rs"@ == "/blog/nav.rs"@,
        seq!['/'] + "cv"@ + seq!['/'] + "nav.rs"@ == "/cv/nav.rs"@,
{
    reveal_strlit("/");
    reveal_strlit("blog");
    reveal_strlit("cv");
    reveal_strlit("mines.sh");
    reveal_strlit("thanks.txt");
    reveal_strlit(".zshrc");
    reveal_strlit("nav.rs");
    reveal_strlit("/.zshrc");
    reveal_strlit("/blog/nav.rs");
    reveal_strlit("/cv/nav.rs");
    assert("/"@ + ".zshrc"@ =~= "/.zshrc"@);
    assert(seq!['/'] + "blog"@ + seq!['/'] + "nav.rs"@ =~= "/blog/nav.rs"@);
    assert(seq!['/'] + "cv"@ + seq!['/'] + "nav.rs"@ =~= "/cv/nav.rs"@);
    assert(!"blog"@.contains('/'));
    assert(!"cv"@.contains('/'));
    assert(!"nav.rs"@.contains('/'));
}

/// What the site map says of the six site files' paths: only `mines.sh`
/// and the `nav.rs` files can be run.
proof fn lemma_site_targets(posts: Seq<Seq<char>>)
    requires
        !posts.contains("nav.rs"@),
    ensures
        target_executable(spec_target_from("/mines.sh"@, posts)),
        !target_executable(spec_target_from("/thanks.txt"@, posts)),
        !target_executable(spec_target_from("/.zshrc"@, posts)),
        target_executable(spec_target_from("/nav.rs"@, posts)),
        target_executable(spec_target_from("/blog/nav.rs"@, posts)),
        target_executable(spec_target_from("/cv/nav.rs"@, posts)),
{
    reveal_strlit("/");
    reveal_strlit("/blog");
    reveal_strlit("/cv");
    reveal_strlit("/blog/");
    reveal_strlit("/mines.sh");
    reveal_strlit("/thanks.txt");
    reveal_strlit("/.zshrc");
    reveal_strlit("/nav.rs");
    reveal_strlit("/blog/nav.rs");
    reveal_strlit("/cv/nav.rs");
    reveal_strlit("nav.rs");
    let b = "/blog/"@;
    assert(!seq_starts_with("/mines.sh"@, b)) by {
        assert("/mines.sh"@.subrange(0, 6)[1] != b[1]);
    }
    assert(!seq_starts_with("/thanks.txt"@, b)) by {
        assert("/thanks.txt"@.subrange(0, 6)[1] != b[1]);
    }
    assert(!seq_starts_with("/.zshrc"@, b)) by {
        assert("/.zshrc"@.subrange(0, 6)[1] != b[1]);
    }
    assert(!seq_starts_with("/nav.rs"@, b)) by {
        assert("/nav.rs"@.subrange(0, 6)[1] != b[1]);
    }
    assert(!seq_starts_with("/cv/nav.rs"@, b)) by {
        assert("/cv/nav.rs"@.subrange(0, 6)[1] != b[1]);
    }
    assert(crate::fs::strip_blog_prefix("/blog/nav.rs"@) == "nav.rs"@) by {
        assert("/blog/nav.rs"@.subrange(0, 6) =~= b);
        assert("/blog/nav.rs"@.skip(6) =~= "nav.rs"@);
    }
    assert("/thanks.txt"@[1] != "/mines.sh"@[1]);
    assert("/.zshrc"@[1] != "/mines.sh"@[1] && "/.zshrc"@[1] != "/thanks.txt"@[1]);
    assert("/nav.rs"@[1] != "/.zshrc"@[1]);
    assert("/cv/nav.rs"@[1] != "/blog/nav.rs"@[1]);
}

/// In a new filesystem (whose posts do not include one named `nav.rs`),
/// asking the site map whether a site file can be run gives the same
/// answer as asking its node in the filesystem; directories and invalid
/// targets can never be run.
pub proof fn law_site_executables_agree(m: FsModel, posts: Seq<Seq<char>>)
    requires
        m.wf(),
        initial_layout(m, posts),
        !posts.contains("nav.rs"@),
    ensures
        executable_at(m, "/mines.sh"@) == Some(target_executable(spec_target_from("/mines.sh"@, posts))),
        executable_at(m, "/thanks.txt"@) == Some(target_executable(spec_target_from("/thanks.txt"@, posts))),
        executable_at(m, "/.zshrc"@) == Some(target_executable(spec_target_from("/.zshrc"@, posts))),
        executable_at(m, "/nav.rs"@) == Some(target_executable(spec_target_from("/nav.rs"@, posts))),
        executable_at(m, "/blog/nav.rs"@) == Some(target_executable(spec_target_from("/blog/nav.rs"@, posts))),
        executable_at(m, "/cv/nav.rs"@) == Some(target_executable(spec_target_from("/cv/nav.rs"@, posts))),
        forall|d: DirV| !target_executable(TargetV::Dir(d)),
        !target_executable(TargetV::Invalid),
{
    lemma_layout_top(m, posts);
    lemma_layout_exec(m, posts);
    lemma_site_names();
    lemma_more_site_names();
    lemma_site_targets(posts);
    let rc = m.children(m.root);
    assert forall|i: int| 0 <= i < 2 implies m.data(#[trigger] rc[i]).name@ != "mines.sh"@ by {
        assert(i == 0 || i == 1);
    }
    lemma_top_entry(m, 2, "mines.sh"@);
    assert forall|i: int| 0 <= i < 3 implies m.data(#[trigger] rc[i]).name@ != "thanks.txt"@ by {
        assert(i == 0 || i == 1 || i == 2);
    }
    lemma_top_entry(m, 3, "thanks.txt"@);
    assert forall|i: int| 0 <= i < 4 implies m.data(#[trigger] rc[i]).name@ != ".zshrc"@ by {
        assert(i == 0 || i == 1 || i == 2 || i == 3);
    }
    lemma_top_entry(m, 4, ".zshrc"@);
    assert forall|i: int| 0 <= i < 5 implies m.data(#[trigger] rc[i]).name@ != "nav.rs"@ by {
        assert(i == 0 || i == 1 || i == 2 || i == 3 || i == 4);
    }
    lemma_top_entry(m, 5, "nav.rs"@);
    lemma_nested_entry(m, 0, "blog"@, 0, "nav.rs"@);
    assert forall|i: int| 0 <= i < 1 implies m.data(#[trigger] rc[i]).name@ != "cv"@ by {
        assert(i == 0);
    }
    lemma_nested_entry(m, 1, "cv"@, 0, "nav.rs"@);
}

} // verus!
