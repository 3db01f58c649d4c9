use vstd::prelude::*;

use regex::Regex;

use crate::highlight::{render_markdown, spec_render};
use crate::text::{cat3, names_of, str_eq, take_chars};

verus! {

#[verifier::external_type_specification]
#[verifier::external_body]
pub struct ExRegex(Regex);

/// Whether `pattern` compiles as a case-insensitive, multi-line regular
/// expression.
pub uninterp spec fn search_compiles(pattern: Seq<char>) -> bool;

/// Whether the case-insensitive, multi-line regular expression `pattern`
/// matches somewhere in `text`.
pub uninterp spec fn search_matches(pattern: Seq<char>, text: Seq<char>) -> bool;

/// `regex::RegexBuilder` with case-insensitive and multi-line matching:
/// the compiled expression exactly when `pattern` compiles.
#[verifier::external_body]
fn build_search(pattern: &str) -> (r: Option<Regex>)
    ensures
        r is Some <==> search_compiles(pattern@),
{
    regex::RegexBuilder::new(pattern).case_insensitive(true).multi_line(true).build().ok()
}

/// A compiled search over the blog's posts: the pattern and the
/// expression compiled from it by `build_search` (`new` is the only way to
/// make one).
pub struct SearchPattern {
    pattern: String,
    re: Regex,
}

impl View for SearchPattern {
    type V = Seq<char>;

    /// The pattern the search was compiled from.
    closed spec fn view(&self) -> Seq<char> {
        self.pattern@
    }
}

impl SearchPattern {
    /// Compiles `pattern`, case-insensitive and multi-line.
    pub fn new(pattern: &str) -> (r: Option<SearchPattern>)
        ensures
            r is Some <==> search_compiles(pattern@),
            r matches Some(p) ==> p@ == pattern@,
    {
        match build_search(pattern) {
            Some(re) => Some(SearchPattern { pattern: String::from_str(pattern), re }),
            None => None,
        }
    }

    /// `regex::Regex::is_match` on the expression compiled from the
    /// pattern: whether it matches somewhere in `text`.
    #[verifier::external_body]
    fn is_match(&self, text: &str) -> (r: bool)
        ensures
            r == search_matches(self@, text@),
    {
        self.re.is_match(text)
    }
}

/// Why a post could not be had.
#[derive(Clone, Copy, PartialEq, Eq, Structural, Debug)]
pub enum BlogError {
    NotFound,
    ParseError,
}

impl BlogError {
    /// The message shown for the error.
    pub fn message(&self) -> (r: &'static str)
        ensures
            r@ == match self {
                BlogError::NotFound => "Blog post not found"@,
                BlogError::ParseError => "Couldn't parse blog posts"@,
            },
    {
        match self {
            BlogError::NotFound => "Blog post not found",
            BlogError::ParseError => "Couldn't parse blog posts",
        }
    }
}

/// The header of a post: its title, description, author, date (seconds
/// and nanoseconds since the epoch, in UTC) and tags.
pub struct FrontMatter {
    pub title: String,
    pub description: String,
    pub author: String,
    pub date: (i64, u32),
    pub tags: Vec<String>,
}

/// The instant that chrono reads in `s` as a `DateTime<Utc>` (a relaxed
/// RFC 3339 form), in seconds and nanoseconds since the epoch.
pub uninterp spec fn rfc3339_instant(s: Seq<char>) -> Option<(i64, u32)>;

/// `str::parse::<chrono::DateTime<chrono::Utc>>`, then `timestamp` and
/// `timestamp_subsec_nanos`: none when chrono refuses the text.
#[verifier::external_body]
fn parse_date(s: &str) -> (r: Option<(i64, u32)>)
    ensures
        r == rfc3339_instant(s@),
{
    match s.parse::<chrono::DateTime<chrono::Utc>>() {
        Ok(d) => Some((d.timestamp(), d.timestamp_subsec_nanos())),
        Err(_) => None,
    }
}

/// A post's header from the fields written in its file: none when its
/// date does not read.
pub fn front_matter(title: String, description: String, author: String, date: &str, tags: Vec<String>) -> (r: Option<FrontMatter>)
    ensures
        match r {
            Some(f) => rfc3339_instant(date@) == Some(f.date) && f@ == (FrontV {
                title: title@,
                description: description@,
                author: author@,
                date: f.date,
                tags: names_of(tags@),
            }),
            None => rfc3339_instant(date@) is None,
        },
{
    match parse_date(date) {
        Some(d) => Some(FrontMatter { title, description, author, date: d, tags }),
        None => None,
    }
}

/// A file of the blog's folder: its name, its text, and its header when it
/// could be read.
pub struct PostSource {
    pub file: String,
    pub content: String,
    pub front: Option<FrontMatter>,
}

/// What a listing shows of a post.
pub struct PostMeta {
    pub name: String,
    pub title: String,
    pub description: String,
    pub author: String,
    pub date: (i64, u32),
    pub tags: Vec<String>,
}

/// A post: its header and its HTML.
pub struct Post {
    pub meta: PostMeta,
    pub content: String,
}

/// The posts of the blog.
pub struct Assets {
    pub files: Vec<PostSource>,
}

pub ghost struct FrontV {
    pub title: Seq<char>,
    pub description: Seq<char>,
    pub author: Seq<char>,
    pub date: (i64, u32),
    pub tags: Seq<Seq<char>>,
}

pub ghost struct SourceV {
    pub file: Seq<char>,
    pub content: Seq<char>,
    pub front: Option<FrontV>,
}

pub ghost struct MetaV {
    pub name: Seq<char>,
    pub title: Seq<char>,
    pub description: Seq<char>,
    pub author: Seq<char>,
    pub date: (i64, u32),
    pub tags: Seq<Seq<char>>,
}

impl View for FrontMatter {
    type V = FrontV;

    open spec fn view(&self) -> FrontV {
        FrontV {
            title: self.title@,
            description: self.description@,
            author: self.author@,
            date: self.date,
            tags: names_of(self.tags@),
        }
    }
}

impl View for PostSource {
    type V = SourceV;

    open spec fn view(&self) -> SourceV {
        SourceV {
            file: self.file@,
            content: self.content@,
            front: match self.front {
                Some(f) => Some(f@),
                None => None,
            },
        }
    }
}

impl View for PostMeta {
    type V = MetaV;

    open spec fn view(&self) -> MetaV {
        MetaV {
            name: self.name@,
            title: self.title@,
            description: self.description@,
            author: self.author@,
            date: self.date,
            tags: names_of(self.tags@),
        }
    }
}

pub open spec fn sources_view(v: Seq<PostSource>) -> Seq<SourceV> {
    v.map_values(|p: PostSource| p@)
}

pub open spec fn metas_view(v: Seq<PostMeta>) -> Seq<MetaV> {
    v.map_values(|p: PostMeta| p@)
}

/// A post's name: its file name without the `.md` ending.
pub open spec fn spec_post_name(file: Seq<char>) -> Seq<char> {
    file.take(file.len() - 3)
}

/// The name of the post in `file`.
pub fn post_name(file: &str) -> (r: String)
    requires
        file@.len() >= 3,
    ensures
        r@ == spec_post_name(file@),
{
    let n = file.unicode_len();
    String::from_str(take_chars(file, n - 3))
}

/// What a listing shows of the post in `file` with header `f`.
pub open spec fn meta_of(file: Seq<char>, f: FrontV) -> MetaV {
    MetaV {
        name: spec_post_name(file),
        title: f.title,
        description: f.description,
        author: f.author,
        date: f.date,
        tags: f.tags,
    }
}

/// Whether date `a` is later than date `b`.
pub open spec fn later(a: (i64, u32), b: (i64, u32)) -> bool {
    a.0 > b.0 || (a.0 == b.0 && a.1 > b.1)
}

/// `x` put into `s` just before the first post older than it.
pub open spec fn insert_newest(s: Seq<MetaV>, x: MetaV) -> Seq<MetaV>
    decreases s.len(),
{
    if s.len() == 0 {
        seq![x]
    } else if later(x.date, s[0].date) {
        seq![x] + s
    } else {
        seq![s[0]] + insert_newest(s.drop_first(), x)
    }
}

/// `s` newest first, posts of the same date in their order in `s`: what
/// a stable sort by date, descending, gives.
pub open spec fn newest_first(s: Seq<MetaV>) -> Seq<MetaV>
    decreases s.len(),
{
    if s.len() == 0 {
        s
    } else {
        insert_newest(newest_first(s.drop_last()), s.last())
    }
}

/// The posts of `s` whose flag in `sel` is set.
pub open spec fn chosen(s: Seq<SourceV>, sel: Seq<bool>) -> Seq<SourceV>
    decreases s.len(),
{
    if s.len() == 0 || sel.len() == 0 {
        Seq::empty()
    } else if sel.last() {
        chosen(s.drop_last(), sel.drop_last()).push(s.last())
    } else {
        chosen(s.drop_last(), sel.drop_last())
    }
}

/// The listing entries of `s` in order, if every header could be read.
pub open spec fn metas_of(s: Seq<SourceV>) -> Option<Seq<MetaV>>
    decreases s.len(),
{
    if s.len() == 0 {
        Some(Seq::empty())
    } else {
        match (metas_of(s.drop_last()), s.last().front) {
            (Some(m), Some(f)) => Some(m.push(meta_of(s.last().file, f))),
            _ => None,
        }
    }
}

/// Each post read before the first unreadable header has a file name
/// long enough to end in `.md`.
pub open spec fn names_ok(s: Seq<SourceV>) -> bool
    decreases s.len(),
{
    if s.len() == 0 {
        true
    } else {
        names_ok(s.drop_last()) && (metas_of(s.drop_last()) is Some && s.last().front is Some
            ==> s.last().file.len() >= 3)
    }
}

/// The listing of the posts flagged in `sel`, newest first; none when a
/// flagged post's header could not be read.
pub open spec fn spec_collect(s: Seq<SourceV>, sel: Seq<bool>) -> Option<Seq<MetaV>> {
    match metas_of(chosen(s, sel)) {
        Some(m) => Some(newest_first(m)),
        None => None,
    }
}

fn copy_strings(v: &Vec<String>) -> (r: Vec<String>)
    ensures
        names_of(r@) == names_of(v@),
{
    let mut r: Vec<String> = Vec::new();
    let mut i: usize = 0;
    while i < v.len()
        invariant
            i <= v@.len(),
            names_of(r@) == names_of(v@.take(i as int)),
        decreases v@.len() - i,
    {
        let ghost before = r@;
        r.push(v[i].clone());
        assert(names_of(r@) =~= names_of(before).push(v@[i as int]@));
        assert(v@.take(i + 1) =~= v@.take(i as int).push(v@[i as int]));
        assert(names_of(v@.take(i + 1)) =~= names_of(v@.take(i as int)).push(v@[i as int]@));
        i = i + 1;
    }
    assert(v@.take(i as int) =~= v@);
    r
}

/// The listing entry of the post in `file` with header `f`.
fn make_meta(file: &str, f: &FrontMatter) -> (r: PostMeta)
    requires
        file@.len() >= 3,
    ensures
        r@ == meta_of(file@, f@),
{
    PostMeta {
        name: post_name(file),
        title: f.title.clone(),
        description: f.description.clone(),
        author: f.author.clone(),
        date: f.date,
        tags: copy_strings(&f.tags),
    }
}

proof fn lemma_insert_newest(o: Seq<MetaV>, x: MetaV, k: int)
    requires
        0 <= k <= o.len(),
        forall|i: int| 0 <= i < k ==> !later(x.date, #[trigger] o[i].date),
        k < o.len() ==> later(x.date, o[k].date),
    ensures
        o.insert(k, x) == insert_newest(o, x),
    decreases k,
{
    if k == 0 {
        if o.len() == 0 {
            assert(o.insert(0, x) =~= seq![x]);
        } else {
            assert(o.insert(0, x) =~= seq![x] + o);
        }
    } else {
        let t = o.drop_first();
        assert forall|i: int| 0 <= i < k - 1 implies !later(x.date, #[trigger] t[i].date) by {
            assert(t[i] == o[i + 1]);
        }
        assert(!later(x.date, o[0].date));
        lemma_insert_newest(t, x, k - 1);
        assert(o.insert(k, x) =~= seq![o[0]] + t.insert(k - 1, x));
    }
}

proof fn lemma_chosen_prefix(s: Seq<SourceV>, sel: Seq<bool>, i: int)
    requires
        0 <= i <= s.len(),
        sel.len() == s.len(),
    ensures
        chosen(s.take(i), sel.take(i)).is_prefix_of(chosen(s, sel)),
    decreases s.len() - i,
{
    if i == s.len() {
        assert(s.take(i) =~= s);
        assert(sel.take(i) =~= sel);
    } else {
        lemma_chosen_prefix(s, sel, i + 1);
        assert(s.take(i + 1).drop_last() =~= s.take(i));
        assert(sel.take(i + 1).drop_last() =~= sel.take(i));
        let a = chosen(s.take(i), sel.take(i));
        let b = chosen(s.take(i + 1), sel.take(i + 1));
        let c = chosen(s, sel);
        assert(a.is_prefix_of(b)) by {
            if sel[i] {
                assert(b == a.push(s[i]));
                assert(b.take(a.len() as int) =~= a);
            } else {
                assert(b == a);
                assert(b.take(a.len() as int) =~= a);
            }
        }
        assert(c.take(a.len() as int) =~= b.take(a.len() as int));
    }
}

proof fn lemma_metas_prefix(b: Seq<SourceV>, a: Seq<SourceV>)
    requires
        a.is_prefix_of(b),
        metas_of(a) is None,
    ensures
        metas_of(b) is None,
    decreases b.len(),
{
    if a.len() == b.len() {
        assert(b.take(a.len() as int) =~= b);
    } else {
        assert(b.drop_last().take(a.len() as int) =~= b.take(a.len() as int));
        lemma_metas_prefix(b.drop_last(), a);
    }
}

proof fn lemma_names_prefix(b: Seq<SourceV>, a: Seq<SourceV>)
    requires
        a.is_prefix_of(b),
        names_ok(b),
    ensures
        names_ok(a),
    decreases b.len(),
{
    if a.len() == b.len() {
        assert(b.take(a.len() as int) =~= b);
    } else {
        assert(b.drop_last().take(a.len() as int) =~= b.take(a.len() as int));
        lemma_names_prefix(b.drop_last(), a);
    }
}

/// Whether date `a` is later than date `b`.
fn is_later(a: (i64, u32), b: (i64, u32)) -> (r: bool)
    ensures
        r == later(a, b),
{
    a.0 > b.0 || (a.0 == b.0 && a.1 > b.1)
}

/// The posts newest first, posts of the same date kept in their order.
pub fn sort_newest(v: Vec<PostMeta>) -> (r: Vec<PostMeta>)
    ensures
        metas_view(r@) == newest_first(metas_view(v@)),
{
    let ghost orig = metas_view(v@);
    let mut rest = v;
    let mut out: Vec<PostMeta> = Vec::new();
    let ghost mut done: int = 0;
    assert(orig.take(0) =~= Seq::<MetaV>::empty());
    assert(metas_view(rest@) =~= orig.skip(0));
    while rest.len() > 0
        invariant
            0 <= done <= orig.len(),
            metas_view(rest@) == orig.skip(done),
            metas_view(out@) == newest_first(orig.take(done)),
        decreases rest@.len(),
    {
        let ghost r0 = rest@;
        assert(metas_view(r0).len() == r0.len());
        assert(done < orig.len());
        let x = rest.remove(0);
        assert(metas_view(rest@) =~= orig.skip(done + 1)) by {
            assert(rest@ =~= r0.drop_first());
            assert(metas_view(r0) == orig.skip(done));
            assert forall|j: int| 0 <= j < rest@.len() implies metas_view(rest@)[j] == orig.skip(done + 1)[j] by {
                assert(rest@[j] == r0[j + 1]);
                assert(metas_view(r0)[j + 1] == orig.skip(done)[j + 1]);
            }
        }
        assert(x@ == orig[done]) by {
            assert(x == r0[0]);
            assert(metas_view(r0)[0] == orig.skip(done)[0]);
        }
        let mut k: usize = 0;
        while k < out.len()
            invariant
                k <= out@.len(),
                forall|i: int| 0 <= i < k ==> !later(x@.date, #[trigger] metas_view(out@)[i].date),
            ensures
                k <= out@.len(),
                forall|i: int| 0 <= i < k ==> !later(x@.date, #[trigger] metas_view(out@)[i].date),
                k < out@.len() ==> later(x@.date, metas_view(out@)[k as int].date),
            decreases out@.len() - k,
        {
            if is_later(x.date, out[k].date) {
                break;
            }
            k = k + 1;
        }
        let ghost o = metas_view(out@);
        proof {
            lemma_insert_newest(o, x@, k as int);
            assert(orig.take(done + 1).drop_last() =~= orig.take(done));
        }
        out.insert(k, x);
        assert(metas_view(out@) =~= o.insert(k as int, x@));
        proof {
            done = done + 1;
        }
    }
    assert(orig.take(done) =~= orig);
    out
}

/// The listing of the posts whose flag in `selected` is set, newest first;
/// none when a flagged post's header could not be read.
pub fn collect_posts(posts: &Vec<PostSource>, selected: &Vec<bool>) -> (r: Option<Vec<PostMeta>>)
    requires
        selected@.len() == posts@.len(),
        names_ok(chosen(sources_view(posts@), selected@)),
    ensures
        match r {
            Some(v) => spec_collect(sources_view(posts@), selected@) == Some(metas_view(v@)),
            None => spec_collect(sources_view(posts@), selected@) is None,
        },
{
    let ghost sv = sources_view(posts@);
    let mut metas: Vec<PostMeta> = Vec::new();
    let mut i: usize = 0;
    while i < posts.len()
        invariant
            i <= posts@.len(),
            selected@.len() == posts@.len(),
            sv == sources_view(posts@),
            names_ok(chosen(sv, selected@)),
            metas_of(chosen(sv.take(i as int), selected@.take(i as int))) == Some(metas_view(metas@)),
        decreases posts@.len() - i,
    {
        assert(sv.take(i + 1).drop_last() =~= sv.take(i as int));
        assert(selected@.take(i + 1).drop_last() =~= selected@.take(i as int));
        if !selected[i] {
            assert(chosen(sv.take(i + 1), selected@.take(i + 1)) == chosen(sv.take(i as int), selected@.take(i as int)));
        }
        if selected[i] {
            let p = &posts[i];
            let ghost c = chosen(sv.take(i + 1), selected@.take(i + 1));
            assert(c == chosen(sv.take(i as int), selected@.take(i as int)).push(sv[i as int]));
            assert(c.drop_last() =~= chosen(sv.take(i as int), selected@.take(i as int)));
            assert(c.last() == sv[i as int]);
            assert(sv[i as int] == p@);
            match &p.front {
                None => {
                    proof {
                        lemma_chosen_prefix(sv, selected@, i + 1);
                        lemma_metas_prefix(chosen(sv, selected@), c);
                    }
                    return None;
                },
                Some(f) => {
                    proof {
                        lemma_chosen_prefix(sv, selected@, i + 1);
                        lemma_names_prefix(chosen(sv, selected@), c);
                    }
                    let m = make_meta(p.file.as_str(), f);
                    let ghost before = metas@;
                    metas.push(m);
                    assert(metas_view(metas@) =~= metas_view(before).push(m@));
                },
            }
        }
        i = i + 1;
    }
    assert(sv.take(i as int) =~= sv);
    assert(selected@.take(i as int) =~= selected@);
    let ghost m0 = metas_view(metas@);
    let sorted = sort_newest(metas);
    Some(sorted)
}

/// Every post whose header can be read has a file name long enough to end
/// in `.md`.
pub open spec fn all_named(s: Seq<SourceV>) -> bool {
    forall|i: int| 0 <= i < s.len() && (#[trigger] s[i]).front is Some ==> s[i].file.len() >= 3
}

proof fn lemma_all_named(s: Seq<SourceV>, sel: Seq<bool>)
    requires
        all_named(s),
    ensures
        all_named(chosen(s, sel)),
        names_ok(chosen(s, sel)),
    decreases s.len(),
{
    if s.len() > 0 && sel.len() > 0 {
        assert(all_named(s.drop_last())) by {
            assert forall|i: int| 0 <= i < s.drop_last().len() && (#[trigger] s.drop_last()[i]).front is Some implies s.drop_last()[i].file.len() >= 3 by {
                assert(s.drop_last()[i] == s[i]);
            }
        }
        lemma_all_named(s.drop_last(), sel.drop_last());
        let c = chosen(s, sel);
        if sel.last() {
            assert(c.drop_last() =~= chosen(s.drop_last(), sel.drop_last()));
            assert(c.last() == s[s.len() - 1]);
            assert(all_named(c)) by {
                assert forall|i: int| 0 <= i < c.len() && (#[trigger] c[i]).front is Some implies c[i].file.len() >= 3 by {
                    if i < c.len() - 1 {
                        assert(c[i] == c.drop_last()[i]);
                    }
                }
            }
        }
    } else {
        assert(chosen(s, sel) =~= Seq::<SourceV>::empty());
    }
}

/// The flag of each post: set for all of them with an empty pattern, else
/// for those whose text the pattern matches.
pub open spec fn search_flags(pattern: Seq<char>, s: Seq<SourceV>) -> Seq<bool> {
    Seq::new(s.len(), |i: int| pattern.len() == 0 || search_matches(pattern, s[i].content))
}

/// The listing for a search: none when the pattern does not compile or a
/// matching post's header cannot be read; else the matching posts (all of
/// them for an empty pattern), newest first.
pub open spec fn spec_get_meta(pattern: Seq<char>, s: Seq<SourceV>) -> Option<Seq<MetaV>> {
    if !search_compiles(pattern) {
        None
    } else {
        spec_collect(s, search_flags(pattern, s))
    }
}

pub open spec fn opt_metas(r: Option<Vec<PostMeta>>) -> Option<Seq<MetaV>> {
    match r {
        Some(v) => Some(metas_view(v@)),
        None => None,
    }
}

/// The listing of the posts whose text `pattern` matches (all of them for
/// an empty pattern), newest first.
pub fn get_meta(pattern: &str, assets: &Assets) -> (r: Option<Vec<PostMeta>>)
    requires
        all_named(sources_view(assets.files@)),
    ensures
        opt_metas(r) == spec_get_meta(pattern@, sources_view(assets.files@)),
{
    let ghost sv = sources_view(assets.files@);
    let re = match SearchPattern::new(pattern) {
        Some(re) => re,
        None => return None,
    };
    let is_base = pattern.unicode_len() == 0;
    let mut flags: Vec<bool> = Vec::new();
    let mut i: usize = 0;
    while i < assets.files.len()
        invariant
            i <= assets.files@.len(),
            sv == sources_view(assets.files@),
            re@ == pattern@,
            is_base == (pattern@.len() == 0),
            flags@ == search_flags(pattern@, sv).take(i as int),
        decreases assets.files@.len() - i,
    {
        let f = is_base || re.is_match(assets.files[i].content.as_str());
        flags.push(f);
        assert(flags@ =~= search_flags(pattern@, sv).take(i + 1));
        i = i + 1;
    }
    assert(flags@ =~= search_flags(pattern@, sv));
    proof {
        lemma_all_named(sv, flags@);
    }
    collect_posts(&assets.files, &flags)
}

/// The post stored in the file `name`, if any.
pub open spec fn find_source(s: Seq<SourceV>, name: Seq<char>) -> Option<SourceV>
    decreases s.len(),
{
    if s.len() == 0 {
        None
    } else if s[0].file == name {
        Some(s[0])
    } else {
        find_source(s.drop_first(), name)
    }
}

/// The post in the file `name`, its whole text rendered as HTML: none when
/// there is no such file, its header cannot be read, or its Markdown cannot
/// be rendered.
pub open spec fn spec_get_post(s: Seq<SourceV>, name: Seq<char>) -> Option<(MetaV, Seq<char>)> {
    match find_source(s, name) {
        None => None,
        Some(p) => match p.front {
            None => None,
            Some(f) => match spec_render(p.content) {
                Some(h) => Some((meta_of(p.file, f), h)),
                None => None,
            },
        },
    }
}

proof fn lemma_find_source(s: Seq<SourceV>, name: Seq<char>, i: int)
    requires
        0 <= i <= s.len(),
        forall|j: int| 0 <= j < i ==> #[trigger] s[j].file != name,
    ensures
        find_source(s, name) == find_source(s.skip(i), name),
    decreases i,
{
    if i > 0 {
        lemma_find_source(s, name, i - 1);
        assert(s.skip(i - 1).drop_first() =~= s.skip(i));
        assert(s.skip(i - 1)[0] == s[i - 1]);
    } else {
        assert(s.skip(0) =~= s);
    }
}

proof fn lemma_find_some(s: Seq<SourceV>, name: Seq<char>)
    ensures
        find_source(s, name) matches Some(p) ==> s.contains(p),
    decreases s.len(),
{
    if s.len() > 0 && s[0].file != name {
        lemma_find_some(s.drop_first(), name);
        if find_source(s, name) is Some {
            let p = find_source(s, name)->0;
            let k = choose|k: int| 0 <= k < s.drop_first().len() && s.drop_first()[k] == p;
            assert(s[k + 1] == p);
        }
    } else if s.len() > 0 {
        assert(s[0] == s[0]);
    }
}

/// A post's view: its listing entry and its HTML.
pub open spec fn post_view(p: Post) -> (MetaV, Seq<char>) {
    (p.meta@, p.content@)
}

/// The post in the file `name`.
pub fn get_post(name: &str, assets: &Assets) -> (r: Option<Post>)
    requires
        all_named(sources_view(assets.files@)),
    ensures
        match r {
            Some(p) => spec_get_post(sources_view(assets.files@), name@) == Some(post_view(p)),
            None => spec_get_post(sources_view(assets.files@), name@) is None,
        },
{
    let ghost sv = sources_view(assets.files@);
    let mut i: usize = 0;
    while i < assets.files.len()
        invariant
            i <= assets.files@.len(),
            sv == sources_view(assets.files@),
            all_named(sv),
            forall|j: int| 0 <= j < i ==> #[trigger] sv[j].file != name@,
        decreases assets.files@.len() - i,
    {
        let p = &assets.files[i];
        if str_eq(p.file.as_str(), name) {
            proof {
                lemma_find_source(sv, name@, i as int);
                assert(sv.skip(i as int)[0] == p@);
                assert(find_source(sv, name@) == Some(p@));
            }
            return match &p.front {
                None => None,
                Some(f) => {
                    assert(sv[i as int] == p@);
                    assert(sv[i as int].front is Some);
                    match render_markdown(p.content.as_str()) {
                        Some(html) => {
                            let meta = make_meta(p.file.as_str(), f);
                            Some(Post { meta, content: html })
                        },
                        None => None,
                    }
                },
            };
        }
        i = i + 1;
    }
    proof {
        lemma_find_source(sv, name@, i as int);
        assert(sv.skip(i as int) =~= Seq::<SourceV>::empty());
    }
    None
}

/// The file names of the posts.
pub open spec fn files_of(s: Seq<SourceV>) -> Seq<Seq<char>> {
    s.map_values(|p: SourceV| p.file)
}

/// The names of the posts.
pub open spec fn post_names_of(s: Seq<SourceV>) -> Seq<Seq<char>> {
    s.map_values(|p: SourceV| spec_post_name(p.file))
}

impl Assets {
    /// The names of the blog's files.
    pub fn iter(&self) -> (r: Vec<String>)
        ensures
            names_of(r@) == files_of(sources_view(self.files@)),
    {
        let mut r: Vec<String> = Vec::new();
        let mut i: usize = 0;
        while i < self.files.len()
            invariant
                i <= self.files@.len(),
                names_of(r@) == files_of(sources_view(self.files@)).take(i as int),
            decreases self.files@.len() - i,
        {
            let ghost before = r@;
            r.push(self.files[i].file.clone());
            assert(names_of(r@) =~= names_of(before).push(self.files@[i as int].file@));
            assert(files_of(sources_view(self.files@)).take(i + 1) =~= files_of(sources_view(self.files@)).take(
                i as int,
            ).push(self.files@[i as int].file@));
            i = i + 1;
        }
        assert(files_of(sources_view(self.files@)).take(i as int) =~= files_of(sources_view(self.files@)));
        r
    }

    /// The text of the file `name`, if there is one.
    pub fn get(&self, name: &str) -> (r: Option<String>)
        ensures
            match r {
                Some(c) => find_source(sources_view(self.files@), name@) matches Some(p) && p.content == c@,
                None => find_source(sources_view(self.files@), name@) is None,
            },
    {
        let ghost sv = sources_view(self.files@);
        let mut i: usize = 0;
        while i < self.files.len()
            invariant
                i <= self.files@.len(),
                sv == sources_view(self.files@),
                forall|j: int| 0 <= j < i ==> #[trigger] sv[j].file != name@,
            decreases self.files@.len() - i,
        {
            if str_eq(self.files[i].file.as_str(), name) {
                proof {
                    lemma_find_source(sv, name@, i as int);
                    assert(sv.skip(i as int)[0] == self.files@[i as int]@);
                }
                return Some(self.files[i].content.clone());
            }
            i = i + 1;
        }
        proof {
            lemma_find_source(sv, name@, i as int);
            assert(sv.skip(i as int) =~= Seq::<SourceV>::empty());
        }
        None
    }

    /// The names of the posts: the file names without `.md`.
    pub fn post_names(&self) -> (r: Vec<String>)
        requires
            forall|i: int| 0 <= i < self.files@.len() ==> #[trigger] self.files@[i].file@.len() >= 3,
        ensures
            names_of(r@) == post_names_of(sources_view(self.files@)),
    {
        let mut r: Vec<String> = Vec::new();
        let mut i: usize = 0;
        while i < self.files.len()
            invariant
                i <= self.files@.len(),
                forall|k: int| 0 <= k < self.files@.len() ==> #[trigger] self.files@[k].file@.len() >= 3,
                names_of(r@) == post_names_of(sources_view(self.files@)).take(
                    i as int,
                ),
            decreases self.files@.len() - i,
        {
            let ghost before = r@;
            let nm = post_name(self.files[i].file.as_str());
            r.push(nm);
            assert(names_of(r@) =~= names_of(before).push(nm@));
            assert(post_names_of(sources_view(self.files@)).take(i + 1) =~= post_names_of(
                sources_view(self.files@),
            ).take(i as int).push(spec_post_name(self.files@[i as int].file@)));
            i = i + 1;
        }
        assert(post_names_of(sources_view(self.files@)).take(i as int)
            =~= post_names_of(sources_view(self.files@)));
        r
    }
}

/// The shell command the listing page shows for a search.
pub open spec fn spec_search_command(search: Seq<char>) -> Seq<char> {
    if search.len() == 0 {
        "ls -lt blog"@
    } else {
        "grep -Eil '"@ + search + "' blog/* | xargs ls -lt"@
    }
}

/// The shell command the listing page shows for `search`.
pub fn search_command(search: &str) -> (r: String)
    ensures
        r@ == spec_search_command(search@),
{
    if search.unicode_len() == 0 {
        String::from_str("ls -lt blog")
    } else {
        cat3("grep -Eil '", search, "' blog/* | xargs ls -lt")
    }
}

} // verus!
