use vstd::prelude::*;

use pulldown_cmark::{CodeBlockKind, CowStr, Event, Options, Parser, Tag, TagEnd};
use syntect::highlighting::ThemeSet;
use syntect::html::highlighted_html_for_string;
use syntect::parsing::SyntaxSet;

verus! {

/// `pulldown_cmark::Event`: an event of a parsed Markdown document, carried
/// through highlighting unread.
#[verifier::external_type_specification]
#[verifier::external_body]
pub struct ExMarkdownEvent<'a>(pulldown_cmark::Event<'a>);

/// Whether `syntect`'s default syntax set has a syntax for the fence token
/// `token`.
pub uninterp spec fn syntax_known(token: Seq<char>) -> bool;

/// `syntect::parsing::SyntaxSet::load_defaults_newlines` then
/// `find_syntax_by_token`: whether the default syntaxes know `token`.
#[verifier::external_body]
fn default_syntax_known(token: &str) -> (r: bool)
    ensures
        r == syntax_known(token@),
{
    SyntaxSet::load_defaults_newlines().find_syntax_by_token(token).is_some()
}

/// An event of a Markdown document: the start of a code block (fenced, with
/// its token, or indented), its end, text, raw HTML, or any other event.
pub enum MdEvent {
    CodeStart(Option<String>),
    CodeEnd,
    Text(String),
    Html(String),
    Other(Event<'static>),
}

pub ghost enum MdV {
    CodeStart(Option<Seq<char>>),
    CodeEnd,
    Text(Seq<char>),
    Html(Seq<char>),
    Other(Event<'static>),
}

pub open spec fn opt_str(s: Option<String>) -> Option<Seq<char>> {
    match s {
        Some(t) => Some(t@),
        None => None,
    }
}

impl View for MdEvent {
    type V = MdV;

    open spec fn view(&self) -> MdV {
        match self {
            MdEvent::CodeStart(l) => MdV::CodeStart(opt_str(*l)),
            MdEvent::CodeEnd => MdV::CodeEnd,
            MdEvent::Text(t) => MdV::Text(t@),
            MdEvent::Html(h) => MdV::Html(h@),
            MdEvent::Other(e) => MdV::Other(*e),
        }
    }
}

pub open spec fn md_views(v: Seq<MdEvent>) -> Seq<MdV> {
    v.map_values(|e: MdEvent| e@)
}

pub open spec fn opt_md(r: Option<Vec<MdEvent>>) -> Option<Seq<MdV>> {
    match r {
        Some(v) => Some(md_views(v@)),
        None => None,
    }
}

/// The events that pulldown-cmark reads in `content`, all its extensions on.
pub uninterp spec fn md_events(content: Seq<char>) -> Seq<MdV>;

/// The HTML that syntect makes of `code` in the default theme named
/// `theme`, with the default syntax for the fence token `token`: none when
/// there is no such theme, `token` names no syntax, or highlighting fails.
pub uninterp spec fn code_html(token: Seq<char>, theme: Seq<char>, code: Seq<char>) -> Option<Seq<char>>;

/// The HTML that syntect makes of `code` as plain text in the default
/// theme named `theme`: none when there is no such theme or highlighting
/// fails.
pub uninterp spec fn plain_html(theme: Seq<char>, code: Seq<char>) -> Option<Seq<char>>;

/// The theme code blocks are coloured in: syntect's GitHub theme.
pub const HIGHLIGHT_THEME: &'static str = "InspiredGitHub";

/// The HTML that pulldown-cmark writes for `events`.
pub uninterp spec fn events_html(events: Seq<MdV>) -> Seq<char>;

/// `pulldown_cmark::Parser::new_ext` with `Options::all()`: the events of
/// `content`, each as it is, code-block starts and ends, text and raw HTML
/// taken apart into plain values.
#[verifier::external_body]
fn parse_markdown(content: &str) -> (r: Vec<MdEvent>)
    ensures
        md_views(r@) == md_events(content@),
{
    let mut out = Vec::new();
    for e in Parser::new_ext(content, Options::all()) {
        out.push(match e.into_static() {
            Event::Start(Tag::CodeBlock(CodeBlockKind::Fenced(l))) => MdEvent::CodeStart(Some(l.to_string())),
            Event::Start(Tag::CodeBlock(CodeBlockKind::Indented)) => MdEvent::CodeStart(None),
            Event::End(TagEnd::CodeBlock) => MdEvent::CodeEnd,
            Event::Text(t) => MdEvent::Text(t.to_string()),
            Event::Html(h) => MdEvent::Html(h.to_string()),
            e => MdEvent::Other(e),
        });
    }
    out
}

/// `syntect::html::highlighted_html_for_string` on `code`, in the default
/// syntax that `find_syntax_by_token(token)` finds and the theme that
/// `ThemeSet::load_defaults` holds under `theme`: its HTML, or none when no
/// such syntax or theme is found or syntect returns an error.
#[verifier::external_body]
fn highlight_code(token: &str, theme: &str, code: &str) -> (r: Option<String>)
    ensures
        opt_str(r) == code_html(token@, theme@, code@),
{
    let syntaxes = SyntaxSet::load_defaults_newlines();
    let themes = ThemeSet::load_defaults();
    let syntax = syntaxes.find_syntax_by_token(token)?;
    highlighted_html_for_string(code, &syntaxes, syntax, themes.themes.get(theme)?).ok()
}

/// `syntect::html::highlighted_html_for_string` on `code`, as plain text
/// (`find_syntax_plain_text`) in the theme that `ThemeSet::load_defaults`
/// holds under `theme`: its HTML, or none when there is no such theme or
/// syntect returns an error.
#[verifier::external_body]
fn highlight_plain(theme: &str, code: &str) -> (r: Option<String>)
    ensures
        opt_str(r) == plain_html(theme@, code@),
{
    let syntaxes = SyntaxSet::load_defaults_newlines();
    let themes = ThemeSet::load_defaults();
    let syntax = syntaxes.find_syntax_plain_text();
    highlighted_html_for_string(code, &syntaxes, syntax, themes.themes.get(theme)?).ok()
}

/// `pulldown_cmark::html::push_html` into a new string, each event handed
/// back as the `pulldown_cmark::Event` it stands for.
#[verifier::external_body]
fn write_html(events: Vec<MdEvent>) -> (r: String)
    ensures
        r@ == events_html(md_views(events@)),
{
    let mut back: Vec<Event<'static>> = Vec::new();
    for e in events {
        back.push(match e {
            MdEvent::CodeStart(Some(l)) => Event::Start(Tag::CodeBlock(CodeBlockKind::Fenced(CowStr::from(l)))),
            MdEvent::CodeStart(None) => Event::Start(Tag::CodeBlock(CodeBlockKind::Indented)),
            MdEvent::CodeEnd => Event::End(TagEnd::CodeBlock),
            MdEvent::Text(t) => Event::Text(CowStr::from(t)),
            MdEvent::Html(h) => Event::Html(CowStr::from(h)),
            MdEvent::Other(e) => e,
        });
    }
    let mut html = String::new();
    pulldown_cmark::html::push_html(&mut html, back.into_iter());
    html
}

/// An event after a code block was gathered: the block's code with the
/// token of the syntax to colour it in (plain text when none), or an event
/// passed on.
pub enum HlEvent {
    Code { syntax: Option<String>, code: String },
    Pass(MdEvent),
}

pub ghost enum HlV {
    Code { syntax: Option<Seq<char>>, code: Seq<char> },
    Pass(MdV),
}

impl View for HlEvent {
    type V = HlV;

    open spec fn view(&self) -> HlV {
        match self {
            HlEvent::Code { syntax, code } => HlV::Code { syntax: opt_str(*syntax), code: code@ },
            HlEvent::Pass(e) => HlV::Pass(e@),
        }
    }
}

pub open spec fn hl_views(v: Seq<HlEvent>) -> Seq<HlV> {
    v.map_values(|e: HlEvent| e@)
}

/// Where highlighting stands: inside a code block or not, the syntax in
/// use (kept from the last fence whose token was known), and the code
/// gathered so far.
pub ghost struct HlState {
    pub in_block: bool,
    pub syntax: Option<Seq<char>>,
    pub buf: Seq<char>,
}

pub open spec fn hl_init() -> HlState {
    HlState { in_block: false, syntax: None, buf: Seq::empty() }
}

/// One event: a code block's text is gathered and handed out whole at its
/// end; everything else passes on.
pub open spec fn hl_step(s: HlState, e: MdV) -> (HlState, Seq<HlV>) {
    match e {
        MdV::CodeStart(lang) => (
            HlState {
                in_block: true,
                syntax: match lang {
                    Some(l) => if syntax_known(l) {
                        Some(l)
                    } else {
                        s.syntax
                    },
                    None => s.syntax,
                },
                buf: s.buf,
            },
            Seq::empty(),
        ),
        MdV::CodeEnd => (
            HlState { in_block: false, syntax: s.syntax, buf: Seq::empty() },
            seq![HlV::Code { syntax: s.syntax, code: s.buf }],
        ),
        MdV::Text(t) => if s.in_block {
            (HlState { buf: s.buf + t, ..s }, Seq::empty())
        } else {
            (s, seq![HlV::Pass(e)])
        },
        _ => (s, seq![HlV::Pass(e)]),
    }
}

/// The state after `es` and the events handed out.
pub open spec fn hl_run(es: Seq<MdV>) -> (HlState, Seq<HlV>)
    decreases es.len(),
{
    if es.len() == 0 {
        (hl_init(), Seq::empty())
    } else {
        let (s, o) = hl_run(es.drop_last());
        let (s2, o2) = hl_step(s, es.last());
        (s2, o + o2)
    }
}

/// Every end of a code block closes one that was opened.
pub open spec fn hl_ok(es: Seq<MdV>) -> bool {
    forall|i: int| 0 <= i < es.len() && (#[trigger] es[i]) is CodeEnd ==> hl_run(es.take(i)).0.in_block
}

/// The highlighted HTML of a code block, in the GitHub theme: in the
/// syntax for `syntax`, or as plain text when there is none.
pub open spec fn block_html(syntax: Option<Seq<char>>, code: Seq<char>) -> Option<Seq<char>> {
    match syntax {
        Some(t) => code_html(t, HIGHLIGHT_THEME@, code),
        None => plain_html(HIGHLIGHT_THEME@, code),
    }
}

/// Each gathered code block as the HTML of its highlighting, the other
/// events as they are: none when a block cannot be highlighted.
pub open spec fn html_plan(hs: Seq<HlV>) -> Option<Seq<MdV>>
    decreases hs.len(),
{
    if hs.len() == 0 {
        Some(Seq::empty())
    } else {
        match html_plan(hs.drop_last()) {
            None => None,
            Some(p) => match hs.last() {
                HlV::Code { syntax, code } => match block_html(syntax, code) {
                    Some(h) => Some(p.push(MdV::Html(h))),
                    None => None,
                },
                HlV::Pass(e) => Some(p.push(e)),
            },
        }
    }
}

/// `es` with every code block turned into one event of highlighted HTML.
pub open spec fn spec_highlight(es: Seq<MdV>) -> Option<Seq<MdV>> {
    html_plan(hl_run(es).1)
}

/// The HTML of a document read as `es`: none when a code block ends that
/// was never opened, or a block cannot be highlighted.
pub open spec fn spec_render_events(es: Seq<MdV>) -> Option<Seq<char>> {
    if !hl_ok(es) {
        None
    } else {
        match spec_highlight(es) {
            Some(h) => Some(events_html(h)),
            None => None,
        }
    }
}

/// The HTML of the Markdown text `content`.
pub open spec fn spec_render(content: Seq<char>) -> Option<Seq<char>> {
    spec_render_events(md_events(content))
}

/// Gathers each code block of `events` into one `Code` event.
fn gather(events: Vec<MdEvent>) -> (r: Vec<HlEvent>)
    requires
        hl_ok(md_views(events@)),
    ensures
        hl_views(r@) == hl_run(md_views(events@)).1,
{
    let ghost ev = events@;
    let ghost es = md_views(ev);
    let mut out: Vec<HlEvent> = Vec::new();
    let mut in_block = false;
    let mut syntax: Option<String> = None;
    let mut buf = String::new();
    let mut events = events;
    let n = events.len();
    let mut i: usize = 0;
    assert(ev.skip(0) =~= ev);
    assert(es.take(0) =~= Seq::<MdV>::empty());
    assert(hl_views(out@) =~= Seq::<HlV>::empty());
    while i < n
        invariant
            n == es.len(),
            n == ev.len(),
            es == md_views(ev),
            i <= n,
            hl_ok(es),
            events@ == ev.skip(i as int),
            hl_run(es.take(i as int)).0 == (HlState { in_block, syntax: opt_str(syntax), buf: buf@ }),
            hl_run(es.take(i as int)).1 == hl_views(out@),
        decreases n - i,
    {
        assert(events@.len() == n - i);
        let e = events.remove(0);
        assert(e == ev[i as int]);
        assert(e@ == es[i as int]);
        assert(events@ =~= ev.skip(i + 1));
        assert(es.take(i + 1).drop_last() =~= es.take(i as int));
        let ghost before = out@;
        match e {
            MdEvent::CodeStart(lang) => {
                match lang {
                    Some(l) => {
                        if default_syntax_known(l.as_str()) {
                            syntax = Some(l);
                        }
                    },
                    None => {},
                }
                in_block = true;
                assert(hl_views(out@) =~= hl_views(before) + Seq::<HlV>::empty());
            },
            MdEvent::CodeEnd => {
                assert(in_block);
                let code = buf;
                buf = String::new();
                let s = match &syntax {
                    Some(t) => Some(t.clone()),
                    None => None,
                };
                let h = HlEvent::Code { syntax: s, code };
                out.push(h);
                in_block = false;
                assert(hl_views(out@) =~= hl_views(before) + seq![h@]);
            },
            MdEvent::Text(t) => {
                if in_block {
                    buf.append(t.as_str());
                    assert(hl_views(out@) =~= hl_views(before) + Seq::<HlV>::empty());
                } else {
                    let h = HlEvent::Pass(MdEvent::Text(t));
                    out.push(h);
                    assert(hl_views(out@) =~= hl_views(before) + seq![h@]);
                }
            },
            other => {
                let h = HlEvent::Pass(other);
                out.push(h);
                assert(hl_views(out@) =~= hl_views(before) + seq![h@]);
            },
        }
        i = i + 1;
    }
    assert(es.take(n as int) =~= es);
    out
}

proof fn lemma_plan_none(hs: Seq<HlV>, k: int)
    requires
        0 <= k <= hs.len(),
        html_plan(hs.take(k)) is None,
    ensures
        html_plan(hs) is None,
    decreases hs.len() - k,
{
    if k == hs.len() {
        assert(hs.take(k) =~= hs);
    } else {
        assert(hs.take(k + 1).drop_last() =~= hs.take(k));
        lemma_plan_none(hs, k + 1);
    }
}

/// Each `Code` event of `hs` as the HTML of its highlighting.
fn code_to_html(hs: Vec<HlEvent>) -> (r: Option<Vec<MdEvent>>)
    ensures
        opt_md(r) == html_plan(hl_views(hs@)),
{
    let ghost hv0 = hs@;
    let ghost hv = hl_views(hv0);
    let mut out: Vec<MdEvent> = Vec::new();
    let mut rest = hs;
    let n = rest.len();
    let mut i: usize = 0;
    assert(hv0.skip(0) =~= hv0);
    assert(hv.take(0) =~= Seq::<HlV>::empty());
    assert(md_views(out@) =~= Seq::<MdV>::empty());
    while i < n
        invariant
            n == hv.len(),
            n == hv0.len(),
            hv == hl_views(hv0),
            i <= n,
            hv0 == hs@,
            rest@ == hv0.skip(i as int),
            html_plan(hv.take(i as int)) == Some(md_views(out@)),
        decreases n - i,
    {
        assert(rest@.len() == n - i);
        let h = rest.remove(0);
        assert(h == hv0[i as int]);
        assert(h@ == hv[i as int]);
        assert(rest@ =~= hv0.skip(i + 1));
        assert(hv.take(i + 1).drop_last() =~= hv.take(i as int));
        let ghost before = out@;
        match h {
            HlEvent::Code { syntax, code } => {
                let html = match &syntax {
                    Some(t) => highlight_code(t.as_str(), HIGHLIGHT_THEME, code.as_str()),
                    None => highlight_plain(HIGHLIGHT_THEME, code.as_str()),
                };
                match html {
                    Some(html) => {
                        let e = MdEvent::Html(html);
                        out.push(e);
                        assert(md_views(out@) =~= md_views(before).push(e@));
                    },
                    None => {
                        proof {
                            assert(hv.take(i + 1).last() == hv[i as int]);
                            assert(html_plan(hv.take(i + 1)) is None);
                            lemma_plan_none(hv, i + 1);
                        }
                        return None;
                    },
                }
            },
            HlEvent::Pass(e) => {
                out.push(e);
                assert(md_views(out@) =~= md_views(before).push(e@));
            },
        }
        i = i + 1;
    }
    assert(hv.take(n as int) =~= hv);
    Some(out)
}

/// Whether every end of a code block in `events` closes one that was opened.
pub fn blocks_closed(events: &Vec<MdEvent>) -> (r: bool)
    ensures
        r == hl_ok(md_views(events@)),
{
    let ghost es = md_views(events@);
    let mut in_block = false;
    let mut i: usize = 0;
    assert(es.take(0) =~= Seq::<MdV>::empty());
    while i < events.len()
        invariant
            i <= events@.len(),
            es == md_views(events@),
            in_block == hl_run(es.take(i as int)).0.in_block,
            forall|j: int| 0 <= j < i && (#[trigger] es[j]) is CodeEnd ==> hl_run(es.take(j)).0.in_block,
        decreases events@.len() - i,
    {
        assert(es.take(i + 1).drop_last() =~= es.take(i as int));
        assert(es.take(i + 1).last() == es[i as int]);
        match &events[i] {
            MdEvent::CodeStart(_) => {
                in_block = true;
            },
            MdEvent::CodeEnd => {
                if !in_block {
                    assert(es[i as int] is CodeEnd);
                    return false;
                }
                in_block = false;
            },
            _ => {},
        }
        i = i + 1;
    }
    true
}

/// No event of `s` starts or ends a code block.
pub open spec fn no_code_markers(s: Seq<MdV>) -> bool {
    forall|k: int| 0 <= k < s.len() ==> !((#[trigger] s[k]) is CodeStart) && !(s[k] is CodeEnd)
}

spec fn passes_no_markers(h: Seq<HlV>) -> bool {
    forall|k: int|
        0 <= k < h.len() ==> ((#[trigger] h[k]) matches HlV::Pass(e) ==> !(e is CodeStart) && !(e is CodeEnd))
}

proof fn lemma_run_passes(es: Seq<MdV>)
    ensures
        passes_no_markers(hl_run(es).1),
    decreases es.len(),
{
    if es.len() > 0 {
        lemma_run_passes(es.drop_last());
        let (s, o) = hl_run(es.drop_last());
        let o2 = hl_step(s, es.last()).1;
        assert(hl_run(es).1 == o + o2);
        assert forall|k: int| 0 <= k < (o + o2).len() implies ((#[trigger] (o + o2)[k]) matches HlV::Pass(e)
            ==> !(e is CodeStart) && !(e is CodeEnd)) by {
            if k >= o.len() {
                assert((o + o2)[k] == o2[k - o.len()]);
            } else {
                assert((o + o2)[k] == o[k]);
            }
        }
    }
}

proof fn lemma_plan_no_markers(hs: Seq<HlV>)
    requires
        passes_no_markers(hs),
    ensures
        html_plan(hs) matches Some(p) ==> no_code_markers(p),
    decreases hs.len(),
{
    if hs.len() > 0 {
        let pre = hs.drop_last();
        assert forall|k: int| 0 <= k < pre.len() implies ((#[trigger] pre[k]) matches HlV::Pass(e)
            ==> !(e is CodeStart) && !(e is CodeEnd)) by {
            assert(pre[k] == hs[k]);
        }
        lemma_plan_no_markers(pre);
        assert(hs.last() == hs[hs.len() - 1]);
    }
}

/// Highlighting leaves no code block behind: no event of its result starts
/// or ends one.
pub proof fn law_highlight_leaves_no_code_markers(es: Seq<MdV>)
    ensures
        spec_highlight(es) matches Some(o) ==> no_code_markers(o),
{
    lemma_run_passes(es);
    lemma_plan_no_markers(hl_run(es).1);
}

/// A highlighter for Markdown code blocks.
pub struct PulldownHighlighter {}

impl PulldownHighlighter {
    pub fn new() -> (r: PulldownHighlighter) {
        PulldownHighlighter {  }
    }

    /// `events` with each code block turned into one event of HTML,
    /// coloured in the syntax of its fence token (or of the last known one
    /// before it); other events pass on in order. None when a block cannot
    /// be highlighted.
    pub fn highlight(&self, events: Vec<MdEvent>) -> (r: Option<Vec<MdEvent>>)
        requires
            hl_ok(md_views(events@)),
        ensures
            opt_md(r) == spec_highlight(md_views(events@)),
    {
        let hs = gather(events);
        code_to_html(hs)
    }
}

/// `events` with each code block turned into one event of highlighted HTML,
/// with a new highlighter.
pub fn highlight(events: Vec<MdEvent>) -> (r: Option<Vec<MdEvent>>)
    requires
        hl_ok(md_views(events@)),
    ensures
        opt_md(r) == spec_highlight(md_views(events@)),
{
    let h = PulldownHighlighter::new();
    h.highlight(events)
}

/// The HTML of the document whose events are `events`, code blocks
/// highlighted.
pub fn render_events(events: Vec<MdEvent>) -> (r: Option<String>)
    ensures
        opt_str(r) == spec_render_events(md_views(events@)),
{
    if !blocks_closed(&events) {
        return None;
    }
    match highlight(events) {
        Some(h) => Some(write_html(h)),
        None => None,
    }
}

/// The Markdown text `content` as HTML, code blocks highlighted.
pub fn render_markdown(content: &str) -> (r: Option<String>)
    ensures
        opt_str(r) == spec_render(content@),
{
    let events = parse_markdown(content);
    render_events(events)
}

} // verus!
