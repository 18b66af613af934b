//! HTML escaping and the rendering context.

use vstd::prelude::*;

use crate::location::{spec_join, InternalPath, Location};
use crate::text::push_char;

verus! {

/// Holds exactly for the six characters that the escaper replaces.
pub open spec fn is_special_char(c: char) -> bool {
    c == '&' || c == '<' || c == '>' || c == '"' || c == '\'' || c == '\\'
}

/// The text that one character escapes to: an entity for each of the six
/// special characters, the character itself for every other one.
pub open spec fn spec_escape_char(c: char) -> Seq<char> {
    if c == '&' {
        "&amp;"@
    } else if c == '<' {
        "&lt;"@
    } else if c == '>' {
        "&gt;"@
    } else if c == '"' {
        "&quot;"@
    } else if c == '\'' {
        "&#39;"@
    } else if c == '\\' {
        "&#92;"@
    } else {
        seq![c]
    }
}

/// HTML escaping of a whole string: each character replaced in one
/// left-to-right pass, already-emitted output never rescanned.
pub open spec fn spec_escape(s: Seq<char>) -> Seq<char>
    decreases s.len(),
{
    if s.len() == 0 {
        Seq::empty()
    } else {
        spec_escape_char(s[0]) + spec_escape(s.skip(1))
    }
}

/// The substitution for one character; `None` when the character copies
/// verbatim.
pub fn html_escape(ch: char) -> (r: Option<&'static str>)
    ensures
        match r {
            Some(e) => is_special_char(ch) && e@ == spec_escape_char(ch),
            None => !is_special_char(ch) && spec_escape_char(ch) == seq![ch],
        },
{
    match ch {
        '&' => Some("&amp;"),
        '<' => Some("&lt;"),
        '>' => Some("&gt;"),
        '"' => Some("&quot;"),
        '\'' => Some("&#39;"),
        '\\' => Some("&#92;"),
        _ => None,
    }
}

/// Escaping distributes over appending one character at the end.
proof fn lemma_escape_snoc(s: Seq<char>, c: char)
    ensures
        spec_escape(s.push(c)) == spec_escape(s) + spec_escape_char(c),
    decreases s.len(),
{
    if s.len() == 0 {
        assert(spec_escape(Seq::<char>::empty()) == Seq::<char>::empty());
        assert(s.push(c)[0] == c);
        assert(s.push(c).skip(1) =~= Seq::<char>::empty());
        assert(spec_escape(s.push(c)) == spec_escape_char(c) + spec_escape(s.push(c).skip(1)));
        assert(spec_escape_char(c) + Seq::<char>::empty() =~= spec_escape_char(c));
        assert(spec_escape(s) + spec_escape_char(c) =~= spec_escape_char(c));
    } else {
        assert(s.push(c).skip(1) =~= s.skip(1).push(c));
        lemma_escape_snoc(s.skip(1), c);
        assert(spec_escape(s.push(c)) =~= spec_escape(s) + spec_escape_char(c));
    }
}

/// Holds when no character of `t` is one of the six special characters.
pub open spec fn special_free(t: Seq<char>) -> bool {
    forall|i: int| 0 <= i < t.len() ==> !is_special_char(#[trigger] t[i])
}

/// One of the six entities starts at position `i` of `t`.
pub open spec fn entity_at(t: Seq<char>, i: int) -> bool {
    ||| (i + 5 <= t.len() && t.subrange(i, i + 5) == "&amp;"@)
    ||| (i + 4 <= t.len() && t.subrange(i, i + 4) == "&lt;"@)
    ||| (i + 4 <= t.len() && t.subrange(i, i + 4) == "&gt;"@)
    ||| (i + 6 <= t.len() && t.subrange(i, i + 6) == "&quot;"@)
    ||| (i + 5 <= t.len() && t.subrange(i, i + 5) == "&#39;"@)
    ||| (i + 5 <= t.len() && t.subrange(i, i + 5) == "&#92;"@)
}

/// Holds when `t` carries no bare special character: the five characters
/// other than `&` never occur, and every `&` begins an entity.
pub open spec fn escaped_form(t: Seq<char>) -> bool {
    forall|i: int|
        0 <= i < t.len() ==> {
            &&& #[trigger] t[i] != '<'
            &&& t[i] != '>'
            &&& t[i] != '"'
            &&& t[i] != '\''
            &&& t[i] != '\\'
            &&& (t[i] == '&' ==> entity_at(t, i))
        }
}

/// Prepends `c` to a decoded tail, if the tail decoded at all.
pub open spec fn unescape_step(c: char, rest: Option<Seq<char>>) -> Option<Seq<char>> {
    match rest {
        Some(r) => Some(seq![c] + r),
        None => None,
    }
}

/// Decodes the six entities back to their characters; fails on a bare
/// special character or on `&` followed by no known entity.
pub open spec fn spec_unescape(t: Seq<char>) -> Option<Seq<char>>
    decreases t.len(),
{
    if t.len() == 0 {
        Some(Seq::empty())
    } else if t[0] == '&' {
        if t.len() >= 5 && t.take(5) == "&amp;"@ {
            unescape_step('&', spec_unescape(t.skip(5)))
        } else if t.len() >= 4 && t.take(4) == "&lt;"@ {
            unescape_step('<', spec_unescape(t.skip(4)))
        } else if t.len() >= 4 && t.take(4) == "&gt;"@ {
            unescape_step('>', spec_unescape(t.skip(4)))
        } else if t.len() >= 6 && t.take(6) == "&quot;"@ {
            unescape_step('"', spec_unescape(t.skip(6)))
        } else if t.len() >= 5 && t.take(5) == "&#39;"@ {
            unescape_step('\'', spec_unescape(t.skip(5)))
        } else if t.len() >= 5 && t.take(5) == "&#92;"@ {
            unescape_step('\\', spec_unescape(t.skip(5)))
        } else {
            None
        }
    } else if is_special_char(t[0]) {
        None
    } else {
        unescape_step(t[0], spec_unescape(t.skip(1)))
    }
}

/// Escaping changes nothing on a string already free of the six special
/// characters; in particular, escaping is idempotent on such input.
pub proof fn lemma_escape_unchanged_without_specials(s: Seq<char>)
    requires
        special_free(s),
    ensures
        spec_escape(s) == s,
        spec_escape(spec_escape(s)) == spec_escape(s),
    decreases s.len(),
{
    if s.len() == 0 {
        assert(spec_escape(s) =~= s);
    } else {
        assert(!is_special_char(s[0]));
        assert(special_free(s.skip(1))) by {
            assert(forall|i: int|
                0 <= i < s.skip(1).len() ==> #[trigger] s.skip(1)[i] == s[i + 1]);
        }
        lemma_escape_unchanged_without_specials(s.skip(1));
        assert(spec_escape(s) =~= s);
    }
}

/// Escapes every special character of `s`, copying all others verbatim.
pub fn escape(s: &str) -> (r: String)
    ensures
        r@ == spec_escape(s@),
{
    let n = s.unicode_len();
    let mut out = String::new();
    let mut i: usize = 0;
    while i < n
        invariant
            n == s@.len(),
            i <= n,
            out@ == spec_escape(s@.take(i as int)),
        decreases n - i,
    {
        let c = s.get_char(i);
        match html_escape(c) {
            Some(entity) => {
                out.append(entity);
            },
            None => {
                push_char(&mut out, c);
            },
        }
        proof {
            lemma_escape_snoc(s@.take(i as int), c);
            assert(s@.take(i + 1 as int) =~= s@.take(i as int).push(s@[i as int]));
        }
        i = i + 1;
    }
    proof {
        assert(s@.take(n as int) =~= s@);
    }
    out
}

/// One `../` for each level the current page must climb to reach the
/// site root: its path length minus one, the last fragment being the file
/// itself.
pub open spec fn spec_ups(n: int) -> Seq<char>
    decreases n,
{
    if n <= 0 {
        Seq::empty()
    } else {
        "../"@ + spec_ups(n - 1)
    }
}

/// One more climb appends one more `../`.
proof fn lemma_ups_snoc(n: int)
    requires
        n >= 0,
    ensures
        spec_ups(n + 1) == spec_ups(n) + "../"@,
    decreases n,
{
    if n == 0 {
        assert(spec_ups(1) == "../"@ + spec_ups(0));
        assert("../"@ + Seq::<char>::empty() =~= "../"@);
        assert(Seq::<char>::empty() + "../"@ =~= "../"@);
    } else {
        lemma_ups_snoc(n - 1);
        assert("../"@ + (spec_ups(n - 1) + "../"@) =~= ("../"@ + spec_ups(n - 1)) + "../"@);
    }
}

/// The raw (unescaped) reference text of a location, as seen from the
/// page whose path is `ctx`: a URL verbatim, an internal path relative to
/// the current page's directory.
pub open spec fn spec_raw_href(loc: Location, ctx: Seq<Seq<char>>) -> Seq<char> {
    match loc {
        Location::Url(u) => u@,
        Location::Internal(p) => spec_ups(ctx.len() - 1) + spec_join(p@),
    }
}

/// The reference text of a location, escaped for HTML.
pub open spec fn spec_href(loc: Location, ctx: Seq<Seq<char>>) -> Seq<char> {
    spec_escape(spec_raw_href(loc, ctx))
}

/// The rendering context: exactly one datum, the path of the page being
/// rendered, threaded by value through every recursive render call.
#[derive(Debug)]
pub struct Context {
    location: InternalPath,
}

impl View for Context {
    type V = Seq<Seq<char>>;

    closed spec fn view(&self) -> Seq<Seq<char>> {
        self.location@
    }
}

impl Context {
    /// Creates the context from the current page's location.
    pub fn new(location: InternalPath) -> (r: Context)
        ensures
            r@ == location@,
    {
        Context { location }
    }

    /// The location of the current page.
    pub fn location(&self) -> (r: &InternalPath)
        ensures
            r@ == self@,
    {
        &self.location
    }

    /// Creates a renderer over a component from this context.
    pub fn renderer<T: Render>(self, target: T) -> (r: Renderer<T>)
        ensures
            r.context@ == self@,
            r.target == target,
    {
        Renderer { target, context: self }
    }
}

/// `n` repetitions of `../`.
pub fn ups(n: usize) -> (r: String)
    ensures
        r@ == spec_ups(n as int),
{
    let mut out = String::new();
    let mut i: usize = 0;
    proof {
        assert(out@ =~= spec_ups(0));
    }
    while i < n
        invariant
            i <= n,
            out@ == spec_ups(i as int),
        decreases n - i,
    {
        out.append("../");
        proof {
            lemma_ups_snoc(i as int);
        }
        i = i + 1;
    }
    out
}

/// The escaped reference text of a location as seen from `ctx`.
pub fn href_of(loc: &Location, ctx: &Context) -> (r: String)
    ensures
        r@ == spec_href(*loc, ctx@),
{
    match loc {
        Location::Url(u) => escape(u.as_str()),
        Location::Internal(p) => {
            let levels = ctx.location().fragments.len();
            let mut raw = if levels == 0 {
                String::new()
            } else {
                ups(levels - 1)
            };
            proof {
                if levels == 0 {
                    assert(raw@ =~= spec_ups(ctx@.len() - 1));
                }
            }
            let joined = p.to_fs_path();
            raw.append(joined.as_str());
            escape(raw.as_str())
        },
    }
}

/// Anything producing an HTML fragment given a rendering context.  One
/// uniform contract covers single values, sequences and optional values,
/// so a node built over any of them renders the same way.
pub trait Render {
    /// The HTML fragment this value renders to at tree position `ctx`.
    spec fn spec_html(&self, ctx: Seq<Seq<char>>) -> Seq<char>;

    /// Renders this value to an HTML fragment, escaping text and resolving
    /// locations relative to `ctx`.
    fn to_html(&self, ctx: &Context) -> (r: String)
        ensures
            r@ == self.spec_html(ctx@),
    ;
}

/// The concatenation of the renderings of a sequence's elements, in order.
pub open spec fn spec_html_seq<T: Render>(s: Seq<T>, ctx: Seq<Seq<char>>) -> Seq<char>
    decreases s.len(),
{
    if s.len() == 0 {
        Seq::empty()
    } else {
        s[0].spec_html(ctx) + spec_html_seq(s.skip(1), ctx)
    }
}

/// Rendering distributes over appending one element at the end.
proof fn lemma_html_seq_snoc<T: Render>(s: Seq<T>, x: T, ctx: Seq<Seq<char>>)
    ensures
        spec_html_seq(s.push(x), ctx) == spec_html_seq(s, ctx) + x.spec_html(ctx),
    decreases s.len(),
{
    if s.len() == 0 {
        assert(s.push(x)[0] == x);
        assert(s.push(x).skip(1) =~= Seq::<T>::empty());
        assert(spec_html_seq(s.push(x), ctx) == x.spec_html(ctx) + spec_html_seq(
            Seq::<T>::empty(),
            ctx,
        ));
        assert(x.spec_html(ctx) + Seq::<char>::empty() =~= x.spec_html(ctx));
        assert(Seq::<char>::empty() + x.spec_html(ctx) =~= x.spec_html(ctx));
    } else {
        assert(s.push(x)[0] == s[0]);
        assert(s.push(x).skip(1) =~= s.skip(1).push(x));
        lemma_html_seq_snoc(s.skip(1), x, ctx);
        assert(s[0].spec_html(ctx) + (spec_html_seq(s.skip(1), ctx) + x.spec_html(ctx)) =~= (
        s[0].spec_html(ctx) + spec_html_seq(s.skip(1), ctx)) + x.spec_html(ctx));
    }
}

impl Render for String {
    /// A string renders as its escaped text.
    open spec fn spec_html(&self, ctx: Seq<Seq<char>>) -> Seq<char> {
        spec_escape(self@)
    }

    fn to_html(&self, ctx: &Context) -> (r: String) {
        escape(self.as_str())
    }
}

impl<T: Render> Render for Vec<T> {
    /// A sequence renders as the concatenation of its elements'
    /// renderings, in order.
    open spec fn spec_html(&self, ctx: Seq<Seq<char>>) -> Seq<char> {
        spec_html_seq(self@, ctx)
    }

    fn to_html(&self, ctx: &Context) -> (r: String) {
        let mut out = String::new();
        let n = self.len();
        let mut i: usize = 0;
        proof {
            assert(self@.take(0) =~= Seq::<T>::empty());
            assert(out@ =~= spec_html_seq(self@.take(0), ctx@));
        }
        while i < n
            invariant
                n == self@.len(),
                i <= n,
                out@ == spec_html_seq(self@.take(i as int), ctx@),
            decreases n - i,
        {
            let piece = (&self[i]).to_html(ctx);
            out.append(piece.as_str());
            proof {
                lemma_html_seq_snoc(self@.take(i as int), self@[i as int], ctx@);
                assert(self@.take(i + 1 as int) =~= self@.take(i as int).push(self@[i as int]));
            }
            i = i + 1;
        }
        proof {
            assert(self@.take(n as int) =~= self@);
        }
        out
    }
}

impl<T: Render> Render for Option<T> {
    /// An absent value renders as empty output.
    open spec fn spec_html(&self, ctx: Seq<Seq<char>>) -> Seq<char> {
        match self {
            Some(v) => v.spec_html(ctx),
            None => Seq::empty(),
        }
    }

    fn to_html(&self, ctx: &Context) -> (r: String) {
        match self {
            Some(v) => v.to_html(ctx),
            None => String::new(),
        }
    }
}

/// A renderer over a component: the component together with the context
/// it will be rendered at.
#[derive(Debug)]
pub struct Renderer<T: Render> {
    /// The target component being rendered.
    pub target: T,
    /// The context at which the component will be rendered.
    pub context: Context,
}

impl<T: Render> Renderer<T> {
    /// Renders the target at the held context.
    pub fn html(&self) -> (r: String)
        ensures
            r@ == self.target.spec_html(self.context@),
    {
        self.target.to_html(&self.context)
    }
}

/// Names the six entity literals so that later proofs can reason about
/// their characters.
proof fn lemma_entity_literals()
    ensures
        "&amp;"@ =~= seq!['&', 'a', 'm', 'p', ';'],
        "&lt;"@ =~= seq!['&', 'l', 't', ';'],
        "&gt;"@ =~= seq!['&', 'g', 't', ';'],
        "&quot;"@ =~= seq!['&', 'q', 'u', 'o', 't', ';'],
        "&#39;"@ =~= seq!['&', '#', '3', '9', ';'],
        "&#92;"@ =~= seq!['&', '#', '9', '2', ';'],
{
    reveal_strlit("&amp;");
    reveal_strlit("&lt;");
    reveal_strlit("&gt;");
    reveal_strlit("&quot;");
    reveal_strlit("&#39;");
    reveal_strlit("&#92;");
}

/// Decoding the entities recovers the original string exactly: escaping
/// loses no information.
pub proof fn lemma_escape_roundtrip(s: Seq<char>)
    ensures
        spec_unescape(spec_escape(s)) == Some(s),
    decreases s.len(),
{
    lemma_entity_literals();
    if s.len() == 0 {
        assert(spec_escape(s) =~= Seq::<char>::empty());
        assert(spec_unescape(Seq::<char>::empty()) == Some(Seq::<char>::empty()));
        assert(Seq::<char>::empty() =~= s);
    } else {
        let c = s[0];
        let e = spec_escape_char(c);
        let rest = spec_escape(s.skip(1));
        let t = e + rest;
        lemma_escape_roundtrip(s.skip(1));
        assert(spec_escape(s) == t);
        assert(t.skip(e.len() as int) =~= rest);
        assert(seq![c] + s.skip(1) =~= s);
        if c == '&' {
            assert(t[0] == '&');
            assert(t.take(5) =~= "&amp;"@);
        } else if c == '<' {
            assert(t[0] == '&');
            assert(t.len() >= 5 ==> t.take(5)[1] == 'l');
            assert(t.take(4) =~= "&lt;"@);
        } else if c == '>' {
            assert(t[0] == '&');
            assert(t.len() >= 5 ==> t.take(5)[1] == 'g');
            assert(t.take(4) =~= "&gt;"@);
            assert(t.take(4)[1] == 'g');
        } else if c == '"' {
            assert(t[0] == '&');
            assert(t.len() >= 5 ==> t.take(5)[1] == 'q');
            assert(t.len() >= 4 ==> t.take(4)[1] == 'q');
            assert(t.take(6) =~= "&quot;"@);
        } else if c == '\'' {
            assert(t[0] == '&');
            assert(t.len() >= 4 ==> t.take(4)[1] == '#');
            assert(t.len() >= 6 ==> t.take(6)[1] == '#');
            assert(t.take(5) =~= "&#39;"@);
            assert(t.take(5)[1] == '#');
            assert(t.take(5)[2] == '3');
        } else if c == '\\' {
            assert(t[0] == '&');
            assert(t.len() >= 4 ==> t.take(4)[1] == '#');
            assert(t.len() >= 6 ==> t.take(6)[1] == '#');
            assert(t.take(5) =~= "&#92;"@);
            assert(t.take(5)[1] == '#');
            assert(t.take(5)[2] == '9');
        } else {
            assert(e =~= seq![c]);
            assert(t[0] == c);
            assert(!is_special_char(t[0]));
            assert(t.skip(1) =~= rest);
        }
    }
}

/// Shifting right by a prefix keeps an entity an entity.
proof fn lemma_entity_at_shift(prefix: Seq<char>, t: Seq<char>, j: int)
    requires
        0 <= j <= t.len(),
        entity_at(t, j),
    ensures
        entity_at(prefix + t, prefix.len() + j),
{
    let u = prefix + t;
    let i = prefix.len() + j;
    if j + 5 <= t.len() && t.subrange(j, j + 5) == "&amp;"@ {
        assert(u.subrange(i, i + 5) =~= t.subrange(j, j + 5));
    } else if j + 4 <= t.len() && t.subrange(j, j + 4) == "&lt;"@ {
        assert(u.subrange(i, i + 4) =~= t.subrange(j, j + 4));
    } else if j + 4 <= t.len() && t.subrange(j, j + 4) == "&gt;"@ {
        assert(u.subrange(i, i + 4) =~= t.subrange(j, j + 4));
    } else if j + 6 <= t.len() && t.subrange(j, j + 6) == "&quot;"@ {
        assert(u.subrange(i, i + 6) =~= t.subrange(j, j + 6));
    } else if j + 5 <= t.len() && t.subrange(j, j + 5) == "&#39;"@ {
        assert(u.subrange(i, i + 5) =~= t.subrange(j, j + 5));
    } else {
        assert(u.subrange(i, i + 5) =~= t.subrange(j, j + 5));
    }
}

/// Escaped output carries no bare special character: the five characters
/// other than `&` never occur in it, and every `&` in it begins one of the
/// six entities.
pub proof fn lemma_escape_output_escaped(s: Seq<char>)
    ensures
        escaped_form(spec_escape(s)),
    decreases s.len(),
{
    lemma_entity_literals();
    if s.len() == 0 {
        assert(spec_escape(s) =~= Seq::<char>::empty());
    } else {
        let c = s[0];
        let e = spec_escape_char(c);
        let rest = spec_escape(s.skip(1));
        let t = e + rest;
        assert(spec_escape(s) == t);
        lemma_escape_output_escaped(s.skip(1));
        assert forall|i: int| 0 <= i < t.len() implies {
            &&& t[i] != '<'
            &&& t[i] != '>'
            &&& t[i] != '"'
            &&& t[i] != '\''
            &&& t[i] != '\\'
            &&& (t[i] == '&' ==> entity_at(t, i))
        } by {
            if i < e.len() {
                if is_special_char(c) {
                    if i == 0 {
                        assert(t[0] == '&');
                        assert(t.subrange(0, e.len() as int) =~= e);
                        assert(entity_at(t, 0));
                    } else {
                        assert(t[i] == e[i]);
                    }
                } else {
                    assert(e =~= seq![c]);
                    assert(t[i] == c);
                }
            } else {
                let j = i - e.len();
                assert(t[i] == rest[j]);
                if rest[j] == '&' {
                    assert(entity_at(rest, j));
                    lemma_entity_at_shift(e, rest, j);
                }
            }
        }
    }
}

} // verus!
