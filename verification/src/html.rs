//! The HTML builder dialect: `html [...]`.
//!
//! A flat token stream of tags, text and nested groups; the open/close tag
//! structure defines the nesting. Unclosed tags are closed at the end of
//! their group, a stray closing tag is ignored, and void elements (`<br>`,
//! `<img ...>`) close themselves unless in XML mode.
//!
//! Parens (`(expr)`) in the token stream and `=(expr)` attribute values are
//! Red code: the caller evaluates them. A paren reaches this module as the
//! formed text of its result; a tag carries the formed results of its
//! `=(expr)` attributes, in order.
use vstd::prelude::*;

use crate::native::RefineArgs;
use crate::text::{push_char, push_str, spaces};
use crate::value::Value;

verus! {

broadcast use vstd::string::group_string_axioms;

/// One element of the token stream.
pub enum HtmlToken {
    /// A `tag!`: the text between `<` and `>`, and the formed results of its
    /// `=(expr)` attribute values, in order.
    Tag { body: String, exprs: Vec<String> },
    /// Text content: a `string!`, or the formed text of any other value.
    Text(String),
    /// A nested block: a token group with its own tag structure.
    Group(Vec<HtmlToken>),
}

pub enum TokenView {
    Tag { body: Seq<char>, exprs: Seq<Seq<char>> },
    Text(Seq<char>),
    Group(Seq<TokenView>),
}

pub open spec fn view_strings(v: Seq<String>) -> Seq<Seq<char>> {
    Seq::new(v.len(), |i: int| v[i]@)
}

pub open spec fn view_tokens(ts: Seq<HtmlToken>) -> Seq<TokenView>
    decreases ts,
{
    if ts.len() == 0 {
        Seq::empty()
    } else {
        view_tokens(ts.drop_last()).push(view_token(ts.last()))
    }
}

pub open spec fn view_token(t: HtmlToken) -> TokenView
    decreases t,
{
    match t {
        HtmlToken::Tag { body, exprs } => TokenView::Tag { body: body@, exprs: view_strings(exprs@) },
        HtmlToken::Text(s) => TokenView::Text(s@),
        HtmlToken::Group(ts) => TokenView::Group(view_tokens(ts@)),
    }
}

impl View for HtmlToken {
    type V = TokenView;

    open spec fn view(&self) -> TokenView {
        view_token(*self)
    }
}

pub proof fn lemma_view_tokens(ts: Seq<HtmlToken>)
    ensures
        view_tokens(ts).len() == ts.len(),
        forall|i: int| 0 <= i < ts.len() ==> #[trigger] view_tokens(ts)[i] == view_token(ts[i]),
    decreases ts.len(),
{
    if ts.len() > 0 {
        lemma_view_tokens(ts.drop_last());
    }
}

/// Rendering options: `/xml` (no void elements), `/raw` (no escaping of
/// text), `/indent` (one tag or text per line, indented).
#[derive(Clone, Copy, Debug, PartialEq, Eq)]
pub struct HtmlOpts {
    pub xml_mode: bool,
    pub raw: bool,
    pub pretty: bool,
    pub indent_width: usize,
}

/// The failures of the HTML dialect.
#[derive(Clone, Copy, Debug, PartialEq, Eq)]
pub enum HtmlError {
    /// `html` was called without its block.
    Arity,
    /// A tag with no name (`<>`, `< class="x">`).
    EmptyTagName,
    /// A tag has more `=(expr)` attributes than formed results.
    UnresolvedExpression,
}

/// An attribute value: quoted, single-quoted or bare text, or a Red
/// expression to evaluate.
#[derive(Clone, Debug, PartialEq)]
pub enum AttrValue {
    Text(String),
    Expr(String),
}

pub enum AttrView {
    Text(Seq<char>),
    Expr(Seq<char>),
}

impl View for AttrValue {
    type V = AttrView;

    open spec fn view(&self) -> AttrView {
        match self {
            AttrValue::Text(s) => AttrView::Text(s@),
            AttrValue::Expr(s) => AttrView::Expr(s@),
        }
    }
}

// ---------------------------------------------------------------------------
// Escaping
// ---------------------------------------------------------------------------

pub open spec fn html_escape_char(c: char) -> Seq<char> {
    if c == '&' {
        seq!['&', 'a', 'm', 'p', ';']
    } else if c == '<' {
        seq!['&', 'l', 't', ';']
    } else if c == '>' {
        seq!['&', 'g', 't', ';']
    } else if c == '"' {
        seq!['&', 'q', 'u', 'o', 't', ';']
    } else {
        seq![c]
    }
}

pub open spec fn spec_html_escape(s: Seq<char>) -> Seq<char>
    decreases s.len(),
{
    if s.len() == 0 {
        Seq::empty()
    } else {
        spec_html_escape(s.drop_last()) + html_escape_char(s.last())
    }
}

pub open spec fn attr_escape_char(c: char) -> Seq<char> {
    if c == '"' {
        seq!['&', 'q', 'u', 'o', 't', ';']
    } else if c == '&' {
        seq!['&', 'a', 'm', 'p', ';']
    } else {
        seq![c]
    }
}

pub open spec fn spec_escape_attr(s: Seq<char>) -> Seq<char>
    decreases s.len(),
{
    if s.len() == 0 {
        Seq::empty()
    } else {
        spec_escape_attr(s.drop_last()) + attr_escape_char(s.last())
    }
}

fn push_lit(out: &mut String, t: &str)
    ensures
        final(out)@ == old(out)@ + t@,
{
    push_str(out, t);
}

/// HTML-escapes text content into `out`: `&` → `&amp;`, `<` → `&lt;`,
/// `>` → `&gt;`, `"` → `&quot;`.
pub fn html_escape(s: &str, out: &mut String)
    ensures
        final(out)@ == old(out)@ + spec_html_escape(s@),
{
    let ghost start = out@;
    for c in it: s.chars()
        invariant
            it.seq() == s@,
            out@ == start + spec_html_escape(s@.take(it.index() as int)),
    {
        proof {
            let i = it.index() as int;
            assert(s@.take(i + 1).drop_last() == s@.take(i));
            reveal_strlit("&amp;");
            reveal_strlit("&lt;");
            reveal_strlit("&gt;");
            reveal_strlit("&quot;");
        }
        if c == '&' {
            push_lit(out, "&amp;");
        } else if c == '<' {
            push_lit(out, "&lt;");
        } else if c == '>' {
            push_lit(out, "&gt;");
        } else if c == '"' {
            push_lit(out, "&quot;");
        } else {
            push_char(out, c);
        }
        proof {
            assert("&amp;"@ == seq!['&', 'a', 'm', 'p', ';']);
            assert("&lt;"@ == seq!['&', 'l', 't', ';']);
            assert("&gt;"@ == seq!['&', 'g', 't', ';']);
            assert("&quot;"@ == seq!['&', 'q', 'u', 'o', 't', ';']);
        }
    }
    assert(s@.take(s@.len() as int) == s@);
}

/// Escapes an attribute value into `out`: `"` → `&quot;`, `&` → `&amp;`
/// (`<` and `>` are safe inside a quoted attribute).
pub fn escape_attr(s: &str, out: &mut String)
    ensures
        final(out)@ == old(out)@ + spec_escape_attr(s@),
{
    let ghost start = out@;
    for c in it: s.chars()
        invariant
            it.seq() == s@,
            out@ == start + spec_escape_attr(s@.take(it.index() as int)),
    {
        proof {
            let i = it.index() as int;
            assert(s@.take(i + 1).drop_last() == s@.take(i));
            reveal_strlit("&amp;");
            reveal_strlit("&quot;");
        }
        if c == '"' {
            push_lit(out, "&quot;");
        } else if c == '&' {
            push_lit(out, "&amp;");
        } else {
            push_char(out, c);
        }
        proof {
            assert("&amp;"@ == seq!['&', 'a', 'm', 'p', ';']);
            assert("&quot;"@ == seq!['&', 'q', 'u', 'o', 't', ';']);
        }
    }
    assert(s@.take(s@.len() as int) == s@);
}


// ---------------------------------------------------------------------------
// Tag bodies
// ---------------------------------------------------------------------------

/// `char::is_whitespace`: the Unicode `White_Space` property.
pub open spec fn unicode_ws(c: char) -> bool {
    let u = c as u32;
    (9 <= u <= 13) || u == 32 || u == 0x85 || u == 0xA0 || u == 0x1680 || (0x2000 <= u <= 0x200A)
        || u == 0x2028 || u == 0x2029 || u == 0x202F || u == 0x205F || u == 0x3000
}

/// `u8::is_ascii_whitespace` on an ASCII character.
pub open spec fn ascii_ws(c: char) -> bool {
    c == ' ' || c == '\t' || c == '\n' || c == '\u{0C}' || c == '\r'
}

/// Whether `c` is Unicode whitespace (what `char::is_whitespace` answers).
pub(crate) fn char_is_whitespace(c: char) -> (r: bool)
    ensures
        r == unicode_ws(c),
{
    let u = c as u32;
    (9 <= u && u <= 13) || u == 32 || u == 0x85 || u == 0xA0 || u == 0x1680 || (0x2000 <= u && u <= 0x200A)
        || u == 0x2028 || u == 0x2029 || u == 0x202F || u == 0x205F || u == 0x3000
}

/// The first index at or after `i` that is not Unicode whitespace.
pub open spec fn first_non_ws(s: Seq<char>, i: nat) -> nat
    decreases s.len() - i,
{
    if i < s.len() && unicode_ws(s[i as int]) {
        first_non_ws(s, i + 1)
    } else {
        i
    }
}

/// The end of `s[lo..j]` with trailing Unicode whitespace removed.
pub open spec fn last_end(s: Seq<char>, j: nat, lo: nat) -> nat
    decreases j,
{
    if j > lo && j <= s.len() && unicode_ws(s[j - 1]) {
        last_end(s, (j - 1) as nat, lo)
    } else {
        j
    }
}

/// `str::trim`.
pub open spec fn trim(s: Seq<char>) -> Seq<char> {
    let lo = first_non_ws(s, 0);
    s.subrange(lo as int, last_end(s, s.len(), lo) as int)
}

/// The first index at or after `i` that is Unicode whitespace, or the end.
pub open spec fn first_ws(s: Seq<char>, i: nat) -> nat
    decreases s.len() - i,
{
    if i < s.len() && !unicode_ws(s[i as int]) {
        first_ws(s, i + 1)
    } else {
        i
    }
}

pub open spec fn skip_ascii_ws(s: Seq<char>, i: nat) -> nat
    decreases s.len() - i,
{
    if i < s.len() && ascii_ws(s[i as int]) {
        skip_ascii_ws(s, i + 1)
    } else {
        i
    }
}

/// The end of an attribute key: the first `=` or whitespace.
pub open spec fn scan_key(s: Seq<char>, i: nat) -> nat
    decreases s.len() - i,
{
    if i < s.len() && s[i as int] != '=' && !ascii_ws(s[i as int]) {
        scan_key(s, i + 1)
    } else {
        i
    }
}

/// The first `c` at or after `i`, or the end.
pub open spec fn scan_until(s: Seq<char>, i: nat, c: char) -> nat
    decreases s.len() - i,
{
    if i < s.len() && s[i as int] != c {
        scan_until(s, i + 1, c)
    } else {
        i
    }
}

/// The end of a bare value: the first whitespace.
pub open spec fn scan_bare(s: Seq<char>, i: nat) -> nat
    decreases s.len() - i,
{
    if i < s.len() && !ascii_ws(s[i as int]) {
        scan_bare(s, i + 1)
    } else {
        i
    }
}

/// The position of the `)` that closes a paren opened before `i` (`depth`
/// open), or the end.
pub open spec fn paren_close(s: Seq<char>, i: nat, depth: int) -> nat
    decreases s.len() - i,
{
    if i < s.len() && depth > 0 {
        let d2 = if s[i as int] == '(' {
            depth + 1
        } else if s[i as int] == ')' {
            depth - 1
        } else {
            depth
        };
        if d2 > 0 {
            paren_close(s, i + 1, d2)
        } else {
            i
        }
    } else {
        i
    }
}

/// The attributes in `s` from `i` on: `key="v"`, `key='v'`, `key=(expr)`,
/// `key=v`, or a bare `key`.
pub open spec fn attrs_from(s: Seq<char>, i: nat) -> Seq<(Seq<char>, AttrView)>
    decreases s.len() - i,
{
    let j = skip_ascii_ws(s, i);
    if j >= s.len() {
        Seq::empty()
    } else {
        let k = scan_key(s, j);
        let key = s.subrange(j as int, k as int);
        if k < s.len() && s[k as int] == '=' {
            let k1 = k + 1;
            if k1 >= s.len() {
                seq![(key, AttrView::Text(Seq::empty()))]
            } else {
                let c = s[k1 as int];
                let (val, next) = if c == '"' || c == '\'' {
                    let ve = scan_until(s, k1 + 1, c);
                    (
                        AttrView::Text(s.subrange((k1 + 1) as int, ve as int)),
                        if ve < s.len() {
                            ve + 1
                        } else {
                            ve
                        },
                    )
                } else if c == '(' {
                    let ee = paren_close(s, k1 + 1, 1);
                    (
                        AttrView::Expr(s.subrange((k1 + 1) as int, ee as int)),
                        if ee < s.len() {
                            ee + 1
                        } else {
                            ee
                        },
                    )
                } else {
                    let ve = scan_bare(s, k1);
                    (AttrView::Text(s.subrange(k1 as int, ve as int)), ve)
                };
                if i < next <= s.len() {
                    seq![(key, val)] + attrs_from(s, next)
                } else {
                    seq![(key, val)]
                }
            }
        } else if i < k <= s.len() {
            seq![(key, AttrView::Text(Seq::empty()))] + attrs_from(s, k)
        } else {
            seq![(key, AttrView::Text(Seq::empty()))]
        }
    }
}

/// A parsed tag body: name, attributes, and whether it ends with `/`.
pub struct TagView {
    pub name: Seq<char>,
    pub attrs: Seq<(Seq<char>, AttrView)>,
    pub self_closing: bool,
}

/// A tag body (everything between `<` and `>`) as name and attributes.
pub open spec fn spec_parse_tag(body: Seq<char>) -> Result<TagView, HtmlError> {
    let t = trim(body);
    let sc = t.len() > 0 && t.last() == '/' && t[0] != '/';
    let inner = if sc {
        trim(t.drop_last())
    } else {
        t
    };
    let ne = first_ws(inner, 0);
    let name = inner.subrange(0, ne as int);
    if name.len() == 0 {
        Err(HtmlError::EmptyTagName)
    } else {
        Ok(
            TagView {
                name,
                attrs: attrs_from(trim(inner.subrange(ne as int, inner.len() as int)), 0),
                self_closing: sc,
            },
        )
    }
}

/// A parsed tag.
pub struct ParsedTag {
    pub name: String,
    pub attrs: Vec<(String, AttrValue)>,
    pub self_closing: bool,
}

pub open spec fn view_attrs(a: Seq<(String, AttrValue)>) -> Seq<(Seq<char>, AttrView)> {
    Seq::new(a.len(), |i: int| (a[i].0@, a[i].1@))
}

impl View for ParsedTag {
    type V = TagView;

    open spec fn view(&self) -> TagView {
        TagView { name: self.name@, attrs: view_attrs(self.attrs@), self_closing: self.self_closing }
    }
}

/// The characters of `s`.
pub(crate) fn to_chars(s: &str) -> (r: Vec<char>)
    ensures
        r@ == s@,
{
    let mut v: Vec<char> = Vec::new();
    for c in it: s.chars()
        invariant
            it.seq() == s@,
            v@ == s@.take(it.index() as int),
    {
        v.push(c);
        proof {
            assert(s@.take(it.index() + 1) == s@.take(it.index() as int).push(c));
        }
    }
    assert(s@.take(s@.len() as int) == s@);
    v
}

/// `cs[a..b]` as a string.
fn slice_string(cs: &Vec<char>, a: usize, b: usize) -> (r: String)
    requires
        a <= b <= cs@.len(),
    ensures
        r@ == cs@.subrange(a as int, b as int),
{
    let mut out = String::new();
    let mut i = a;
    while i < b
        invariant
            a <= i <= b,
            b <= cs@.len(),
            out@ == cs@.subrange(a as int, i as int),
        decreases b - i,
    {
        push_char(&mut out, cs[i]);
        i = i + 1;
        assert(cs@.subrange(a as int, i as int) == cs@.subrange(a as int, i - 1).push(cs@[i - 1]));
    }
    out
}

fn is_ascii_ws(c: char) -> (r: bool)
    ensures
        r == ascii_ws(c),
{
    c == ' ' || c == '\t' || c == '\n' || c == '\u{0C}' || c == '\r'
}

/// The bounds of `cs[lo..hi]` trimmed of Unicode whitespace.
pub(crate) fn trim_bounds(cs: &Vec<char>, lo: usize, hi: usize) -> (r: (usize, usize))
    requires
        lo <= hi <= cs@.len(),
    ensures
        cs@.subrange(r.0 as int, r.1 as int) == trim(cs@.subrange(lo as int, hi as int)),
        lo <= r.0 <= r.1 <= hi,
{
    let ghost t = cs@.subrange(lo as int, hi as int);
    let mut a = lo;
    while a < hi && char_is_whitespace(cs[a])
        invariant
            lo <= a <= hi,
            hi <= cs@.len(),
            t == cs@.subrange(lo as int, hi as int),
            first_non_ws(t, 0) == first_non_ws(t, (a - lo) as nat),
        decreases hi - a,
    {
        assert(t[(a - lo) as int] == cs@[a as int]);
        a = a + 1;
    }
    proof {
        if a < hi {
            assert(t[(a - lo) as int] == cs@[a as int]);
        }
    }
    let mut b = hi;
    while b > a && char_is_whitespace(cs[b - 1])
        invariant
            lo <= a <= b <= hi,
            hi <= cs@.len(),
            t == cs@.subrange(lo as int, hi as int),
            first_non_ws(t, 0) == (a - lo) as nat,
            last_end(t, t.len(), (a - lo) as nat) == last_end(t, (b - lo) as nat, (a - lo) as nat),
        decreases b,
    {
        assert(t[(b - 1 - lo) as int] == cs@[b - 1]);
        b = b - 1;
    }
    proof {
        if b > a {
            assert(t[(b - 1 - lo) as int] == cs@[b - 1]);
        }
    }
    assert(cs@.subrange(a as int, b as int) =~= t.subrange((a - lo) as int, (b - lo) as int));
    (a, b)
}


fn sub_chars(cs: &Vec<char>, a: usize, b: usize) -> (r: Vec<char>)
    requires
        a <= b <= cs@.len(),
    ensures
        r@ == cs@.subrange(a as int, b as int),
{
    let mut out: Vec<char> = Vec::new();
    let mut i = a;
    while i < b
        invariant
            a <= i <= b,
            b <= cs@.len(),
            out@ == cs@.subrange(a as int, i as int),
        decreases b - i,
    {
        out.push(cs[i]);
        i = i + 1;
        assert(cs@.subrange(a as int, i as int) == cs@.subrange(a as int, i - 1).push(cs@[i - 1]));
    }
    out
}

fn exec_skip_ascii_ws(s: &Vec<char>, i: usize) -> (r: usize)
    requires
        i <= s@.len(),
    ensures
        r == skip_ascii_ws(s@, i as nat),
        i <= r <= s@.len(),
{
    let mut p = i;
    while p < s.len() && is_ascii_ws(s[p])
        invariant
            i <= p <= s@.len(),
            skip_ascii_ws(s@, i as nat) == skip_ascii_ws(s@, p as nat),
        decreases s@.len() - p,
    {
        p = p + 1;
    }
    p
}

fn exec_scan_key(s: &Vec<char>, i: usize) -> (r: usize)
    requires
        i <= s@.len(),
    ensures
        r == scan_key(s@, i as nat),
        i <= r <= s@.len(),
{
    let mut p = i;
    while p < s.len() && s[p] != '=' && !is_ascii_ws(s[p])
        invariant
            i <= p <= s@.len(),
            scan_key(s@, i as nat) == scan_key(s@, p as nat),
        decreases s@.len() - p,
    {
        p = p + 1;
    }
    p
}

fn exec_scan_until(s: &Vec<char>, i: usize, c: char) -> (r: usize)
    requires
        i <= s@.len(),
    ensures
        r == scan_until(s@, i as nat, c),
        i <= r <= s@.len(),
{
    let mut p = i;
    while p < s.len() && s[p] != c
        invariant
            i <= p <= s@.len(),
            scan_until(s@, i as nat, c) == scan_until(s@, p as nat, c),
        decreases s@.len() - p,
    {
        p = p + 1;
    }
    p
}

fn exec_scan_bare(s: &Vec<char>, i: usize) -> (r: usize)
    requires
        i <= s@.len(),
    ensures
        r == scan_bare(s@, i as nat),
        i <= r <= s@.len(),
{
    let mut p = i;
    while p < s.len() && !is_ascii_ws(s[p])
        invariant
            i <= p <= s@.len(),
            scan_bare(s@, i as nat) == scan_bare(s@, p as nat),
        decreases s@.len() - p,
    {
        p = p + 1;
    }
    p
}

fn exec_paren_close(s: &Vec<char>, i: usize) -> (r: usize)
    requires
        i <= s@.len(),
    ensures
        r == paren_close(s@, i as nat, 1),
        i <= r <= s@.len(),
{
    let mut p = i;
    let mut depth: u128 = 1;
    while p < s.len() && depth > 0
        invariant
            i <= p <= s@.len(),
            depth <= p - i + 1,
            depth > 0 ==> paren_close(s@, i as nat, 1) == paren_close(s@, p as nat, depth as int),
            depth == 0 ==> paren_close(s@, i as nat, 1) == p,
        decreases s@.len() - p, depth,
    {
        if s[p] == '(' {
            depth = depth + 1;
        } else if s[p] == ')' {
            depth = depth - 1;
        }
        if depth > 0 {
            p = p + 1;
        }
    }
    p
}

/// Parses `key=value` attributes from the rest of a tag body.
pub fn parse_attrs(s: &Vec<char>) -> (r: Vec<(String, AttrValue)>)
    ensures
        view_attrs(r@) == attrs_from(s@, 0),
{
    let n = s.len();
    let mut acc: Vec<(String, AttrValue)> = Vec::new();
    let mut i: usize = 0;
    loop
        invariant
            i <= n,
            n == s@.len(),
            attrs_from(s@, 0) == view_attrs(acc@) + attrs_from(s@, i as nat),
        decreases n - i,
    {
        let ghost old_acc = acc@;
        let j = exec_skip_ascii_ws(s, i);
        if j >= n {
            assert(view_attrs(acc@) + attrs_from(s@, i as nat) =~= view_attrs(acc@));
            return acc;
        }
        let k = exec_scan_key(s, j);
        let key = slice_string(s, j, k);
        if k < n && s[k] == '=' {
            let k1 = k + 1;
            if k1 >= n {
                acc.push((key, AttrValue::Text(String::new())));
                assert(view_attrs(acc@) =~= view_attrs(old_acc) + attrs_from(s@, i as nat));
                return acc;
            }
            let c = s[k1];
            let (val, next) = if c == '"' || c == '\'' {
                let ve = exec_scan_until(s, k1 + 1, c);
                let v = slice_string(s, k1 + 1, ve);
                (AttrValue::Text(v), if ve < n {
                    ve + 1
                } else {
                    ve
                })
            } else if c == '(' {
                let ee = exec_paren_close(s, k1 + 1);
                let v = slice_string(s, k1 + 1, ee);
                (AttrValue::Expr(v), if ee < n {
                    ee + 1
                } else {
                    ee
                })
            } else {
                let ve = exec_scan_bare(s, k1);
                let v = slice_string(s, k1, ve);
                (AttrValue::Text(v), ve)
            };
            acc.push((key, val));
            assert(view_attrs(acc@) =~= view_attrs(old_acc).push((acc@.last().0@, acc@.last().1@)));
            if i < next && next <= n {
                assert(view_attrs(acc@) + attrs_from(s@, next as nat) =~= view_attrs(old_acc)
                    + attrs_from(s@, i as nat));
                i = next;
            } else {
                assert(view_attrs(acc@) =~= view_attrs(old_acc) + attrs_from(s@, i as nat));
                return acc;
            }
        } else {
            acc.push((key, AttrValue::Text(String::new())));
            if i < k {
                assert(view_attrs(acc@) + attrs_from(s@, k as nat) =~= view_attrs(old_acc)
                    + attrs_from(s@, i as nat));
                i = k;
            } else {
                assert(view_attrs(acc@) =~= view_attrs(old_acc) + attrs_from(s@, i as nat));
                return acc;
            }
        }
    }
}

/// Parses a tag body into its name, attributes and self-closing flag.
#[verifier::spinoff_prover]
#[verifier::rlimit(50)]
pub fn parse_tag_body(body: &str) -> (r: Result<ParsedTag, HtmlError>)
    ensures
        match r {
            Ok(t) => spec_parse_tag(body@) == Ok::<TagView, HtmlError>(t@),
            Err(e) => spec_parse_tag(body@) == Err::<TagView, HtmlError>(e),
        },
{
    let cs = to_chars(body);
    let (a, b) = trim_bounds(&cs, 0, cs.len());
    assert(cs@.subrange(0, cs@.len() as int) == cs@);
    let ghost t = cs@.subrange(a as int, b as int);
    let sc = b > a && cs[b - 1] == '/' && cs[a] != '/';
    let (ia, ib) = if sc {
        assert(t.drop_last() == cs@.subrange(a as int, (b - 1) as int));
        trim_bounds(&cs, a, b - 1)
    } else {
        (a, b)
    };
    let ghost inner = cs@.subrange(ia as int, ib as int);
    let mut ne = ia;
    while ne < ib && !char_is_whitespace(cs[ne])
        invariant
            ia <= ne <= ib,
            ib <= cs@.len(),
            inner == cs@.subrange(ia as int, ib as int),
            first_ws(inner, 0) == first_ws(inner, (ne - ia) as nat),
        decreases ib - ne,
    {
        assert(inner[(ne - ia) as int] == cs@[ne as int]);
        ne = ne + 1;
    }
    proof {
        if ne < ib {
            assert(inner[(ne - ia) as int] == cs@[ne as int]);
        }
    }
    if ne == ia {
        return Err(HtmlError::EmptyTagName);
    }
    let name = slice_string(&cs, ia, ne);
    assert(name@ =~= inner.subrange(0, (ne - ia) as int));
    let (ra, rb) = trim_bounds(&cs, ne, ib);
    assert(cs@.subrange(ne as int, ib as int) =~= inner.subrange((ne - ia) as int, inner.len() as int));
    let rest = sub_chars(&cs, ra, rb);
    let attrs = parse_attrs(&rest);
    Ok(ParsedTag { name, attrs, self_closing: sc })
}


// ---------------------------------------------------------------------------
// Rendering
// ---------------------------------------------------------------------------

/// HTML5 void elements, which close themselves.
pub open spec fn void_elements() -> Seq<Seq<char>> {
    seq![
        seq!['a', 'r', 'e', 'a'],
        seq!['b', 'a', 's', 'e'],
        seq!['b', 'r'],
        seq!['c', 'o', 'l'],
        seq!['e', 'm', 'b', 'e', 'd'],
        seq!['h', 'r'],
        seq!['i', 'm', 'g'],
        seq!['i', 'n', 'p', 'u', 't'],
        seq!['l', 'i', 'n', 'k'],
        seq!['m', 'e', 't', 'a'],
        seq!['p', 'a', 'r', 'a', 'm'],
        seq!['s', 'o', 'u', 'r', 'c', 'e'],
        seq!['t', 'r', 'a', 'c', 'k'],
        seq!['w', 'b', 'r'],
    ]
}

/// The attribute values, with each `=(expr)` replaced by the next formed
/// result.
pub open spec fn resolve_attrs(attrs: Seq<(Seq<char>, AttrView)>, exprs: Seq<Seq<char>>) -> Result<
    Seq<(Seq<char>, Seq<char>)>,
    HtmlError,
>
    decreases attrs.len(),
{
    if attrs.len() == 0 {
        Ok(Seq::empty())
    } else {
        match attrs[0].1 {
            AttrView::Text(v) => match resolve_attrs(attrs.drop_first(), exprs) {
                Ok(rest) => Ok(seq![(attrs[0].0, v)] + rest),
                Err(e) => Err(e),
            },
            AttrView::Expr(_) => if exprs.len() == 0 {
                Err(HtmlError::UnresolvedExpression)
            } else {
                match resolve_attrs(attrs.drop_first(), exprs.drop_first()) {
                    Ok(rest) => Ok(seq![(attrs[0].0, exprs[0])] + rest),
                    Err(e) => Err(e),
                }
            },
        }
    }
}

/// ` key`, or ` key="value"` (escaped) when the value is not empty.
pub open spec fn attr_text(a: (Seq<char>, Seq<char>)) -> Seq<char> {
    seq![' '] + a.0 + (if a.1.len() > 0 {
        seq!['=', '"'] + spec_escape_attr(a.1) + seq!['"']
    } else {
        Seq::<char>::empty()
    })
}

pub open spec fn attrs_text(attrs: Seq<(Seq<char>, Seq<char>)>) -> Seq<char>
    decreases attrs.len(),
{
    if attrs.len() == 0 {
        Seq::empty()
    } else {
        attrs_text(attrs.drop_last()) + attr_text(attrs.last())
    }
}

/// Indentation for nesting `n`, in pretty mode.
pub open spec fn ind(opts: HtmlOpts, n: nat) -> Seq<char> {
    if opts.pretty {
        spaces(n * (opts.indent_width as nat))
    } else {
        Seq::empty()
    }
}

/// A line break, in pretty mode.
pub open spec fn nl(opts: HtmlOpts) -> Seq<char> {
    if opts.pretty {
        seq!['\n']
    } else {
        Seq::empty()
    }
}

pub open spec fn close_tag(name: Seq<char>, depth: nat, opts: HtmlOpts) -> Seq<char> {
    ind(opts, depth) + seq!['<', '/'] + name + seq!['>'] + nl(opts)
}

/// The closing tags of every tag still open, innermost first.
pub open spec fn close_all(stack: Seq<Seq<char>>, opts: HtmlOpts) -> Seq<char>
    decreases stack.len(),
{
    if stack.len() == 0 {
        Seq::empty()
    } else {
        close_tag(stack.last(), (stack.len() - 1) as nat, opts) + close_all(stack.drop_last(), opts)
    }
}

pub open spec fn text_out(s: Seq<char>, depth: nat, opts: HtmlOpts) -> Seq<char> {
    ind(opts, depth) + (if opts.raw {
        s
    } else {
        spec_html_escape(s)
    }) + nl(opts)
}

/// One token, given the tags open before it: its text and the tags open
/// after it.
pub open spec fn render_step(t: TokenView, stack: Seq<Seq<char>>, opts: HtmlOpts) -> Result<
    (Seq<char>, Seq<Seq<char>>),
    HtmlError,
>
    decreases t, 0nat,
{
    match t {
        TokenView::Text(s) => Ok((text_out(s, stack.len(), opts), stack)),
        TokenView::Group(ts) => match render_list(ts, opts) {
            Ok(text) => Ok((text, stack)),
            Err(e) => Err(e),
        },
        TokenView::Tag { body, exprs } => if body.len() > 0 && body[0] == '/' {
            if stack.len() > 0 {
                let st = stack.drop_last();
                Ok((close_tag(trim(body.drop_first()), st.len(), opts), st))
            } else {
                Ok((Seq::empty(), stack))
            }
        } else {
            match spec_parse_tag(body) {
                Err(e) => Err(e),
                Ok(tag) => match resolve_attrs(tag.attrs, exprs) {
                    Err(e) => Err(e),
                    Ok(attrs) => {
                        let void = !opts.xml_mode && (void_elements().contains(tag.name)
                            || tag.self_closing);
                        let open = ind(opts, stack.len()) + seq!['<'] + tag.name + attrs_text(attrs);
                        if void {
                            Ok((open + seq![' ', '/', '>'] + nl(opts), stack))
                        } else {
                            Ok((open + seq!['>'] + nl(opts), stack.push(tag.name)))
                        }
                    },
                },
            }
        },
    }
}

/// A token run from an empty stack: its text and the tags left open.
pub open spec fn render_run(ts: Seq<TokenView>, opts: HtmlOpts) -> Result<
    (Seq<char>, Seq<Seq<char>>),
    HtmlError,
>
    decreases ts, 0nat,
{
    if ts.len() == 0 {
        Ok((Seq::empty(), Seq::empty()))
    } else {
        match render_run(ts.drop_last(), opts) {
            Err(e) => Err(e),
            Ok((text, stack)) => match render_step(ts.last(), stack, opts) {
                Err(e) => Err(e),
                Ok((t2, st2)) => Ok((text + t2, st2)),
            },
        }
    }
}

/// The HTML of a token group: its run, then the closing tags of what it
/// left open.
pub open spec fn render_list(ts: Seq<TokenView>, opts: HtmlOpts) -> Result<Seq<char>, HtmlError>
    decreases ts, 1nat,
{
    match render_run(ts, opts) {
        Err(e) => Err(e),
        Ok((text, stack)) => Ok(text + close_all(stack, opts)),
    }
}


/// Appends `n` levels of `w` spaces.
fn push_levels(out: &mut String, n: usize, w: usize)
    ensures
        final(out)@ == old(out)@ + spaces(n as nat * w as nat),
{
    let ghost start = out@;
    let mut i: usize = 0;
    while i < n
        invariant
            i <= n,
            out@ == start + spaces(i as nat * w as nat),
        decreases n - i,
    {
        let mut j: usize = 0;
        while j < w
            invariant
                j <= w,
                out@ == start + spaces(i as nat * w as nat + j as nat),
            decreases w - j,
        {
            push_char(out, ' ');
            j = j + 1;
            assert(spaces(i as nat * w as nat + j as nat) =~= spaces(
                i as nat * w as nat + (j - 1) as nat,
            ).push(' '));
        }
        assert((i + 1) as nat * w as nat == i as nat * w as nat + w as nat) by (nonlinear_arith);
        i = i + 1;
    }
}

fn push_ind(out: &mut String, opts: &HtmlOpts, n: usize)
    ensures
        final(out)@ == old(out)@ + ind(*opts, n as nat),
{
    if opts.pretty {
        push_levels(out, n, opts.indent_width);
    }
    assert(final(out)@ =~= old(out)@ + ind(*opts, n as nat));
}

fn push_nl(out: &mut String, opts: &HtmlOpts)
    ensures
        final(out)@ == old(out)@ + nl(*opts),
{
    if opts.pretty {
        push_char(out, '\n');
    }
    assert(final(out)@ =~= old(out)@ + nl(*opts));
}

fn push_close_tag(out: &mut String, name: &str, depth: usize, opts: &HtmlOpts)
    ensures
        final(out)@ == old(out)@ + close_tag(name@, depth as nat, *opts),
{
    let ghost start = out@;
    push_ind(out, opts, depth);
    push_char(out, '<');
    push_char(out, '/');
    push_str(out, name);
    push_char(out, '>');
    push_nl(out, opts);
    assert(final(out)@ =~= start + close_tag(name@, depth as nat, *opts));
}

/// Whether `name` is an HTML5 void element.
fn is_void_name(name: &String) -> (r: bool)
    ensures
        r == void_elements().contains(name@),
{
    let names = [
        "area", "base", "br", "col", "embed", "hr", "img", "input", "link", "meta", "param",
        "source", "track", "wbr",
    ];
    proof {
        reveal_strlit("area");
        reveal_strlit("base");
        reveal_strlit("br");
        reveal_strlit("col");
        reveal_strlit("embed");
        reveal_strlit("hr");
        reveal_strlit("img");
        reveal_strlit("input");
        reveal_strlit("link");
        reveal_strlit("meta");
        reveal_strlit("param");
        reveal_strlit("source");
        reveal_strlit("track");
        reveal_strlit("wbr");
    }
    let ghost vs = void_elements();
    assert(forall|k: int| 0 <= k < 14 ==> #[trigger] names@[k]@ == vs[k]);
    let mut i: usize = 0;
    while i < 14
        invariant
            i <= 14,
            vs == void_elements(),
            vs.len() == 14,
            forall|k: int| 0 <= k < 14 ==> #[trigger] names@[k]@ == vs[k],
            forall|k: int| 0 <= k < i ==> #[trigger] vs[k] != name@,
        decreases 14 - i,
    {
        let t = String::from_str(names[i]);
        if *name == t {
            assert(vs[i as int] == name@);
            return true;
        }
        i = i + 1;
    }
    false
}

pub open spec fn prefix_result(
    acc: Seq<(Seq<char>, Seq<char>)>,
    res: Result<Seq<(Seq<char>, Seq<char>)>, HtmlError>,
) -> Result<Seq<(Seq<char>, Seq<char>)>, HtmlError> {
    match res {
        Ok(r) => Ok(acc + r),
        Err(e) => Err(e),
    }
}

proof fn lemma_prefix_empty(res: Result<Seq<(Seq<char>, Seq<char>)>, HtmlError>)
    ensures
        prefix_result(Seq::empty(), res) == res,
{
    if let Ok(r) = res {
        assert(Seq::<(Seq<char>, Seq<char>)>::empty() + r =~= r);
    }
}

proof fn lemma_prefix_step(
    acc: Seq<(Seq<char>, Seq<char>)>,
    pair: (Seq<char>, Seq<char>),
    res: Result<Seq<(Seq<char>, Seq<char>)>, HtmlError>,
)
    ensures
        prefix_result(acc, match res {
            Ok(r) => Ok(seq![pair] + r),
            Err(e) => Err(e),
        }) == prefix_result(acc.push(pair), res),
{
    if let Ok(r) = res {
        assert(acc + (seq![pair] + r) =~= acc.push(pair) + r);
    }
}

pub open spec fn view_pairs(a: Seq<(String, String)>) -> Seq<(Seq<char>, Seq<char>)> {
    Seq::new(a.len(), |i: int| (a[i].0@, a[i].1@))
}

fn clone_string(s: &String) -> (r: String)
    ensures
        r@ == s@,
{
    s.clone()
}

/// Fills the `=(expr)` attribute values from `exprs`, in order.
fn resolve(attrs: &Vec<(String, AttrValue)>, exprs: &Vec<String>) -> (r: Result<
    Vec<(String, String)>,
    HtmlError,
>)
    ensures
        match r {
            Ok(v) => resolve_attrs(view_attrs(attrs@), view_strings(exprs@)) == Ok::<
                Seq<(Seq<char>, Seq<char>)>,
                HtmlError,
            >(view_pairs(v@)),
            Err(e) => resolve_attrs(view_attrs(attrs@), view_strings(exprs@)) == Err::<
                Seq<(Seq<char>, Seq<char>)>,
                HtmlError,
            >(e),
        },
{
    let ghost va = view_attrs(attrs@);
    let ghost ve = view_strings(exprs@);
    let mut acc: Vec<(String, String)> = Vec::new();
    let mut i: usize = 0;
    let mut k: usize = 0;
    proof {
        assert(va.skip(0) == va);
        assert(ve.skip(0) == ve);
        assert(view_pairs(acc@) =~= Seq::<(Seq<char>, Seq<char>)>::empty());
        lemma_prefix_empty(resolve_attrs(va, ve));
    }
    while i < attrs.len()
        invariant
            i <= attrs@.len(),
            k <= exprs@.len(),
            va == view_attrs(attrs@),
            ve == view_strings(exprs@),
            resolve_attrs(va, ve) == prefix_result(
                view_pairs(acc@),
                resolve_attrs(va.skip(i as int), ve.skip(k as int)),
            ),
        decreases attrs@.len() - i,
    {
        let ghost rest = va.skip(i as int);
        assert(rest[0] == va[i as int]);
        assert(rest.drop_first() == va.skip(i + 1));
        let ghost old_acc = acc@;
        match &attrs[i].1 {
            AttrValue::Text(v) => {
                acc.push((clone_string(&attrs[i].0), clone_string(v)));
                proof {
                    assert(view_pairs(acc@) =~= view_pairs(old_acc).push((attrs@[i as int].0@, v@)));
                    lemma_prefix_step(
                        view_pairs(old_acc),
                        (attrs@[i as int].0@, v@),
                        resolve_attrs(va.skip(i + 1), ve.skip(k as int)),
                    );
                }
            },
            AttrValue::Expr(_) => {
                if k >= exprs.len() {
                    assert(ve.skip(k as int).len() == 0);
                    return Err(HtmlError::UnresolvedExpression);
                }
                assert(ve.skip(k as int)[0] == ve[k as int]);
                assert(ve.skip(k as int).drop_first() == ve.skip(k + 1));
                acc.push((clone_string(&attrs[i].0), clone_string(&exprs[k])));
                proof {
                    assert(view_pairs(acc@) =~= view_pairs(old_acc).push(
                        (attrs@[i as int].0@, exprs@[k as int]@),
                    ));
                    lemma_prefix_step(
                        view_pairs(old_acc),
                        (attrs@[i as int].0@, exprs@[k as int]@),
                        resolve_attrs(va.skip(i + 1), ve.skip(k + 1)),
                    );
                }
                k = k + 1;
            },
        }
        i = i + 1;
    }
    assert(va.skip(i as int) =~= Seq::<(Seq<char>, AttrView)>::empty());
    assert(view_pairs(acc@) + Seq::<(Seq<char>, Seq<char>)>::empty() =~= view_pairs(acc@));
    Ok(acc)
}

fn push_attrs(out: &mut String, attrs: &Vec<(String, String)>)
    ensures
        final(out)@ == old(out)@ + attrs_text(view_pairs(attrs@)),
{
    let ghost start = out@;
    let ghost vp = view_pairs(attrs@);
    let mut i: usize = 0;
    while i < attrs.len()
        invariant
            i <= attrs@.len(),
            vp == view_pairs(attrs@),
            out@ == start + attrs_text(vp.take(i as int)),
        decreases attrs@.len() - i,
    {
        let ghost before = out@;
        push_char(out, ' ');
        push_str(out, attrs[i].0.as_str());
        if attrs[i].1.as_str().unicode_len() > 0 {
            push_char(out, '=');
            push_char(out, '"');
            escape_attr(attrs[i].1.as_str(), out);
            push_char(out, '"');
        }
        proof {
            assert(vp.take(i + 1).drop_last() == vp.take(i as int));
            assert(vp.take(i + 1).last() == vp[i as int]);
            assert(out@ =~= before + attr_text(vp[i as int]));
        }
        i = i + 1;
    }
    assert(vp.take(i as int) == vp);
}

proof fn lemma_run_err(ts: Seq<TokenView>, k: int, opts: HtmlOpts)
    requires
        0 <= k <= ts.len(),
        render_run(ts.take(k), opts) is Err,
    ensures
        render_run(ts, opts) == render_run(ts.take(k), opts),
    decreases ts.len(),
{
    if k == ts.len() {
        assert(ts.take(k) == ts);
    } else {
        assert(ts.drop_last().take(k) == ts.take(k));
        lemma_run_err(ts.drop_last(), k, opts);
    }
}

/// Renders one token, given the tags open before it (`stack`).
fn render_one(tok: &HtmlToken, out: &mut String, stack: &mut Vec<String>, opts: &HtmlOpts) -> (r:
    Result<(), HtmlError>)
    ensures
        match render_step(tok@, view_strings(old(stack)@), *opts) {
            Ok((t2, st2)) => r is Ok && final(out)@ == old(out)@ + t2 && view_strings(final(stack)@)
                == st2,
            Err(e) => r == Err::<(), HtmlError>(e),
        },
    decreases tok,
{
    let ghost st = view_strings(stack@);
    let ghost before = out@;
    match tok {
        HtmlToken::Text(s) => {
            push_ind(out, opts, stack.len());
            if opts.raw {
                push_str(out, s.as_str());
            } else {
                html_escape(s.as_str(), out);
            }
            push_nl(out, opts);
            assert(out@ =~= before + text_out(s@, st.len(), *opts));
            Ok(())
        },
        HtmlToken::Group(ts) => render_tokens(ts, out, opts),
        HtmlToken::Tag { body, exprs } => {
            let bs = body.as_str();
            if bs.unicode_len() > 0 && bs.get_char(0) == '/' {
                if stack.len() > 0 {
                    let cs = to_chars(bs);
                    let (a, b) = trim_bounds(&cs, 1, cs.len());
                    assert(cs@.subrange(1, cs@.len() as int) == bs@.drop_first());
                    let close_name = slice_string(&cs, a, b);
                    let _ = stack.pop();
                    assert(view_strings(stack@) =~= st.drop_last());
                    push_close_tag(out, close_name.as_str(), stack.len(), opts);
                }
                assert(out@ =~= before + render_step(tok@, st, *opts)->Ok_0.0);
                Ok(())
            } else {
                let tag = match parse_tag_body(bs) {
                    Ok(t) => t,
                    Err(e) => {
                        return Err(e);
                    },
                };
                let attrs = match resolve(&tag.attrs, exprs) {
                    Ok(a) => a,
                    Err(e) => {
                        return Err(e);
                    },
                };
                let void = !opts.xml_mode && (is_void_name(&tag.name) || tag.self_closing);
                push_ind(out, opts, stack.len());
                push_char(out, '<');
                push_str(out, tag.name.as_str());
                push_attrs(out, &attrs);
                if void {
                    push_char(out, ' ');
                    push_char(out, '/');
                    push_char(out, '>');
                    push_nl(out, opts);
                } else {
                    push_char(out, '>');
                    push_nl(out, opts);
                    let ghost nm = tag.name@;
                    stack.push(tag.name);
                    assert(view_strings(stack@) =~= st.push(nm));
                }
                assert(out@ =~= before + render_step(tok@, st, *opts)->Ok_0.0);
                Ok(())
            }
        },
    }
}

/// Renders a token group into `out`: tags open and close by the tag
/// structure, text is escaped unless `/raw`, and whatever is still open at
/// the end is closed.
pub fn render_tokens(elems: &Vec<HtmlToken>, out: &mut String, opts: &HtmlOpts) -> (r: Result<
    (),
    HtmlError,
>)
    ensures
        match render_list(view_tokens(elems@), *opts) {
            Ok(t) => r is Ok && final(out)@ == old(out)@ + t,
            Err(e) => r == Err::<(), HtmlError>(e),
        },
    decreases elems,
{
    let ghost vt = view_tokens(elems@);
    proof {
        lemma_view_tokens(elems@);
    }
    let ghost start = out@;
    let mut stack: Vec<String> = Vec::new();
    let mut body = String::new();
    let mut i: usize = 0;
    proof {
        assert(vt.take(0) =~= Seq::<TokenView>::empty());
        assert(view_strings(stack@) =~= Seq::<Seq<char>>::empty());
    }
    while i < elems.len()
        invariant
            i <= elems@.len(),
            vt == view_tokens(elems@),
            vt.len() == elems@.len(),
            forall|j: int| 0 <= j < elems@.len() ==> #[trigger] vt[j] == view_token(elems@[j]),
            render_run(vt.take(i as int), *opts) == Ok::<(Seq<char>, Seq<Seq<char>>), HtmlError>(
                (body@, view_strings(stack@)),
            ),
        decreases elems@.len() - i,
    {
        proof {
            assert(vt.take(i + 1).drop_last() == vt.take(i as int));
            assert(vt.take(i + 1).last() == vt[i as int]);
        }
        let r = render_one(&elems[i], &mut body, &mut stack, opts);
        if r.is_err() {
            proof {
                lemma_run_err(vt, i + 1, *opts);
            }
            return r;
        }
        i = i + 1;
    }
    assert(vt.take(i as int) == vt);
    while stack.len() > 0
        invariant
            render_list(vt, *opts) == Ok::<Seq<char>, HtmlError>(
                body@ + close_all(view_strings(stack@), *opts),
            ),
        decreases stack@.len(),
    {
        let ghost st = view_strings(stack@);
        let ghost before = body@;
        let name = stack.pop().unwrap();
        assert(view_strings(stack@) =~= st.drop_last());
        assert(name@ == st.last());
        push_close_tag(&mut body, name.as_str(), stack.len(), opts);
        assert(body@ + close_all(view_strings(stack@), *opts) =~= before + close_all(st, *opts));
    }
    assert(close_all(view_strings(stack@), *opts) =~= Seq::<char>::empty());
    assert(body@ + close_all(view_strings(stack@), *opts) =~= body@);
    push_str(out, body.as_str());
    Ok(())
}


/// The options that the refinements `/xml`, `/raw` and `/indent` select.
pub open spec fn opts_of(refs: RefineArgs) -> HtmlOpts {
    HtmlOpts {
        xml_mode: refs.spec_has(seq!['x', 'm', 'l']),
        raw: refs.spec_has(seq!['r', 'a', 'w']),
        pretty: refs.spec_has(seq!['i', 'n', 'd', 'e', 'n', 't']),
        indent_width: 2,
    }
}

/// `html block` / `html/xml` / `html/raw` / `html/indent`: the HTML of the
/// block, given as its token stream (`args[0]`).
pub fn build_html_native(args: &[Vec<HtmlToken>], refs: &RefineArgs) -> (r: Result<Value, HtmlError>)
    ensures
        args@.len() == 0 ==> r == Err::<Value, HtmlError>(HtmlError::Arity),
        args@.len() > 0 ==> match render_list(view_tokens(args@[0]@), opts_of(*refs)) {
            Ok(t) => r matches Ok(Value::Str(s)) && s@ == t,
            Err(e) => r == Err::<Value, HtmlError>(e),
        },
{
    if args.len() == 0 {
        return Err(HtmlError::Arity);
    }
    proof {
        reveal_strlit("xml");
        reveal_strlit("raw");
        reveal_strlit("indent");
    }
    let opts = HtmlOpts {
        xml_mode: refs.has("xml"),
        raw: refs.has("raw"),
        pretty: refs.has("indent"),
        indent_width: 2,
    };
    assert("xml"@ =~= seq!['x', 'm', 'l']);
    assert("raw"@ =~= seq!['r', 'a', 'w']);
    assert("indent"@ =~= seq!['i', 'n', 'd', 'e', 'n', 't']);
    assert(opts == opts_of(*refs));
    let mut out = String::new();
    match render_tokens(&args[0], &mut out, &opts) {
        Ok(()) => Ok(Value::Str(out)),
        Err(e) => Err(e),
    }
}

} // verus!
