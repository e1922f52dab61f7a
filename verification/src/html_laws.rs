//! What the HTML dialect promises of its text: escaped text holds no `<`,
//! `>` or `"` and unescapes back to what was escaped, and the tags left
//! open at the end are closed innermost first.
use vstd::prelude::*;

use crate::html::{
    close_all, close_tag, html_escape_char, render_list, render_run, render_step, resolve_attrs,
    spec_html_escape, spec_parse_tag, text_out, void_elements, HtmlError, HtmlOpts, TokenView,
    attrs_text, ind, nl,
};

verus! {

/// `&lt;` `&gt;` `&quot;` `&amp;` replaced by `<` `>` `"` `&`, in one pass
/// from the left.
pub open spec fn html_unescape(t: Seq<char>) -> Seq<char>
    decreases t.len(),
{
    if t.len() == 0 {
        Seq::empty()
    } else if t.len() >= 4 && t.subrange(0, 4) == seq!['&', 'l', 't', ';'] {
        seq!['<'] + html_unescape(t.subrange(4, t.len() as int))
    } else if t.len() >= 4 && t.subrange(0, 4) == seq!['&', 'g', 't', ';'] {
        seq!['>'] + html_unescape(t.subrange(4, t.len() as int))
    } else if t.len() >= 6 && t.subrange(0, 6) == seq!['&', 'q', 'u', 'o', 't', ';'] {
        seq!['"'] + html_unescape(t.subrange(6, t.len() as int))
    } else if t.len() >= 5 && t.subrange(0, 5) == seq!['&', 'a', 'm', 'p', ';'] {
        seq!['&'] + html_unescape(t.subrange(5, t.len() as int))
    } else {
        seq![t[0]] + html_unescape(t.drop_first())
    }
}

/// Escaping, read from the front: the first character's escape, then the
/// rest escaped.
proof fn lemma_escape_front(s: Seq<char>)
    requires
        s.len() > 0,
    ensures
        spec_html_escape(s) == html_escape_char(s[0]) + spec_html_escape(s.drop_first()),
    decreases s.len(),
{
    if s.len() == 1 {
        assert(s.drop_first() =~= Seq::<char>::empty());
        assert(s.drop_last() =~= Seq::<char>::empty());
        assert(spec_html_escape(s.drop_last()) =~= Seq::<char>::empty());
        assert(html_escape_char(s[0]) + spec_html_escape(s.drop_first()) =~= html_escape_char(s[0]));
    } else {
        lemma_escape_front(s.drop_last());
        assert(s.drop_last().drop_first() =~= s.drop_first().drop_last());
        assert(s.drop_first().last() == s.last());
        assert(s.drop_last()[0] == s[0]);
        assert(spec_html_escape(s.drop_first()) == spec_html_escape(s.drop_first().drop_last())
            + html_escape_char(s.drop_first().last()));
        assert(spec_html_escape(s) =~= html_escape_char(s[0]) + spec_html_escape(s.drop_first()));
    }
}

/// Unescaping one escaped character followed by anything.
proof fn lemma_unescape_char(c: char, rest: Seq<char>)
    ensures
        html_unescape(html_escape_char(c) + rest) == seq![c] + html_unescape(rest),
{
    let t = html_escape_char(c) + rest;
    let n = html_escape_char(c).len();
    assert(t.subrange(n as int, t.len() as int) =~= rest);
    if c == '&' {
        assert(t.subrange(0, 4) != seq!['&', 'l', 't', ';']) by {
            assert(t.subrange(0, 4)[1] == 'a');
        }
        assert(t.subrange(0, 4) != seq!['&', 'g', 't', ';']) by {
            assert(t.subrange(0, 4)[1] == 'a');
        }
        if t.len() >= 6 {
            assert(t.subrange(0, 6) != seq!['&', 'q', 'u', 'o', 't', ';']) by {
                assert(t.subrange(0, 6)[1] == 'a');
            }
        }
        assert(t.subrange(0, 5) =~= seq!['&', 'a', 'm', 'p', ';']);
    } else if c == '<' {
        assert(t.subrange(0, 4) =~= seq!['&', 'l', 't', ';']);
    } else if c == '>' {
        assert(t.subrange(0, 4) =~= seq!['&', 'g', 't', ';']);
        assert(t.subrange(0, 4) != seq!['&', 'l', 't', ';']) by {
            assert(t.subrange(0, 4)[1] == 'g');
        }
    } else if c == '"' {
        assert(t.subrange(0, 4) != seq!['&', 'l', 't', ';']) by {
            assert(t.subrange(0, 4)[1] == 'q');
        }
        assert(t.subrange(0, 4) != seq!['&', 'g', 't', ';']) by {
            assert(t.subrange(0, 4)[1] == 'q');
        }
        assert(t.subrange(0, 6) =~= seq!['&', 'q', 'u', 'o', 't', ';']);
    } else {
        assert(t[0] == c);
        if t.len() >= 4 {
            assert(t.subrange(0, 4)[0] == c);
        }
        if t.len() >= 5 {
            assert(t.subrange(0, 5)[0] == c);
        }
        if t.len() >= 6 {
            assert(t.subrange(0, 6)[0] == c);
        }
        assert(t.drop_first() =~= rest);
    }
}

/// `html_escape` can be undone: unescaping the escaped text gives back the
/// text, and the escaped text holds no `<`, `>` or `"`.
pub proof fn law_html_escape_undone(s: Seq<char>)
    ensures
        html_unescape(spec_html_escape(s)) == s,
        forall|i: int|
            0 <= i < spec_html_escape(s).len() ==> #[trigger] spec_html_escape(s)[i] != '<'
                && spec_html_escape(s)[i] != '>' && spec_html_escape(s)[i] != '"',
    decreases s.len(),
{
    if s.len() > 0 {
        law_html_escape_undone(s.drop_last());
        lemma_escape_front(s);
        law_html_escape_undone(s.drop_first());
        lemma_unescape_char(s[0], spec_html_escape(s.drop_first()));
        assert(seq![s[0]] + s.drop_first() =~= s);
        let e = spec_html_escape(s);
        let p = spec_html_escape(s.drop_last());
        let q = html_escape_char(s.last());
        assert forall|i: int| 0 <= i < e.len() implies #[trigger] e[i] != '<' && e[i] != '>' && e[i]
            != '"' by {
            if i < p.len() {
                assert(e[i] == p[i]);
            } else {
                assert(e[i] == q[i - p.len()]);
            }
        }
    } else {
        assert(spec_html_escape(s) =~= Seq::<char>::empty());
        assert(s =~= Seq::<char>::empty());
    }
}

/// The closing tags of `stack[lo..hi]`, from `stack[hi - 1]` down to
/// `stack[lo]`, each at its own depth.
pub open spec fn closers(stack: Seq<Seq<char>>, lo: int, hi: int, opts: HtmlOpts) -> Seq<char>
    decreases hi - lo,
{
    if hi <= lo {
        Seq::empty()
    } else {
        close_tag(stack[hi - 1], (hi - 1) as nat, opts) + closers(stack, lo, hi - 1, opts)
    }
}

proof fn lemma_closers_split(stack: Seq<Seq<char>>, lo: int, j: int, hi: int, opts: HtmlOpts)
    requires
        lo <= j <= hi,
    ensures
        closers(stack, lo, hi, opts) == closers(stack, j, hi, opts) + closers(stack, lo, j, opts),
    decreases hi - j,
{
    if hi == j {
        assert(closers(stack, j, hi, opts) + closers(stack, lo, j, opts) =~= closers(stack, lo, j, opts));
    } else {
        lemma_closers_split(stack, lo, j, hi - 1, opts);
        assert(closers(stack, lo, hi, opts) =~= closers(stack, j, hi, opts) + closers(stack, lo, j, opts));
    }
}

proof fn lemma_close_all_closers(stack: Seq<Seq<char>>, opts: HtmlOpts)
    ensures
        close_all(stack, opts) == closers(stack, 0, stack.len() as int, opts),
    decreases stack.len(),
{
    if stack.len() > 0 {
        lemma_close_all_closers(stack.drop_last(), opts);
        lemma_closers_same(stack.drop_last(), stack, 0, stack.len() - 1, opts);
    }
}

proof fn lemma_closers_same(a: Seq<Seq<char>>, b: Seq<Seq<char>>, lo: int, hi: int, opts: HtmlOpts)
    requires
        0 <= lo,
        hi <= a.len(),
        hi <= b.len(),
        forall|i: int| 0 <= i < hi ==> a[i] == b[i],
    ensures
        closers(a, lo, hi, opts) == closers(b, lo, hi, opts),
    decreases hi - lo,
{
    if hi > lo {
        lemma_closers_same(a, b, lo, hi - 1, opts);
    }
}

/// The tags left open are closed innermost first: for any split of the
/// open tags at `j`, every tag opened at or after `j` is closed before any
/// tag opened before `j`.
pub proof fn law_unclosed_close_innermost_first(stack: Seq<Seq<char>>, j: int, opts: HtmlOpts)
    requires
        0 <= j <= stack.len(),
    ensures
        close_all(stack, opts) == closers(stack, j, stack.len() as int, opts) + closers(stack, 0, j, opts),
{
    lemma_close_all_closers(stack, opts);
    lemma_closers_split(stack, 0, j, stack.len() as int, opts);
}


/// Every token is text, or an opening tag that parses and whose
/// expressions are all given: no closing tag, no nested group.
pub open spec fn opening_tags_only(ts: Seq<TokenView>) -> bool {
    forall|i: int|
        0 <= i < ts.len() ==> match #[trigger] ts[i] {
            TokenView::Text(_) => true,
            TokenView::Group(_) => false,
            TokenView::Tag { body, exprs } => !(body.len() > 0 && body[0] == '/') && match spec_parse_tag(
                body,
            ) {
                Ok(tag) => resolve_attrs(tag.attrs, exprs) is Ok,
                Err(_) => false,
            },
        }
}

/// The names of the tags that `ts` opens and that stay open (all but the
/// void and self-closing ones), in the order they are opened.
pub open spec fn opened_tags(ts: Seq<TokenView>, opts: HtmlOpts) -> Seq<Seq<char>>
    decreases ts.len(),
{
    if ts.len() == 0 {
        Seq::empty()
    } else {
        let st = opened_tags(ts.drop_last(), opts);
        match ts.last() {
            TokenView::Tag { body, exprs } => match spec_parse_tag(body) {
                Ok(tag) => if !opts.xml_mode && (void_elements().contains(tag.name) || tag.self_closing) {
                    st
                } else {
                    st.push(tag.name)
                },
                Err(_) => st,
            },
            _ => st,
        }
    }
}

/// `</tk>...</t1>` for the open tags `t1..tk`: the last opened first.
pub open spec fn plain_closers(stack: Seq<Seq<char>>) -> Seq<char>
    decreases stack.len(),
{
    if stack.len() == 0 {
        Seq::empty()
    } else {
        seq!['<', '/'] + stack.last() + seq!['>'] + plain_closers(stack.drop_last())
    }
}

proof fn lemma_run_opens(ts: Seq<TokenView>, opts: HtmlOpts)
    requires
        opening_tags_only(ts),
    ensures
        match render_run(ts, opts) {
            Ok((_, stack)) => stack == opened_tags(ts, opts),
            Err(_) => false,
        },
    decreases ts.len(),
{
    if ts.len() > 0 {
        let pre = ts.drop_last();
        assert(opening_tags_only(pre)) by {
            assert forall|i: int| 0 <= i < pre.len() implies match #[trigger] pre[i] {
                TokenView::Text(_) => true,
                TokenView::Group(_) => false,
                TokenView::Tag { body, exprs } => !(body.len() > 0 && body[0] == '/') && match spec_parse_tag(
                    body,
                ) {
                    Ok(tag) => resolve_attrs(tag.attrs, exprs) is Ok,
                    Err(_) => false,
                },
            } by {
                assert(pre[i] == ts[i]);
            }
        }
        lemma_run_opens(pre, opts);
        let last = ts[ts.len() - 1];
        assert(last == ts.last());
        let (text0, st0) = render_run(pre, opts)->Ok_0;
        assert(st0 == opened_tags(pre, opts));
        match last {
            TokenView::Tag { body, exprs } => {
                assert(!(body.len() > 0 && body[0] == '/'));
                match spec_parse_tag(body) {
                    Ok(tag) => {
                        assert(resolve_attrs(tag.attrs, exprs) is Ok);
                        let void = !opts.xml_mode && (void_elements().contains(tag.name)
                            || tag.self_closing);
                        let st1 = if void {
                            st0
                        } else {
                            st0.push(tag.name)
                        };
                        assert(render_step(last, st0, opts) is Ok);
                        assert(render_step(last, st0, opts)->Ok_0.1 == st1);
                        assert(opened_tags(ts, opts) == st1);
                    },
                    Err(_) => {
                        assert(false);
                    },
                }
            },
            TokenView::Group(_) => {
                assert(false);
            },
            TokenView::Text(t) => {
                assert(render_step(last, st0, opts) == Ok::<(Seq<char>, Seq<Seq<char>>), HtmlError>(
                    (text_out(t, st0.len(), opts), st0),
                ));
            },
        }
    }
}

proof fn lemma_close_all_plain(stack: Seq<Seq<char>>, opts: HtmlOpts)
    requires
        !opts.pretty,
    ensures
        close_all(stack, opts) == plain_closers(stack),
    decreases stack.len(),
{
    if stack.len() > 0 {
        lemma_close_all_plain(stack.drop_last(), opts);
        assert(close_tag(stack.last(), (stack.len() - 1) as nat, opts) =~= seq!['<', '/'] + stack.last()
            + seq!['>']);
    }
}

/// Tags left open are closed at the end, innermost first: for tokens that
/// only open tags and give text, the HTML comes out, and ends with
/// `</tk>...</t1>` for the tags `t1..tk` that stay open, in the order they
/// were opened (`[<div> <p> "text"]` gives `<div><p>text</p></div>`).
pub proof fn law_open_tags_closed_at_end(ts: Seq<TokenView>, opts: HtmlOpts)
    requires
        opening_tags_only(ts),
        !opts.pretty,
    ensures
        match render_list(ts, opts) {
            Ok(out) => {
                let c = plain_closers(opened_tags(ts, opts));
                c.len() <= out.len() && out.subrange(out.len() - c.len(), out.len() as int) == c
            },
            Err(_) => false,
        },
{
    lemma_run_opens(ts, opts);
    match render_run(ts, opts) {
        Ok((text, stack)) => {
            lemma_close_all_plain(stack, opts);
            let out = text + close_all(stack, opts);
            assert(out.subrange(text.len() as int, out.len() as int) =~= close_all(stack, opts));
        },
        Err(_) => {},
    }
}


/// The HTML5 void elements: `area`, `base`, `br`, `col`, `embed`, `hr`,
/// `img`, `input`, `link`, `meta`, `param`, `source`, `track`, `wbr`.
pub open spec fn html5_void_name(n: Seq<char>) -> bool {
    n == seq!['a', 'r', 'e', 'a']
        || n == seq!['b', 'a', 's', 'e']
        || n == seq!['b', 'r']
        || n == seq!['c', 'o', 'l']
        || n == seq!['e', 'm', 'b', 'e', 'd']
        || n == seq!['h', 'r']
        || n == seq!['i', 'm', 'g']
        || n == seq!['i', 'n', 'p', 'u', 't']
        || n == seq!['l', 'i', 'n', 'k']
        || n == seq!['m', 'e', 't', 'a']
        || n == seq!['p', 'a', 'r', 'a', 'm']
        || n == seq!['s', 'o', 'u', 'r', 'c', 'e']
        || n == seq!['t', 'r', 'a', 'c', 'k']
        || n == seq!['w', 'b', 'r']
}

proof fn lemma_void_listed(n: Seq<char>)
    requires
        html5_void_name(n),
    ensures
        void_elements().contains(n),
{
    assert(void_elements()[0] == seq!['a', 'r', 'e', 'a']);
    assert(void_elements()[1] == seq!['b', 'a', 's', 'e']);
    assert(void_elements()[2] == seq!['b', 'r']);
    assert(void_elements()[3] == seq!['c', 'o', 'l']);
    assert(void_elements()[4] == seq!['e', 'm', 'b', 'e', 'd']);
    assert(void_elements()[5] == seq!['h', 'r']);
    assert(void_elements()[6] == seq!['i', 'm', 'g']);
    assert(void_elements()[7] == seq!['i', 'n', 'p', 'u', 't']);
    assert(void_elements()[8] == seq!['l', 'i', 'n', 'k']);
    assert(void_elements()[9] == seq!['m', 'e', 't', 'a']);
    assert(void_elements()[10] == seq!['p', 'a', 'r', 'a', 'm']);
    assert(void_elements()[11] == seq!['s', 'o', 'u', 'r', 'c', 'e']);
    assert(void_elements()[12] == seq!['t', 'r', 'a', 'c', 'k']);
    assert(void_elements()[13] == seq!['w', 'b', 'r']);
}

/// Outside `/xml` mode an HTML5 void element renders as `<name attrs />`
/// and is not left open: the open tags after it are those before it, so it
/// never gets a closing tag.
pub proof fn law_void_elements_self_close(
    body: Seq<char>,
    exprs: Seq<Seq<char>>,
    stack: Seq<Seq<char>>,
    opts: HtmlOpts,
)
    requires
        !opts.xml_mode,
        !(body.len() > 0 && body[0] == '/'),
        spec_parse_tag(body) is Ok,
        html5_void_name(spec_parse_tag(body)->Ok_0.name),
        resolve_attrs(spec_parse_tag(body)->Ok_0.attrs, exprs) is Ok,
    ensures
        ({
            let tag = spec_parse_tag(body)->Ok_0;
            let attrs = resolve_attrs(tag.attrs, exprs)->Ok_0;
            render_step(TokenView::Tag { body, exprs }, stack, opts) == Ok::<
                (Seq<char>, Seq<Seq<char>>),
                HtmlError,
            >(
                (
                    ind(opts, stack.len()) + seq!['<'] + tag.name + attrs_text(attrs) + seq![' ', '/', '>']
                        + nl(opts),
                    stack,
                ),
            )
        }),
{
    lemma_void_listed(spec_parse_tag(body)->Ok_0.name);
}


proof fn lemma_listed_void(n: Seq<char>)
    requires
        void_elements().contains(n),
    ensures
        html5_void_name(n),
{
    let k = choose|k: int| 0 <= k < void_elements().len() && void_elements()[k] == n;
    assert(void_elements().len() == 14);
    assert(0 <= k < 14);
}

/// A tag that is no void element and does not close itself opens: outside
/// `/xml` mode it renders as `<name attrs>` and stays open, pushed on the
/// open tags, until a closing tag or the end closes it.
pub proof fn law_other_tags_stay_open(
    body: Seq<char>,
    exprs: Seq<Seq<char>>,
    stack: Seq<Seq<char>>,
    opts: HtmlOpts,
)
    requires
        !opts.xml_mode,
        !(body.len() > 0 && body[0] == '/'),
        spec_parse_tag(body) is Ok,
        !html5_void_name(spec_parse_tag(body)->Ok_0.name),
        !spec_parse_tag(body)->Ok_0.self_closing,
        resolve_attrs(spec_parse_tag(body)->Ok_0.attrs, exprs) is Ok,
    ensures
        ({
            let tag = spec_parse_tag(body)->Ok_0;
            let attrs = resolve_attrs(tag.attrs, exprs)->Ok_0;
            render_step(TokenView::Tag { body, exprs }, stack, opts) == Ok::<
                (Seq<char>, Seq<Seq<char>>),
                HtmlError,
            >(
                (
                    ind(opts, stack.len()) + seq!['<'] + tag.name + attrs_text(attrs) + seq!['>'] + nl(
                        opts,
                    ),
                    stack.push(tag.name),
                ),
            )
        }),
{
    let n = spec_parse_tag(body)->Ok_0.name;
    if void_elements().contains(n) {
        lemma_listed_void(n);
    }
}

} // verus!
