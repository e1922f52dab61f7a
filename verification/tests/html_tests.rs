use red_eval::html::{
    build_html_native, escape_attr, html_escape, parse_tag_body, HtmlError, HtmlToken,
};
use red_eval::native::RefineArgs;
use red_eval::printer::print_text;
use red_eval::value::Value;

fn tag(body: &str) -> HtmlToken {
    HtmlToken::Tag { body: body.to_string(), exprs: vec![] }
}

fn tag_with(body: &str, exprs: &[&str]) -> HtmlToken {
    HtmlToken::Tag { body: body.to_string(), exprs: exprs.iter().map(|e| e.to_string()).collect() }
}

fn text(t: &str) -> HtmlToken {
    HtmlToken::Text(t.to_string())
}

fn html_with(tokens: Vec<HtmlToken>, refinement: Option<&str>) -> Value {
    let refs = match refinement {
        Some(r) => RefineArgs { refs: vec![(r.to_string(), vec![])] },
        None => RefineArgs::empty(),
    };
    build_html_native(&[tokens], &refs).unwrap()
}

fn html(tokens: Vec<HtmlToken>) -> String {
    str_val(&html_with(tokens, None))
}

fn str_val(v: &Value) -> String {
    match v {
        Value::Str(s) => s.clone(),
        other => panic!("expected string!, got {other:?}"),
    }
}

#[test]
fn html_simple_tag() {
    assert_eq!(html(vec![tag("p"), text("Hello"), tag("/p")]), "<p>Hello</p>");
}

#[test]
fn html_attrs_in_tag() {
    assert_eq!(
        html(vec![tag("div class=\"main\""), text("text"), tag("/div")]),
        "<div class=\"main\">text</div>"
    );
}

#[test]
fn html_nested_tags() {
    let tokens = vec![tag("ul"), tag("li"), text("a"), tag("/li"), tag("li"), text("b"), tag("/li"), tag("/ul")];
    assert_eq!(html(tokens), "<ul><li>a</li><li>b</li></ul>");
}

#[test]
fn html_void_element() {
    assert_eq!(html(vec![tag("br")]), "<br />");
}

#[test]
fn html_void_with_attr() {
    assert_eq!(html(vec![tag("img src=\"x.png\"")]), "<img src=\"x.png\" />");
}

#[test]
fn html_self_closing_tag() {
    assert_eq!(html(vec![tag("br/")]), "<br />");
}

#[test]
fn html_text_escape() {
    assert_eq!(
        html(vec![tag("p"), text("<script>alert(1)</script>"), tag("/p")]),
        "<p>&lt;script&gt;alert(1)&lt;/script&gt;</p>"
    );
}

#[test]
fn html_paren_eval() {
    // name: "World"; the paren ("Hello " + name) forms to "Hello World".
    assert_eq!(html(vec![tag("p"), text("Hello World"), tag("/p")]), "<p>Hello World</p>");
}

#[test]
fn html_boolean_attr() {
    assert_eq!(
        html(vec![tag("script defer src=\"app.js\""), tag("/script")]),
        "<script defer src=\"app.js\"></script>"
    );
}

#[test]
fn html_auto_close() {
    assert_eq!(html(vec![tag("div"), tag("p"), text("text")]), "<div><p>text</p></div>");
}

#[test]
fn html_xml_mode_void() {
    let v = html_with(vec![tag("br"), tag("/br")], Some("xml"));
    assert_eq!(str_val(&v), "<br></br>");
}

#[test]
fn html_raw_mode() {
    let v = html_with(vec![tag("p"), text("<b>bold</b>"), tag("/p")], Some("raw"));
    assert_eq!(str_val(&v), "<p><b>bold</b></p>");
}

#[test]
fn html_multiple_top_level() {
    let tokens = vec![tag("h1"), text("Title"), tag("/h1"), tag("p"), text("Para"), tag("/p")];
    assert_eq!(html(tokens), "<h1>Title</h1><p>Para</p>");
}

#[test]
fn html_deeply_nested() {
    let tokens = vec![tag("div"), tag("div"), tag("div"), text("deep"), tag("/div"), tag("/div"), tag("/div")];
    assert_eq!(html(tokens), "<div><div><div>deep</div></div></div>");
}

#[test]
fn html_attr_paren_interpolation() {
    // url: "http://example.com"; the attribute =(url) forms to the URL.
    let tokens = vec![tag_with("a href=(url)", &["http://example.com"]), text("link"), tag("/a")];
    assert_eq!(html(tokens), "<a href=\"http://example.com\">link</a>");
}

#[test]
fn html_attr_paren_expr() {
    // =(rejoin ["user-" 42]) forms to "user-42".
    let tokens = vec![tag_with("div id=(rejoin [\"user-\" 42])", &["user-42"]), text("content"), tag("/div")];
    assert_eq!(html(tokens), "<div id=\"user-42\">content</div>");
}

#[test]
fn html_print_output() {
    let v = html_with(vec![tag("p"), text("Hello"), tag("/p")], None);
    assert_eq!(print_text(&v).unwrap(), "<p>Hello</p>\n");
}

#[test]
fn html_mixed_content() {
    let tokens = vec![tag("p"), text("Hello, "), tag("b"), text("World"), tag("/b"), text("!"), tag("/p")];
    assert_eq!(html(tokens), "<p>Hello, <b>World</b>!</p>");
}

#[test]
fn html_full_page() {
    let tokens = vec![
        tag("html"),
        tag("head"),
        tag("title"),
        text("My Page"),
        tag("/title"),
        tag("/head"),
        tag("body"),
        tag("h1"),
        text("Welcome"),
        tag("/h1"),
        tag("/body"),
        tag("/html"),
    ];
    assert_eq!(
        html(tokens),
        "<html><head><title>My Page</title></head><body><h1>Welcome</h1></body></html>"
    );
}

// --- further cases ---

#[test]
fn html_escape_all_specials() {
    let mut out = String::new();
    html_escape("a<b>&\"c\"'", &mut out);
    assert_eq!(out, "a&lt;b&gt;&amp;&quot;c&quot;'");
}

#[test]
fn html_escape_attr_quotes() {
    let mut out = String::new();
    escape_attr("say \"hi\" & <go>", &mut out);
    assert_eq!(out, "say &quot;hi&quot; &amp; <go>");
}

#[test]
fn html_empty_tag_name_errors() {
    let r = build_html_native(&[vec![tag("")]], &RefineArgs::empty());
    assert_eq!(r, Err(HtmlError::EmptyTagName));
}

#[test]
fn html_missing_expression_result_errors() {
    let r = build_html_native(&[vec![tag("a href=(url)")]], &RefineArgs::empty());
    assert_eq!(r, Err(HtmlError::UnresolvedExpression));
}

#[test]
fn html_stray_close_is_ignored() {
    assert_eq!(html(vec![tag("/p"), text("x")]), "x");
}

#[test]
fn html_without_block_errors() {
    assert_eq!(build_html_native(&[], &RefineArgs::empty()), Err(HtmlError::Arity));
}

#[test]
fn html_tag_body_parses_name() {
    let parsed = parse_tag_body("div class=\"main\"").unwrap();
    assert_eq!(parsed.name, "div");
}

fn unescape(t: &str) -> String {
    let mut out = String::new();
    let mut rest = t;
    while !rest.is_empty() {
        let mut hit = false;
        for (ent, c) in [("&lt;", '<'), ("&gt;", '>'), ("&quot;", '"'), ("&amp;", '&')] {
            if rest.starts_with(ent) {
                out.push(c);
                rest = &rest[ent.len()..];
                hit = true;
                break;
            }
        }
        if !hit {
            let c = rest.chars().next().unwrap();
            out.push(c);
            rest = &rest[c.len_utf8()..];
        }
    }
    out
}

#[test]
fn html_escape_is_undone_by_unescaping() {
    for s in ["a<b>&\"c\"'", "&amp;lt;", "", "plain", "&&<<>>\"\""] {
        let mut out = String::new();
        html_escape(s, &mut out);
        assert!(!out.contains('<') && !out.contains('>') && !out.contains('"'));
        assert_eq!(unescape(&out), s);
    }
}

#[test]
fn unclosed_tags_close_innermost_first() {
    let out = html(vec![tag("div"), tag("p"), tag("b"), text("x")]);
    assert!(out.ends_with("x</b></p></div>"), "got: {out}");
}

#[test]
fn void_tags_stay_out_of_the_closing_suffix() {
    let out = html(vec![tag("div"), tag("br"), tag("p"), text("text")]);
    assert_eq!(out, "<div><br /><p>text</p></div>");
}
