//! The decisions of `read` and `write`: what a call asks to read or write,
//! and the value a read answers. Touching the file system, the network and
//! ports is the host's part: it performs a `ReadRequest` or `WriteRequest`
//! and hands the contents back.
use vstd::prelude::*;

use crate::codec::{as_bytes, value_bytes};
use crate::native::RefineArgs;
use crate::printer::{form_spec, form_value};
use crate::text::push_char;
use crate::value::{kind, kind_of, lemma_view_items, view_items, Kind, Opaque, Value, ValueView};
use vstd::utf8::encode_utf8;

verus! {

broadcast use vstd::string::group_string_axioms;

/// Why `read` or `write` refused its arguments.
#[derive(Clone, Copy, Debug, PartialEq, Eq)]
pub enum IoError {
    /// The native was called with `got` arguments instead of `wanted`.
    Arity { wanted: usize, got: usize },
    /// `read/binary/lines`: the two refinements exclude each other.
    BinaryAndLines,
    /// `read` of a URL while network access is not allowed.
    NetworkDisabled,
    /// `read` of something other than a file, URL or port.
    NotReadable(Kind),
    /// `write` to something other than a file or port.
    NotFile(Kind),
    /// `write/binary` of something other than a binary or string.
    NotBytes(Kind),
    /// `write/lines` of something other than a block.
    NotBlock(Kind),
    /// Content with no human-readable form.
    Unformable,
}

/// Where `read` reads from.
#[derive(Clone, Debug, PartialEq)]
pub enum Source {
    File(String),
    Url(String),
    Port,
}

/// What `read` asks for: the source, and whether it wants raw bytes or the
/// lines of the text.
#[derive(Clone, Debug, PartialEq)]
pub struct ReadRequest {
    pub source: Source,
    pub binary: bool,
    pub lines: bool,
}

/// Where `write` writes to.
#[derive(Clone, Debug, PartialEq)]
pub enum Target {
    File(String),
    Port,
}

/// What `write` asks for: the target, the bytes, and whether they append to
/// a file rather than replace it.
#[derive(Clone, Debug, PartialEq)]
pub struct WriteRequest {
    pub target: Target,
    pub bytes: Vec<u8>,
    pub append: bool,
}

pub open spec fn binary_word() -> Seq<char> {
    seq!['b', 'i', 'n', 'a', 'r', 'y']
}

pub open spec fn lines_word() -> Seq<char> {
    seq!['l', 'i', 'n', 'e', 's']
}

pub open spec fn append_word() -> Seq<char> {
    seq!['a', 'p', 'p', 'e', 'n', 'd']
}

// ---------------------------------------------------------------------------
// read
// ---------------------------------------------------------------------------

/// What `read source` with these refinements asks for; a URL only when
/// network access is allowed.
pub open spec fn read_spec(args: Seq<Value>, binary: bool, lines: bool, allow_network: bool) -> Result<
    (int, Seq<char>, bool, bool),
    IoError,
> {
    if args.len() != 1 {
        Err(IoError::Arity { wanted: 1, got: args.len() as usize })
    } else if binary && lines {
        Err(IoError::BinaryAndLines)
    } else {
        match args[0]@ {
            ValueView::File(p) => Ok((0, p, binary, lines)),
            ValueView::Url(u) => if allow_network {
                Ok((1, u, binary, lines))
            } else {
                Err(IoError::NetworkDisabled)
            },
            ValueView::Other(Opaque::Port) => Ok((2, Seq::empty(), binary, lines)),
            _ => Err(IoError::NotReadable(kind_of(args[0]@))),
        }
    }
}

/// A request by its parts: the source kind (0 a file, 1 a URL, 2 a port),
/// its path or URL, and the two flags.
pub open spec fn request_parts(r: ReadRequest) -> (int, Seq<char>, bool, bool) {
    match r.source {
        Source::File(p) => (0, p@, r.binary, r.lines),
        Source::Url(u) => (1, u@, r.binary, r.lines),
        Source::Port => (2, Seq::empty(), r.binary, r.lines),
    }
}

/// `read source` (`/binary`, `/lines`): what to read. A URL is refused
/// unless `allow_network` (the run's `--allow-network`) is set, before any
/// connection is made.
pub fn read_request(args: &[Value], refs: &RefineArgs, allow_network: bool) -> (r: Result<ReadRequest, IoError>)
    ensures
        match read_spec(args@, refs.spec_has(binary_word()), refs.spec_has(lines_word()), allow_network) {
            Ok(parts) => r matches Ok(req) && request_parts(req) == parts,
            Err(e) => r == Err::<ReadRequest, IoError>(e),
        },
{
    proof {
        reveal_strlit("binary");
        reveal_strlit("lines");
    }
    assert("binary"@ =~= binary_word());
    assert("lines"@ =~= lines_word());
    if args.len() != 1 {
        return Err(IoError::Arity { wanted: 1, got: args.len() });
    }
    let binary = refs.has("binary");
    let lines = refs.has("lines");
    if binary && lines {
        return Err(IoError::BinaryAndLines);
    }
    match &args[0] {
        Value::File(p) => Ok(ReadRequest { source: Source::File(p.clone()), binary, lines }),
        Value::Url(u) => if allow_network {
            Ok(ReadRequest { source: Source::Url(u.clone()), binary, lines })
        } else {
            Err(IoError::NetworkDisabled)
        },
        Value::Other(Opaque::Port) => Ok(ReadRequest { source: Source::Port, binary, lines }),
        other => Err(IoError::NotReadable(kind(other))),
    }
}

/// The pieces of `s` between line feeds (one more than there are line
/// feeds).
pub open spec fn pieces(s: Seq<char>) -> Seq<Seq<char>>
    decreases s.len(),
{
    if s.len() == 0 {
        seq![Seq::empty()]
    } else {
        let p = pieces(s.drop_last());
        if s.last() == '\n' {
            p.push(Seq::empty())
        } else {
            p.update(p.len() - 1, p.last().push(s.last()))
        }
    }
}

/// A line without the carriage return of a `\r\n` ending.
pub open spec fn strip_cr(t: Seq<char>) -> Seq<char> {
    if t.len() > 0 && t.last() == '\r' {
        t.drop_last()
    } else {
        t
    }
}

/// The lines of `s` (`str::lines`): split at `\n` and `\r\n`, the final
/// line ending optional.
pub open spec fn lines_of(s: Seq<char>) -> Seq<Seq<char>> {
    let p = pieces(s);
    let n = p.len() - 1;
    let head = Seq::new(n as nat, |i: int| strip_cr(p[i]));
    if p[n].len() == 0 {
        head
    } else {
        head.push(p[n])
    }
}

proof fn lemma_pieces_len(s: Seq<char>)
    ensures
        pieces(s).len() >= 1,
    decreases s.len(),
{
    if s.len() > 0 {
        lemma_pieces_len(s.drop_last());
    }
}

/// The value `read` answers for the text it read: the text itself, or with
/// `/lines` a block of its lines.
pub open spec fn text_value(contents: Seq<char>, lines: bool) -> ValueView {
    if lines {
        ValueView::Block(Seq::new(lines_of(contents).len(), |i: int| ValueView::Str(lines_of(contents)[i])))
    } else {
        ValueView::Str(contents)
    }
}

/// The value `read` answers for text (`contents`), split into lines when
/// `lines` is set.
pub fn read_text_value(contents: String, lines: bool) -> (r: Value)
    ensures
        r@ == text_value(contents@, lines),
{
    if !lines {
        return Value::Str(contents);
    }
    let ghost s = contents@;
    let mut done: Vec<Value> = Vec::new();
    let ghost mut raw: Seq<Seq<char>> = Seq::empty();
    let mut cur = String::new();
    let mut pending_cr = false;
    let t = contents.as_str();
    for c in it: t.chars()
        invariant
            it.seq() == s,
            pieces(s.take(it.index() as int)) == raw.push(
                cur@ + if pending_cr {
                    seq!['\r']
                } else {
                    Seq::<char>::empty()
                },
            ),
            done@.len() == raw.len(),
            forall|i: int| 0 <= i < raw.len() ==> #[trigger] done@[i]@ == ValueView::Str(strip_cr(raw[i])),
            !pending_cr ==> (cur@.len() == 0 || cur@.last() != '\r'),
    {
        let ghost i = it.index() as int;
        let ghost before = cur@ + if pending_cr {
            seq!['\r']
        } else {
            Seq::<char>::empty()
        };
        proof {
            assert(s.take(i + 1).drop_last() == s.take(i));
            assert(s.take(i + 1).last() == c);
            lemma_pieces_len(s.take(i));
        }
        if c == '\n' {
            proof {
                if pending_cr {
                    assert(strip_cr(before) =~= cur@);
                } else {
                    assert(before =~= cur@);
                    assert(strip_cr(before) == cur@);
                }
                raw = raw.push(before);
            }
            let line = cur;
            done.push(Value::Str(line));
            cur = String::new();
            pending_cr = false;
            assert(pieces(s.take(i + 1)) =~= raw.push(Seq::<char>::empty()));
        } else {
            if pending_cr {
                push_char(&mut cur, '\r');
            }
            if c == '\r' {
                pending_cr = true;
            } else {
                pending_cr = false;
                push_char(&mut cur, c);
            }
            proof {
                let p = pieces(s.take(i));
                assert(p == raw.push(before));
                assert(pieces(s.take(i + 1)) == p.update(p.len() - 1, p.last().push(c)));
                assert(before.push(c) =~= cur@ + if pending_cr {
                    seq!['\r']
                } else {
                    Seq::<char>::empty()
                });
                assert(pieces(s.take(i + 1)) =~= raw.push(
                    cur@ + if pending_cr {
                        seq!['\r']
                    } else {
                        Seq::<char>::empty()
                    },
                ));
            }
        }
    }
    let ghost last = cur@ + if pending_cr {
        seq!['\r']
    } else {
        Seq::<char>::empty()
    };
    if pending_cr {
        push_char(&mut cur, '\r');
    }
    assert(s.take(s.len() as int) == s);
    let ghost p = pieces(s);
    proof {
        lemma_pieces_len(s);
        assert(cur@ =~= last);
        assert(p == raw.push(cur@));
    }
    let ghost final_cur = cur@;
    if cur.as_str().unicode_len() > 0 {
        done.push(Value::Str(cur));
    }
    proof {
        lemma_view_items(done@);
        let l = lines_of(s);
        assert(p[raw.len() as int] == final_cur);
        assert(l.len() == done@.len());
        assert forall|i: int| 0 <= i < done@.len() implies view_items(done@)[i] == ValueView::Str(
            l[i],
        ) by {
            if i < raw.len() {
                assert(p[i] == raw[i]);
                assert(done@[i]@ == ValueView::Str(strip_cr(raw[i])));
            } else {
                assert(done@[i]@ == ValueView::Str(final_cur));
            }
        }
        assert(view_items(done@) =~= Seq::new(l.len(), |i: int| ValueView::Str(l[i])));
    }
    Value::Block(done)
}

// ---------------------------------------------------------------------------
// write
// ---------------------------------------------------------------------------

/// The text `write` writes for a value: a string's own text, else its
/// form.
pub open spec fn write_text(v: ValueView) -> Option<Seq<char>> {
    form_spec(v)
}

/// The forms of `items` joined by line feeds.
pub open spec fn joined_lines(items: Seq<ValueView>) -> Option<Seq<char>>
    decreases items.len(),
{
    if items.len() == 0 {
        Some(Seq::empty())
    } else {
        match (joined_lines(items.drop_last()), write_text(items.last())) {
            (Some(prev), Some(t)) => Some(
                if items.len() == 1 {
                    t
                } else {
                    prev + seq!['\n'] + t
                },
            ),
            _ => None,
        }
    }
}

/// The bytes `write` (`/binary`, `/lines`) writes of `content`.
pub open spec fn write_bytes(content: ValueView, binary: bool, lines: bool) -> Result<Seq<u8>, IoError> {
    if binary {
        match value_bytes(content) {
            Some(b) => Ok(b),
            None => Err(IoError::NotBytes(kind_of(content))),
        }
    } else {
        let text = if lines {
            match content {
                ValueView::Block(items) => Ok(joined_lines(items)),
                ValueView::Paren(items) => Ok(joined_lines(items)),
                _ => Err(IoError::NotBlock(kind_of(content))),
            }
        } else {
            Ok(write_text(content))
        };
        match text {
            Err(e) => Err(e),
            Ok(None) => Err(IoError::Unformable),
            Ok(Some(t)) => Ok(encode_utf8(t)),
        }
    }
}

/// What `write target content` with these refinements asks for: the target
/// kind (0 a file, 1 a port), the file's path, the bytes, and whether they
/// append.
pub open spec fn write_spec(args: Seq<Value>, binary: bool, lines: bool, append: bool) -> Result<
    (int, Seq<char>, Seq<u8>, bool),
    IoError,
> {
    if args.len() != 2 {
        Err(IoError::Arity { wanted: 2, got: args.len() as usize })
    } else {
        match args[0]@ {
            ValueView::Other(Opaque::Port) => match write_bytes(args[1]@, binary, lines) {
                Ok(b) => Ok((1, Seq::empty(), b, false)),
                Err(e) => Err(e),
            },
            ValueView::File(p) => match write_bytes(args[1]@, binary, lines) {
                Ok(b) => Ok((0, p, b, append)),
                Err(e) => Err(e),
            },
            _ => Err(IoError::NotFile(kind_of(args[0]@))),
        }
    }
}

pub open spec fn write_parts(w: WriteRequest) -> (int, Seq<char>, Seq<u8>, bool) {
    match w.target {
        Target::File(p) => (0, p@, w.bytes@, w.append),
        Target::Port => (1, Seq::empty(), w.bytes@, w.append),
    }
}

fn text_bytes(t: String) -> (r: Vec<u8>)
    ensures
        r@ == encode_utf8(t@),
{
    vstd::slice::slice_to_vec(t.as_str().as_bytes())
}

fn push_lines(out: &mut String, items: &Vec<Value>) -> (ok: bool)
    ensures
        ok == joined_lines(view_items(items@)) is Some,
        ok ==> final(out)@ == old(out)@ + joined_lines(view_items(items@))->Some_0,
{
    let ghost vs = view_items(items@);
    proof {
        lemma_view_items(items@);
    }
    let ghost start = out@;
    let mut i: usize = 0;
    while i < items.len()
        invariant
            i <= items@.len(),
            vs == view_items(items@),
            vs.len() == items@.len(),
            forall|j: int| 0 <= j < items@.len() ==> #[trigger] vs[j] == items@[j]@,
            joined_lines(vs.take(i as int)) is Some,
            out@ == start + joined_lines(vs.take(i as int))->Some_0,
        decreases items.len() - i,
    {
        proof {
            assert(vs.take(i + 1).drop_last() == vs.take(i as int));
            assert(vs.take(i + 1).last() == vs[i as int]);
        }
        match form_value(&items[i]) {
            None => {
                proof {
                    lemma_joined_lines_none(vs, i + 1);
                }
                return false;
            },
            Some(t) => {
                if i > 0 {
                    push_char(out, '\n');
                }
                out.append(t.as_str());
            },
        }
        i = i + 1;
        assert(out@ =~= start + joined_lines(vs.take(i as int))->Some_0);
    }
    assert(vs.take(i as int) == vs);
    true
}

proof fn lemma_joined_lines_none(items: Seq<ValueView>, k: int)
    requires
        0 <= k <= items.len(),
        joined_lines(items.take(k)) is None,
    ensures
        joined_lines(items) is None,
    decreases items.len() - k,
{
    if k < items.len() {
        assert(items.take(k + 1).drop_last() == items.take(k));
        lemma_joined_lines_none(items, k + 1);
    } else {
        assert(items.take(k) == items);
    }
}

fn content_bytes(content: &Value, binary: bool, lines: bool) -> (r: Result<Vec<u8>, IoError>)
    ensures
        match write_bytes(content@, binary, lines) {
            Ok(b) => r matches Ok(x) && x@ == b,
            Err(e) => r == Err::<Vec<u8>, IoError>(e),
        },
{
    if binary {
        return match as_bytes(content) {
            Some(b) => Ok(b),
            None => Err(IoError::NotBytes(kind(content))),
        };
    }
    if lines {
        let items = match content {
            Value::Block(items) => items,
            Value::Paren(items) => items,
            other => return Err(IoError::NotBlock(kind(other))),
        };
        let mut out = String::new();
        if push_lines(&mut out, items) {
            Ok(text_bytes(out))
        } else {
            Err(IoError::Unformable)
        }
    } else {
        match form_value(content) {
            Some(t) => Ok(text_bytes(t)),
            None => Err(IoError::Unformable),
        }
    }
}

/// `write target content` (`/binary`, `/lines`, `/append`): what to write
/// where.
pub fn write_request(args: &[Value], refs: &RefineArgs) -> (r: Result<WriteRequest, IoError>)
    ensures
        match write_spec(
            args@,
            refs.spec_has(binary_word()),
            refs.spec_has(lines_word()),
            refs.spec_has(append_word()),
        ) {
            Ok(parts) => r matches Ok(w) && write_parts(w) == parts,
            Err(e) => r == Err::<WriteRequest, IoError>(e),
        },
{
    proof {
        reveal_strlit("binary");
        reveal_strlit("lines");
        reveal_strlit("append");
    }
    assert("binary"@ =~= binary_word());
    assert("lines"@ =~= lines_word());
    assert("append"@ =~= append_word());
    if args.len() != 2 {
        return Err(IoError::Arity { wanted: 2, got: args.len() });
    }
    let binary = refs.has("binary");
    let lines = refs.has("lines");
    match &args[0] {
        Value::Other(Opaque::Port) => {
            let bytes = content_bytes(&args[1], binary, lines)?;
            Ok(WriteRequest { target: Target::Port, bytes, append: false })
        },
        Value::File(p) => {
            let bytes = content_bytes(&args[1], binary, lines)?;
            let append = refs.has("append");
            Ok(WriteRequest { target: Target::File(p.clone()), bytes, append })
        },
        other => Err(IoError::NotFile(kind(other))),
    }
}

} // verus!
