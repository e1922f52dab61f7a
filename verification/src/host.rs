//! The decisions of the natives that touch the host: file metadata and
//! directories (`exists?`, `size?`, `modified?`, `dir?`, `make-dir`,
//! `delete`, `rename`, `change-dir`), `save`, environment variables,
//! `wait`, `call`/`shell`, the source of `load`, and the `file?`/`url?`
//! predicates. What each call asks for is decided here; the host performs
//! it.
use vstd::prelude::*;

use crate::html::{char_is_whitespace, first_non_ws, first_ws, to_chars, unicode_ws};
use crate::printer::{form_spec, form_value, mold_spec, mold_value};
use crate::text::push_char;
use crate::value::{kind, kind_name, kind_of, FloatText, Kind, Value, ValueView};

verus! {

broadcast use vstd::string::group_string_axioms;

/// Why a host native refused its arguments.
#[derive(Clone, Copy, Debug, PartialEq, Eq)]
pub enum HostError {
    /// The native was called with `got` arguments instead of `expected`.
    Arity { expected: usize, got: usize },
    /// A `file!` was expected.
    NotFile(Kind),
    /// An environment variable's name must be a string or a word.
    NotEnvName(Kind),
    /// `wait` takes an integer or a float.
    NotSeconds(Kind),
    /// `call`/`shell` take a command string.
    NotCommand(Kind),
    /// Running commands is not allowed (`true` for `shell`, `false` for
    /// `call`).
    ShellDisabled(bool),
    /// `call` of a command with no program.
    EmptyCommand,
    /// A value with no source form or form here.
    Unformable(Kind),
    /// `load` takes a string or a file.
    NotLoadable(Kind),
}

/// The message of a host native's error.
pub open spec fn host_error_message(e: HostError) -> Seq<char> {
    match e {
        HostError::Arity { .. } => "wrong number of arguments"@,
        HostError::NotFile(k) => "expected file!, found "@ + kind_name(k),
        HostError::NotEnvName(k) => "expected string! or word!, found "@ + kind_name(k),
        HostError::NotSeconds(k) => "expected integer! or float!, found "@ + kind_name(k),
        HostError::NotCommand(k) => "expected string!, found "@ + kind_name(k),
        HostError::ShellDisabled(true) => "shell: shell disabled (use --allow-shell to enable)"@,
        HostError::ShellDisabled(false) => "call: shell disabled (use --allow-shell to enable)"@,
        HostError::EmptyCommand => "call: empty command"@,
        HostError::Unformable(k) => kind_name(k) + " values have no text form here"@,
        HostError::NotLoadable(k) => "expected string! or file!, found "@ + kind_name(k),
    }
}

impl HostError {
    /// The error's message.
    pub fn message(&self) -> (r: String)
        ensures
            r@ == host_error_message(*self),
    {
        let mut out = String::new();
        match self {
            HostError::Arity { .. } => out.append("wrong number of arguments"),
            HostError::NotFile(k) => {
                out.append("expected file!, found ");
                out.append(k.name());
            },
            HostError::NotEnvName(k) => {
                out.append("expected string! or word!, found ");
                out.append(k.name());
            },
            HostError::NotSeconds(k) => {
                out.append("expected integer! or float!, found ");
                out.append(k.name());
            },
            HostError::NotCommand(k) => {
                out.append("expected string!, found ");
                out.append(k.name());
            },
            HostError::ShellDisabled(true) => {
                out.append("shell: shell disabled (use --allow-shell to enable)");
            },
            HostError::ShellDisabled(false) => {
                out.append("call: shell disabled (use --allow-shell to enable)");
            },
            HostError::EmptyCommand => out.append("call: empty command"),
            HostError::Unformable(k) => {
                out.append(k.name());
                out.append(" values have no text form here");
            },
            HostError::NotLoadable(k) => {
                out.append("expected string! or file!, found ");
                out.append(k.name());
            },
        }
        out
    }
}

/// The path of a `file!` argument.
pub open spec fn file_path(v: ValueView) -> Result<Seq<char>, HostError> {
    match v {
        ValueView::File(p) => Ok(p),
        _ => Err(HostError::NotFile(kind_of(v))),
    }
}

fn expect_file(v: &Value) -> (r: Result<String, HostError>)
    ensures
        match r {
            Ok(p) => file_path(v@) == Ok::<Seq<char>, HostError>(p@),
            Err(e) => file_path(v@) == Err::<Seq<char>, HostError>(e),
        },
{
    match v {
        Value::File(p) => Ok(p.clone()),
        other => Err(HostError::NotFile(kind(other))),
    }
}

/// What a one-file native (`exists?`, `size?`, `modified?`, `dir?`,
/// `make-dir`, `delete`, `change-dir`) works on: the path of its one
/// `file!` argument.
pub open spec fn file_request_spec(args: Seq<Value>) -> Result<Seq<char>, HostError> {
    if args.len() != 1 {
        Err(HostError::Arity { expected: 1, got: args.len() as usize })
    } else {
        file_path(args[0]@)
    }
}

/// The path a one-file native works on (relative paths are the host's to
/// resolve against its working directory).
pub fn file_request(args: &[Value]) -> (r: Result<String, HostError>)
    ensures
        match r {
            Ok(p) => file_request_spec(args@) == Ok::<Seq<char>, HostError>(p@),
            Err(e) => file_request_spec(args@) == Err::<Seq<char>, HostError>(e),
        },
{
    if args.len() != 1 {
        return Err(HostError::Arity { expected: 1, got: args.len() });
    }
    expect_file(&args[0])
}

/// What `rename from to` renames.
pub open spec fn rename_spec(args: Seq<Value>) -> Result<(Seq<char>, Seq<char>), HostError> {
    if args.len() != 2 {
        Err(HostError::Arity { expected: 2, got: args.len() as usize })
    } else {
        match (file_path(args[0]@), file_path(args[1]@)) {
            (Err(e), _) => Err(e),
            (_, Err(e)) => Err(e),
            (Ok(from), Ok(to)) => Ok((from, to)),
        }
    }
}

/// `rename from to`: the two paths.
pub fn rename_request(args: &[Value]) -> (r: Result<(String, String), HostError>)
    ensures
        match r {
            Ok((from, to)) => rename_spec(args@) == Ok::<(Seq<char>, Seq<char>), HostError>((from@, to@)),
            Err(e) => rename_spec(args@) == Err::<(Seq<char>, Seq<char>), HostError>(e),
        },
{
    if args.len() != 2 {
        return Err(HostError::Arity { expected: 2, got: args.len() });
    }
    let from = match expect_file(&args[0]) {
        Ok(p) => p,
        Err(e) => {
            return Err(e);
        },
    };
    let to = match expect_file(&args[1]) {
        Ok(p) => p,
        Err(e) => {
            return Err(e);
        },
    };
    Ok((from, to))
}

/// What `save file value` writes: the file's path and the value's source
/// form.
pub open spec fn save_spec(args: Seq<Value>) -> Result<(Seq<char>, Seq<char>), HostError> {
    if args.len() != 2 {
        Err(HostError::Arity { expected: 2, got: args.len() as usize })
    } else {
        match file_path(args[0]@) {
            Err(e) => Err(e),
            Ok(p) => match mold_spec(args[1]@) {
                Some(t) => Ok((p, t)),
                None => Err(HostError::Unformable(kind_of(args[1]@))),
            },
        }
    }
}

/// `save file value`: the path and the text to write.
pub fn save_request(args: &[Value]) -> (r: Result<(String, String), HostError>)
    ensures
        match r {
            Ok((p, t)) => save_spec(args@) == Ok::<(Seq<char>, Seq<char>), HostError>((p@, t@)),
            Err(e) => save_spec(args@) == Err::<(Seq<char>, Seq<char>), HostError>(e),
        },
{
    if args.len() != 2 {
        return Err(HostError::Arity { expected: 2, got: args.len() });
    }
    let p = match expect_file(&args[0]) {
        Ok(p) => p,
        Err(e) => {
            return Err(e);
        },
    };
    match mold_value(&args[1]) {
        Some(t) => Ok((p, t)),
        None => Err(HostError::Unformable(kind(&args[1]))),
    }
}

// ---------------------------------------------------------------------------
// Environment variables
// ---------------------------------------------------------------------------

/// An environment variable's name: a string, or a word's name.
pub open spec fn env_name_spec(v: ValueView) -> Result<Seq<char>, HostError> {
    match v {
        ValueView::Str(s) => Ok(s),
        ValueView::Word(s) => Ok(s),
        ValueView::SetWord(s) => Ok(s),
        ValueView::GetWord(s) => Ok(s),
        ValueView::LitWord(s) => Ok(s),
        _ => Err(HostError::NotEnvName(kind_of(v))),
    }
}

/// An environment variable's name.
pub fn env_name(v: &Value) -> (r: Result<String, HostError>)
    ensures
        match r {
            Ok(n) => env_name_spec(v@) == Ok::<Seq<char>, HostError>(n@),
            Err(e) => env_name_spec(v@) == Err::<Seq<char>, HostError>(e),
        },
{
    match v {
        Value::Str(s) | Value::Word(s) | Value::SetWord(s) | Value::GetWord(s) | Value::LitWord(s) => Ok(
            s.clone(),
        ),
        other => Err(HostError::NotEnvName(kind(other))),
    }
}

/// What `get-env name` looks up.
pub open spec fn get_env_spec(args: Seq<Value>) -> Result<Seq<char>, HostError> {
    if args.len() != 1 {
        Err(HostError::Arity { expected: 1, got: args.len() as usize })
    } else {
        env_name_spec(args[0]@)
    }
}

/// `get-env name`: the variable's name (the host answers its value, or
/// `none` when it is unset).
pub fn get_env_request(args: &[Value]) -> (r: Result<String, HostError>)
    ensures
        match r {
            Ok(n) => get_env_spec(args@) == Ok::<Seq<char>, HostError>(n@),
            Err(e) => get_env_spec(args@) == Err::<Seq<char>, HostError>(e),
        },
{
    if args.len() != 1 {
        return Err(HostError::Arity { expected: 1, got: args.len() });
    }
    env_name(&args[0])
}

/// What `set-env name value` sets: a string as it is, `none` as the empty
/// string, anything else by its form.
pub open spec fn set_env_spec(args: Seq<Value>) -> Result<(Seq<char>, Seq<char>), HostError> {
    if args.len() != 2 {
        Err(HostError::Arity { expected: 2, got: args.len() as usize })
    } else {
        match env_name_spec(args[0]@) {
            Err(e) => Err(e),
            Ok(n) => match args[1]@ {
                ValueView::Str(s) => Ok((n, s)),
                ValueView::NoneVal => Ok((n, Seq::empty())),
                v => match form_spec(v) {
                    Some(t) => Ok((n, t)),
                    None => Err(HostError::Unformable(kind_of(v))),
                },
            },
        }
    }
}

/// `set-env name value`: the name and the text to set.
pub fn set_env_request(args: &[Value]) -> (r: Result<(String, String), HostError>)
    ensures
        match r {
            Ok((n, t)) => set_env_spec(args@) == Ok::<(Seq<char>, Seq<char>), HostError>((n@, t@)),
            Err(e) => set_env_spec(args@) == Err::<(Seq<char>, Seq<char>), HostError>(e),
        },
{
    if args.len() != 2 {
        return Err(HostError::Arity { expected: 2, got: args.len() });
    }
    let n = match env_name(&args[0]) {
        Ok(n) => n,
        Err(e) => {
            return Err(e);
        },
    };
    match &args[1] {
        Value::Str(s) => Ok((n, s.clone())),
        Value::NoneVal => Ok((n, String::new())),
        v => match form_value(v) {
            Some(t) => Ok((n, t)),
            None => Err(HostError::Unformable(kind(v))),
        },
    }
}

/// `env` takes no arguments (the host answers its variables).
pub fn env_request(args: &[Value]) -> (r: Result<(), HostError>)
    ensures
        r == (if args@.len() == 0 {
            Ok::<(), HostError>(())
        } else {
            Err::<(), HostError>(HostError::Arity { expected: 0, got: args@.len() as usize })
        }),
{
    if args.len() != 0 {
        return Err(HostError::Arity { expected: 0, got: args.len() });
    }
    Ok(())
}

// ---------------------------------------------------------------------------
// load
// ---------------------------------------------------------------------------

/// What `load` reads its source text from.
#[derive(Debug, PartialEq)]
pub enum LoadFrom {
    /// The string itself.
    Text(String),
    /// The file at this path (relative to the host's working directory).
    File(String),
}

/// `LoadFrom` by its view.
pub enum LoadFromView {
    Text(Seq<char>),
    File(Seq<char>),
}

pub open spec fn load_from_view(l: LoadFrom) -> LoadFromView {
    match l {
        LoadFrom::Text(s) => LoadFromView::Text(s@),
        LoadFrom::File(p) => LoadFromView::File(p@),
    }
}

/// What `load source` reads: a string's own text, or a file's contents.
pub open spec fn load_spec(args: Seq<Value>) -> Result<LoadFromView, HostError> {
    if args.len() != 1 {
        Err(HostError::Arity { expected: 1, got: args.len() as usize })
    } else {
        match args[0]@ {
            ValueView::Str(s) => Ok(LoadFromView::Text(s)),
            ValueView::File(p) => Ok(LoadFromView::File(p)),
            v => Err(HostError::NotLoadable(kind_of(v))),
        }
    }
}

/// Where `load` takes its source text from (the host reads a file and
/// parses the text into a block).
pub fn load_request(args: &[Value]) -> (r: Result<LoadFrom, HostError>)
    ensures
        match r {
            Ok(l) => load_spec(args@) == Ok::<LoadFromView, HostError>(load_from_view(l)),
            Err(e) => load_spec(args@) == Err::<LoadFromView, HostError>(e),
        },
{
    if args.len() != 1 {
        return Err(HostError::Arity { expected: 1, got: args.len() });
    }
    match &args[0] {
        Value::Str(s) => Ok(LoadFrom::Text(s.clone())),
        Value::File(p) => Ok(LoadFrom::File(p.clone())),
        other => Err(HostError::NotLoadable(kind(other))),
    }
}

// ---------------------------------------------------------------------------
// wait
// ---------------------------------------------------------------------------

/// How long `wait` sleeps.
#[derive(Debug, PartialEq)]
pub enum WaitFor {
    /// No sleep: zero or fewer seconds.
    Nothing,
    /// Whole seconds.
    Seconds(i64),
    /// A float number of seconds (the host sleeps when it is positive).
    FloatSeconds(FloatText),
}

/// `wait seconds`: whole seconds, or a float the host reads.
pub fn wait_request(args: &[Value]) -> (r: Result<WaitFor, HostError>)
    ensures
        args@.len() != 1 ==> r == Err::<WaitFor, HostError>(HostError::Arity { expected: 1, got: args@.len() as usize }),
        args@.len() == 1 ==> match args@[0]@ {
            ValueView::Integer(n) => if n > 0 {
                r == Ok::<WaitFor, HostError>(WaitFor::Seconds(n))
            } else {
                r == Ok::<WaitFor, HostError>(WaitFor::Nothing)
            },
            ValueView::Float(f) => r matches Ok(WaitFor::FloatSeconds(t)) && t.text@ == f.text && t.finite
                == f.finite,
            v => r == Err::<WaitFor, HostError>(HostError::NotSeconds(kind_of(v))),
        },
{
    if args.len() != 1 {
        return Err(HostError::Arity { expected: 1, got: args.len() });
    }
    match &args[0] {
        Value::Integer(n) => if *n > 0 {
            Ok(WaitFor::Seconds(*n))
        } else {
            Ok(WaitFor::Nothing)
        },
        Value::Float(f) => Ok(WaitFor::FloatSeconds(FloatText { text: f.text.clone(), finite: f.finite })),
        other => Err(HostError::NotSeconds(kind(other))),
    }
}

// ---------------------------------------------------------------------------
// call and shell
// ---------------------------------------------------------------------------

/// The words of `s` from position `i` on: its maximal runs of characters
/// that are not Unicode whitespace (`str::split_whitespace`).
pub open spec fn words_from(s: Seq<char>, i: nat) -> Seq<Seq<char>>
    decreases s.len() - i,
{
    let a = first_non_ws(s, i);
    proof {
        lemma_scans(s, i);
    }
    if a >= s.len() {
        Seq::empty()
    } else {
        let b = first_ws(s, a);
        proof {
            lemma_scans(s, a);
        }
        if b <= a {
            Seq::empty()
        } else {
            seq![s.subrange(a as int, b as int)] + words_from(s, b)
        }
    }
}

pub proof fn lemma_scans(s: Seq<char>, i: nat)
    ensures
        first_non_ws(s, i) >= i,
        i <= s.len() ==> first_non_ws(s, i) <= s.len(),
        first_ws(s, i) >= i,
        i <= s.len() ==> first_ws(s, i) <= s.len(),
        i < s.len() && !unicode_ws(s[i as int]) ==> first_ws(s, i) > i,
    decreases s.len() - i,
{
    if i < s.len() {
        lemma_scans(s, i + 1);
    }
}

/// What `call command` (or `shell command`) runs: the program and its
/// arguments, the command string split at whitespace.
pub open spec fn command_spec(args: Seq<Value>, allow_shell: bool, shell: bool) -> Result<
    Seq<Seq<char>>,
    HostError,
> {
    if shell && !allow_shell {
        Err(HostError::ShellDisabled(true))
    } else if args.len() != 1 {
        Err(HostError::Arity { expected: 1, got: args.len() as usize })
    } else if !allow_shell {
        Err(HostError::ShellDisabled(false))
    } else {
        match args[0]@ {
            ValueView::Str(s) => if words_from(s, 0).len() == 0 {
                Err(HostError::EmptyCommand)
            } else {
                Ok(words_from(s, 0))
            },
            v => Err(HostError::NotCommand(kind_of(v))),
        }
    }
}

fn split_words(s: &String) -> (r: Vec<String>)
    ensures
        r@.len() == words_from(s@, 0).len(),
        forall|i: int| 0 <= i < r@.len() ==> #[trigger] r@[i]@ == words_from(s@, 0)[i],
{
    let cs = to_chars(s.as_str());
    let n = cs.len();
    let mut out: Vec<String> = Vec::new();
    let mut i: usize = 0;
    while i < n
        invariant
            i <= n,
            n == cs@.len(),
            cs@ == s@,
            words_from(s@, 0) == words_from(s@, 0).take(out@.len() as int) + words_from(s@, i as nat),
            out@.len() <= words_from(s@, 0).len(),
            forall|k: int| 0 <= k < out@.len() ==> #[trigger] out@[k]@ == words_from(s@, 0)[k],
        ensures
            i == n,
            words_from(s@, 0) == words_from(s@, 0).take(out@.len() as int) + words_from(s@, i as nat),
            forall|k: int| 0 <= k < out@.len() ==> #[trigger] out@[k]@ == words_from(s@, 0)[k],
        decreases n - i,
    {
        proof {
            lemma_scans(s@, i as nat);
        }
        let mut a = i;
        while a < n && char_is_whitespace(cs[a])
            invariant
                i <= a <= n,
                n == cs@.len(),
                cs@ == s@,
                first_non_ws(s@, i as nat) == first_non_ws(s@, a as nat),
            decreases n - a,
        {
            a = a + 1;
        }
        if a >= n {
            proof {
                assert(words_from(s@, i as nat) =~= Seq::<Seq<char>>::empty());
                assert(words_from(s@, 0).take(out@.len() as int) + Seq::<Seq<char>>::empty() =~= words_from(
                    s@,
                    0,
                ).take(out@.len() as int));
            }
            i = n;
            break;
        }
        proof {
            lemma_scans(s@, a as nat);
        }
        let mut b = a;
        while b < n && !char_is_whitespace(cs[b])
            invariant
                a <= b <= n,
                n == cs@.len(),
                cs@ == s@,
                first_ws(s@, a as nat) == first_ws(s@, b as nat),
            decreases n - b,
        {
            b = b + 1;
        }
        let mut w = String::new();
        let mut k = a;
        while k < b
            invariant
                a <= k <= b,
                b <= n,
                n == cs@.len(),
                w@ == cs@.subrange(a as int, k as int),
            decreases b - k,
        {
            push_char(&mut w, cs[k]);
            k = k + 1;
            assert(w@ =~= cs@.subrange(a as int, k as int));
        }
        let ghost before = out@;
        proof {
            let ws = words_from(s@, i as nat);
            assert(ws == seq![s@.subrange(a as int, b as int)] + words_from(s@, b as nat));
            let m = before.len() as int;
            let all = words_from(s@, 0);
            assert(all == all.take(m) + ws);
            assert(all[m] == ws[0]);
            assert(all.take(m + 1) =~= all.take(m).push(ws[0]));
            assert(all =~= all.take(m + 1) + words_from(s@, b as nat));
        }
        out.push(w);
        i = b;
    }
    proof {
        let all = words_from(s@, 0);
        let m = out@.len() as int;
        lemma_scans(s@, i as nat);
        assert(words_from(s@, i as nat) =~= Seq::<Seq<char>>::empty());
        assert(all.take(m) + words_from(s@, i as nat) =~= all.take(m));
        assert(all.take(m) =~= all);
    }
    out
}

/// `call command` / `shell command`: the program and its arguments. `shell`
/// refuses before anything else when commands are not allowed; `call`
/// checks its argument count first.
pub fn command_request(args: &[Value], allow_shell: bool, shell: bool) -> (r: Result<Vec<String>, HostError>)
    ensures
        match command_spec(args@, allow_shell, shell) {
            Ok(ws) => r matches Ok(v) && v@.len() == ws.len() && forall|i: int|
                0 <= i < ws.len() ==> #[trigger] v@[i]@ == ws[i],
            Err(e) => r == Err::<Vec<String>, HostError>(e),
        },
{
    if shell && !allow_shell {
        return Err(HostError::ShellDisabled(true));
    }
    if args.len() != 1 {
        return Err(HostError::Arity { expected: 1, got: args.len() });
    }
    if !allow_shell {
        return Err(HostError::ShellDisabled(false));
    }
    match &args[0] {
        Value::Str(s) => {
            let ws = split_words(s);
            if ws.len() == 0 {
                Err(HostError::EmptyCommand)
            } else {
                Ok(ws)
            }
        },
        other => Err(HostError::NotCommand(kind(other))),
    }
}

// ---------------------------------------------------------------------------
// Predicates
// ---------------------------------------------------------------------------

/// `file? value`.
pub fn file_q(args: &[Value]) -> (r: Result<Value, HostError>)
    ensures
        args@.len() != 1 ==> r == Err::<Value, HostError>(HostError::Arity { expected: 1, got: args@.len() as usize }),
        args@.len() == 1 ==> (r matches Ok(v) && v@ == ValueView::Logic(args@[0]@ is File)),
{
    if args.len() != 1 {
        return Err(HostError::Arity { expected: 1, got: args.len() });
    }
    Ok(Value::Logic(matches!(args[0], Value::File(_))))
}

/// `url? value`.
pub fn url_q(args: &[Value]) -> (r: Result<Value, HostError>)
    ensures
        args@.len() != 1 ==> r == Err::<Value, HostError>(HostError::Arity { expected: 1, got: args@.len() as usize }),
        args@.len() == 1 ==> (r matches Ok(v) && v@ == ValueView::Logic(args@[0]@ is Url)),
{
    if args.len() != 1 {
        return Err(HostError::Arity { expected: 1, got: args.len() });
    }
    Ok(Value::Logic(matches!(args[0], Value::Url(_))))
}

} // verus!
