//! Path steps on data: `block/2`, `string/-1`, `object/field`, and the
//! writes `block/2: v`, `object/field: v`, `string/2: #"x"`. Resolving a
//! path's head word and evaluating a `(paren)` part are the evaluator's:
//! a step on a paren part hands it back to be evaluated first.
use vstd::prelude::*;

use crate::html::to_chars;
use crate::text::{char_from_u32, int_text, push_char, push_int};
use crate::value::{
    clone_value, kind, kind_name, kind_of, lemma_view_fields, lemma_view_items, view_fields, view_items, Kind,
    Value, ValueView,
};

verus! {

broadcast use vstd::string::group_string_axioms;

/// Why a path step or a path write failed.
#[derive(Debug, PartialEq)]
pub enum PathError {
    /// The object has no field of that name.
    NoField(String),
    /// A field was selected from a value that is not an object.
    CannotSelect(String, Kind),
    /// An integer part on a value that is not a block, paren or string.
    NotIndexable(Kind),
    /// A part that is neither a word, an integer nor a paren.
    BadPart(Kind),
    /// What a string poke writes must be a `char!`, an integer code point
    /// or a one-character string.
    NotPokeChar(Kind),
    /// An integer that is no Unicode scalar value.
    BadCodepoint(i64),
    /// An empty string poked as a character.
    EmptyPoke,
    /// A string of several characters poked as a character.
    MultiCharPoke,
    /// Index 0 in a write (indexes are 1-based).
    PokeZero,
    /// A write index outside the series.
    PokeRange(i64),
    /// A field was set on a value that is not an object.
    CannotSet(String, Kind),
    /// A string reached in the middle of a set-path cannot be written.
    StringPoke,
    /// An integer write on a value that is not a block or paren.
    NotPokeTarget(Kind),
    /// A set-path part that is neither a word, an integer nor a paren.
    BadSetPart(Kind),
    /// A set-path of fewer than two parts.
    ShortSetPath,
    /// A set-path whose head is not a word.
    SetPathHead(Kind),
}

/// `PathError` with its names as characters.
pub enum PathFault {
    NoField(Seq<char>),
    CannotSelect(Seq<char>, Kind),
    NotIndexable(Kind),
    BadPart(Kind),
    NotPokeChar(Kind),
    BadCodepoint(i64),
    EmptyPoke,
    MultiCharPoke,
    PokeZero,
    PokeRange(i64),
    CannotSet(Seq<char>, Kind),
    StringPoke,
    NotPokeTarget(Kind),
    BadSetPart(Kind),
    ShortSetPath,
    SetPathHead(Kind),
}

impl View for PathError {
    type V = PathFault;

    open spec fn view(&self) -> PathFault {
        match self {
            PathError::NoField(n) => PathFault::NoField(n@),
            PathError::CannotSelect(n, k) => PathFault::CannotSelect(n@, *k),
            PathError::NotIndexable(k) => PathFault::NotIndexable(*k),
            PathError::BadPart(k) => PathFault::BadPart(*k),
            PathError::NotPokeChar(k) => PathFault::NotPokeChar(*k),
            PathError::BadCodepoint(n) => PathFault::BadCodepoint(*n),
            PathError::EmptyPoke => PathFault::EmptyPoke,
            PathError::MultiCharPoke => PathFault::MultiCharPoke,
            PathError::PokeZero => PathFault::PokeZero,
            PathError::PokeRange(n) => PathFault::PokeRange(*n),
            PathError::CannotSet(n, k) => PathFault::CannotSet(n@, *k),
            PathError::StringPoke => PathFault::StringPoke,
            PathError::NotPokeTarget(k) => PathFault::NotPokeTarget(*k),
            PathError::BadSetPart(k) => PathFault::BadSetPart(*k),
            PathError::ShortSetPath => PathFault::ShortSetPath,
            PathError::SetPathHead(k) => PathFault::SetPathHead(*k),
        }
    }
}

/// The message of a path error.
pub open spec fn path_error_message(e: PathFault) -> Seq<char> {
    match e {
        PathFault::NoField(n) => "object has no field "@ + n,
        PathFault::CannotSelect(n, k) => "cannot select field "@ + n + " from "@ + kind_name(k),
        PathFault::NotIndexable(k) => "expected block!, paren!, or string! for integer path index, found "@ + kind_name(k),
        PathFault::BadPart(k) => "expected word!, integer!, or paren! in path, found "@ + kind_name(k),
        PathFault::NotPokeChar(k) => "expected char!, integer!, or single-char string!, found "@ + kind_name(k),
        PathFault::BadCodepoint(n) => "poke: integer "@ + int_text(n as int) + " is not a valid char codepoint"@,
        PathFault::EmptyPoke => "poke: empty string cannot be poked as a char"@,
        PathFault::MultiCharPoke => "poke: multi-char string is not a char"@,
        PathFault::PokeZero => "poke index 0 is invalid (1-based)"@,
        PathFault::PokeRange(n) => "poke index "@ + int_text(n as int) + " out of range"@,
        PathFault::CannotSet(n, k) => "cannot set field "@ + n + " on "@ + kind_name(k),
        PathFault::StringPoke => "string char poke must target a word head"@,
        PathFault::NotPokeTarget(k) => "expected block! or paren! for integer set-path index, found "@ + kind_name(k),
        PathFault::BadSetPart(k) => "expected word!, integer!, or paren! in set-path, found "@ + kind_name(k),
        PathFault::ShortSetPath => "set-path requires at least two parts"@,
        PathFault::SetPathHead(k) => "set-path head must be a word, found "@ + kind_name(k),
    }
}

impl PathError {
    /// The error's message.
    pub fn message(&self) -> (r: String)
        ensures
            r@ == path_error_message(self@),
    {
        let mut out = String::new();
        match self {
            PathError::NoField(n) => {
                out.append("object has no field ");
                out.append(n.as_str());
            },
            PathError::CannotSelect(n, k) => {
                out.append("cannot select field ");
                out.append(n.as_str());
                out.append(" from ");
                out.append(k.name());
            },
            PathError::NotIndexable(k) => {
                out.append("expected block!, paren!, or string! for integer path index, found ");
                out.append(k.name());
            },
            PathError::BadPart(k) => {
                out.append("expected word!, integer!, or paren! in path, found ");
                out.append(k.name());
            },
            PathError::NotPokeChar(k) => {
                out.append("expected char!, integer!, or single-char string!, found ");
                out.append(k.name());
            },
            PathError::BadCodepoint(n) => {
                out.append("poke: integer ");
                push_int(&mut out, *n);
                out.append(" is not a valid char codepoint");
            },
            PathError::EmptyPoke => out.append("poke: empty string cannot be poked as a char"),
            PathError::MultiCharPoke => out.append("poke: multi-char string is not a char"),
            PathError::PokeZero => out.append("poke index 0 is invalid (1-based)"),
            PathError::PokeRange(n) => {
                out.append("poke index ");
                push_int(&mut out, *n);
                out.append(" out of range");
            },
            PathError::CannotSet(n, k) => {
                out.append("cannot set field ");
                out.append(n.as_str());
                out.append(" on ");
                out.append(k.name());
            },
            PathError::StringPoke => out.append("string char poke must target a word head"),
            PathError::NotPokeTarget(k) => {
                out.append("expected block! or paren! for integer set-path index, found ");
                out.append(k.name());
            },
            PathError::BadSetPart(k) => {
                out.append("expected word!, integer!, or paren! in set-path, found ");
                out.append(k.name());
            },
            PathError::ShortSetPath => out.append("set-path requires at least two parts"),
            PathError::SetPathHead(k) => {
                out.append("set-path head must be a word, found ");
                out.append(k.name());
            },
        }
        out
    }
}

// ---------------------------------------------------------------------------
// Reading
// ---------------------------------------------------------------------------

/// The 0-based slot that the 1-based index `n` names in a series of `len`
/// items (a negative index counts from the tail), if it lies inside.
pub open spec fn pick_slot(len: int, n: int) -> Option<int> {
    let i = if n > 0 {
        n - 1
    } else if n < 0 {
        len + n
    } else {
        -1
    };
    if 0 <= i < len {
        Some(i)
    } else {
        None
    }
}

/// `series/n`: the item (a string gives a `char!`), `none` outside.
pub open spec fn pick_spec(v: ValueView, n: i64) -> Result<ValueView, PathFault> {
    match v {
        ValueView::Block(items) => Ok(
            match pick_slot(items.len() as int, n as int) {
                Some(i) => items[i],
                None => ValueView::NoneVal,
            },
        ),
        ValueView::Paren(items) => Ok(
            match pick_slot(items.len() as int, n as int) {
                Some(i) => items[i],
                None => ValueView::NoneVal,
            },
        ),
        ValueView::Str(s) => Ok(
            match pick_slot(s.len() as int, n as int) {
                Some(i) => ValueView::Char(s[i]),
                None => ValueView::NoneVal,
            },
        ),
        _ => Err(PathFault::NotIndexable(kind_of(v))),
    }
}

/// The slot of `n` in a series of `len` items, computed without overflow.
fn slot_of(len: usize, n: i64) -> (r: Option<usize>)
    ensures
        match pick_slot(len as int, n as int) {
            Some(i) => r == Some(i as usize),
            None => r is None,
        },
{
    if n > 0 {
        let k: u64 = (n - 1) as u64;
        if k < len as u64 {
            Some(k as usize)
        } else {
            None
        }
    } else if n < 0 {
        let d: u64 = ((-(n + 1)) as u64) + 1;
        if d <= len as u64 {
            Some(len - d as usize)
        } else {
            None
        }
    } else {
        None
    }
}

/// The item at path index `n` of `items`, `none` outside.
fn pick_item(items: &Vec<Value>, n: i64) -> (r: Value)
    ensures
        r@ == match pick_slot(view_items(items@).len() as int, n as int) {
            Some(i) => view_items(items@)[i],
            None => ValueView::NoneVal,
        },
{
    proof {
        lemma_view_items(items@);
    }
    match slot_of(items.len(), n) {
        Some(i) => clone_value(&items[i]),
        None => Value::NoneVal,
    }
}

/// `c` as a `char!` value.
fn char_value(c: char) -> (v: Value)
    ensures
        v@ == ValueView::Char(c),
{
    Value::Char(c)
}

/// The character at path index `n` of `s` as a `char!`, `none` outside.
fn pick_char(s: &String, n: i64) -> (r: Value)
    ensures
        r@ == match pick_slot(s@.len() as int, n as int) {
            Some(i) => ValueView::Char(s@[i]),
            None => ValueView::NoneVal,
        },
{
    let cs = to_chars(s.as_str());
    match slot_of(cs.len(), n) {
        Some(i) => char_value(cs[i]),
        None => Value::NoneVal,
    }
}

/// `series/n` for an integer path part: 1-based, negative from the tail;
/// outside the series it is `none`.
pub fn pick_path_index(current: &Value, n: i64) -> (r: Result<Value, PathError>)
    ensures
        match r {
            Ok(v) => pick_spec(current@, n) == Ok::<ValueView, PathFault>(v@),
            Err(e) => pick_spec(current@, n) == Err::<ValueView, PathFault>(e@),
        },
{
    match current {
        Value::Block(items) => Ok(pick_item(items, n)),
        Value::Paren(items) => Ok(pick_item(items, n)),
        Value::Str(s) => Ok(pick_char(s, n)),
        other => Err(PathError::NotIndexable(kind(other))),
    }
}

/// Whether `i` is the first position of a field named `name`.
pub open spec fn is_first_field(fields: Seq<(Seq<char>, ValueView)>, name: Seq<char>, i: int) -> bool {
    &&& 0 <= i < fields.len()
    &&& fields[i].0 == name
    &&& forall|j: int| 0 <= j < i ==> #[trigger] fields[j].0 != name
}

/// The position of the first field named `name`, or -1.
pub open spec fn field_index(fields: Seq<(Seq<char>, ValueView)>, name: Seq<char>) -> int {
    if exists|i: int| is_first_field(fields, name, i) {
        choose|i: int| is_first_field(fields, name, i)
    } else {
        -1
    }
}

/// The first field named `name` is at `i`.
pub proof fn lemma_field_index(fields: Seq<(Seq<char>, ValueView)>, name: Seq<char>, i: int)
    requires
        is_first_field(fields, name, i),
    ensures
        field_index(fields, name) == i,
{
    let k = choose|k: int| is_first_field(fields, name, k);
    assert(is_first_field(fields, name, k));
    if k < i {
        assert(fields[k].0 != name);
    } else if k > i {
        assert(fields[i].0 != name);
    }
}

/// No field is named `name`.
pub proof fn lemma_no_field(fields: Seq<(Seq<char>, ValueView)>, name: Seq<char>)
    requires
        forall|j: int| 0 <= j < fields.len() ==> #[trigger] fields[j].0 != name,
    ensures
        field_index(fields, name) == -1,
{
    if exists|i: int| is_first_field(fields, name, i) {
        let k = choose|k: int| is_first_field(fields, name, k);
        assert(fields[k].0 != name);
    }
}

/// `field_index` is -1 or a first position.
pub proof fn lemma_field_index_range(fields: Seq<(Seq<char>, ValueView)>, name: Seq<char>)
    ensures
        field_index(fields, name) == -1 || is_first_field(fields, name, field_index(fields, name)),
{
}

/// `object/name`: the value of the object's first field of that name.
pub open spec fn select_spec(v: ValueView, name: Seq<char>) -> Result<ValueView, PathFault> {
    match v {
        ValueView::Object(fields) => if field_index(fields, name) >= 0 {
            Ok(fields[field_index(fields, name)].1)
        } else {
            Err(PathFault::NoField(name))
        },
        _ => Err(PathFault::CannotSelect(name, kind_of(v))),
    }
}

/// The position of the first field named `name`.
fn find_field(fields: &Vec<(String, Value)>, name: &String) -> (r: Option<usize>)
    ensures
        match r {
            Some(i) => field_index(view_fields(fields@), name@) == i,
            None => field_index(view_fields(fields@), name@) == -1,
        },
{
    let ghost fs = view_fields(fields@);
    proof {
        lemma_view_fields(fields@);
    }
    let mut i: usize = 0;
    while i < fields.len()
        invariant
            i <= fields@.len(),
            fs == view_fields(fields@),
            fs.len() == fields@.len(),
            forall|j: int| 0 <= j < fields@.len() ==> #[trigger] fs[j] == (fields@[j].0@, fields@[j].1@),
            forall|j: int| 0 <= j < i ==> #[trigger] fs[j].0 != name@,
        decreases fields@.len() - i,
    {
        if fields[i].0 == *name {
            proof {
                assert(fs[i as int].0 == name@);
                assert(is_first_field(fs, name@, i as int));
                lemma_field_index(fs, name@, i as int);
            }
            return Some(i);
        }
        proof {
            assert(fs[i as int].0 != name@);
        }
        i = i + 1;
    }
    proof {
        lemma_no_field(fs, name@);
    }
    None
}

/// `object/name` for a word path part.
pub fn select_field(current: &Value, name: &String) -> (r: Result<Value, PathError>)
    ensures
        match r {
            Ok(v) => select_spec(current@, name@) == Ok::<ValueView, PathFault>(v@),
            Err(e) => select_spec(current@, name@) == Err::<ValueView, PathFault>(e@),
        },
{
    match current {
        Value::Object(fields) => {
            proof {
                lemma_view_fields(fields@);
            }
            match find_field(fields, name) {
                Some(i) => Ok(clone_value(&fields[i].1)),
                None => Err(PathError::NoField(name.clone())),
            }
        },
        other => Err(PathError::CannotSelect(name.clone(), kind(other))),
    }
}

/// The name a word-like path part stands for.
pub open spec fn part_name(part: ValueView) -> Option<Seq<char>> {
    match part {
        ValueView::Word(n) => Some(n),
        ValueView::GetWord(n) => Some(n),
        ValueView::LitWord(n) => Some(n),
        _ => None,
    }
}

/// What one path step gives.
#[derive(Debug, PartialEq)]
pub enum Step {
    /// The value the part selects.
    Selected(Value),
    /// The part is a paren: evaluate it, then step with its value.
    Evaluate,
}

/// `Step` by its view.
pub enum StepView {
    Selected(ValueView),
    Evaluate,
}

pub open spec fn step_view(s: Step) -> StepView {
    match s {
        Step::Selected(v) => StepView::Selected(v@),
        Step::Evaluate => StepView::Evaluate,
    }
}

pub open spec fn selected(r: Result<ValueView, PathFault>) -> Result<StepView, PathFault> {
    match r {
        Ok(v) => Ok(StepView::Selected(v)),
        Err(e) => Err(e),
    }
}

/// One step of a path on `current`.
pub open spec fn step_spec(current: ValueView, part: ValueView) -> Result<StepView, PathFault> {
    match part {
        ValueView::Word(n) => selected(select_spec(current, n)),
        ValueView::GetWord(n) => selected(select_spec(current, n)),
        ValueView::LitWord(n) => selected(select_spec(current, n)),
        ValueView::Integer(k) => selected(pick_spec(current, k)),
        ValueView::Paren(_) => Ok(StepView::Evaluate),
        _ => Err(PathFault::BadPart(kind_of(part))),
    }
}

/// One step of a path: a word selects an object field, an integer picks
/// from a series, a paren is handed back to be evaluated.
pub fn step_path(current: &Value, part: &Value) -> (r: Result<Step, PathError>)
    ensures
        match r {
            Ok(s) => step_spec(current@, part@) == Ok::<StepView, PathFault>(step_view(s)),
            Err(e) => step_spec(current@, part@) == Err::<StepView, PathFault>(e@),
        },
{
    let picked = match part {
        Value::Word(n) => select_field(current, n),
        Value::GetWord(n) => select_field(current, n),
        Value::LitWord(n) => select_field(current, n),
        Value::Integer(k) => pick_path_index(current, *k),
        Value::Paren(_) => {
            return Ok(Step::Evaluate);
        },
        other => {
            return Err(PathError::BadPart(kind(other)));
        },
    };
    match picked {
        Ok(v) => Ok(Step::Selected(v)),
        Err(e) => Err(e),
    }
}

/// Where a walk along a path's parts stands.
#[derive(Debug, PartialEq)]
pub enum Walk {
    /// Every part was stepped; the value reached.
    Done(Value),
    /// The part at `at` is a paren: evaluate it, then resume the walk from
    /// `current` with its value.
    Evaluate { at: usize, current: Value },
}

/// `Walk` by its view.
pub enum WalkView {
    Done(ValueView),
    Evaluate { at: nat, current: ValueView },
}

pub open spec fn walk_view(w: Walk) -> WalkView {
    match w {
        Walk::Done(v) => WalkView::Done(v@),
        Walk::Evaluate { at, current } => WalkView::Evaluate { at: at as nat, current: current@ },
    }
}

/// Stepping `current` through `parts[i..]`, pausing at the first paren.
pub open spec fn walk_from(current: ValueView, parts: Seq<Value>, i: nat) -> Result<WalkView, PathFault>
    decreases parts.len() - i,
{
    if i >= parts.len() {
        Ok(WalkView::Done(current))
    } else {
        match step_spec(current, parts[i as int]@) {
            Err(e) => Err(e),
            Ok(StepView::Evaluate) => Ok(WalkView::Evaluate { at: i, current }),
            Ok(StepView::Selected(v)) => walk_from(v, parts, i + 1),
        }
    }
}

/// Walks `current` through `parts[from..]` (the parts after a path's
/// head), stopping at a paren part for the caller to evaluate.
pub fn walk_data_path(current: Value, parts: &[Value], from: usize) -> (r: Result<Walk, PathError>)
    ensures
        match r {
            Ok(w) => walk_from(current@, parts@, from as nat) == Ok::<WalkView, PathFault>(walk_view(w)),
            Err(e) => walk_from(current@, parts@, from as nat) == Err::<WalkView, PathFault>(e@),
        },
{
    let mut cur = current;
    let mut i = from;
    while i < parts.len()
        invariant
            walk_from(cur@, parts@, i as nat) == walk_from(current@, parts@, from as nat),
        decreases parts@.len() - i,
    {
        match step_path(&cur, &parts[i]) {
            Ok(Step::Selected(v)) => {
                cur = v;
                i = i + 1;
            },
            Ok(Step::Evaluate) => {
                return Ok(Walk::Evaluate { at: i, current: cur });
            },
            Err(e) => {
                return Err(e);
            },
        }
    }
    Ok(Walk::Done(cur))
}

/// Resumes a walk paused at `at` with the value its paren evaluated to:
/// that value selects from `current`, then the walk goes on after `at`. A
/// value that is itself a paren pauses again at `at`, to be evaluated in
/// turn.
pub fn resume_walk(current: Value, selector: &Value, parts: &[Value], at: usize) -> (r: Result<Walk, PathError>)
    requires
        at < parts@.len(),
    ensures
        match step_spec(current@, selector@) {
            Err(e) => r matches Err(x) && x@ == e,
            Ok(StepView::Evaluate) => r matches Ok(w) && walk_view(w) == (WalkView::Evaluate { at: at as nat, current: current@ }),
            Ok(StepView::Selected(v)) => match r {
                Ok(w) => walk_from(v, parts@, at as nat + 1) == Ok::<WalkView, PathFault>(walk_view(w)),
                Err(e) => walk_from(v, parts@, at as nat + 1) == Err::<WalkView, PathFault>(e@),
            },
        },
{
    let _n = parts.len();
    match step_path(&current, selector) {
        Ok(Step::Selected(v)) => walk_data_path(v, parts, at + 1),
        Ok(Step::Evaluate) => Ok(Walk::Evaluate { at, current }),
        Err(e) => Err(e),
    }
}

// ---------------------------------------------------------------------------
// Writing
// ---------------------------------------------------------------------------

/// The character a string poke writes: a `char!`, an integer code point
/// (its low 32 bits) or a one-character string.
pub open spec fn poke_char_spec(rhs: ValueView) -> Result<char, PathFault> {
    match rhs {
        ValueView::Char(c) => Ok(c),
        ValueView::Integer(k) => {
            let cp = k as u32;
            if cp <= 0x10FFFF && !(0xD800 <= cp <= 0xDFFF) {
                Ok(cp as char)
            } else {
                Err(PathFault::BadCodepoint(k))
            }
        },
        ValueView::Str(t) => if t.len() == 0 {
            Err(PathFault::EmptyPoke)
        } else if t.len() > 1 {
            Err(PathFault::MultiCharPoke)
        } else {
            Ok(t[0])
        },
        _ => Err(PathFault::NotPokeChar(kind_of(rhs))),
    }
}

/// The slot a write at 1-based index `n` lands in, in a series of `len`.
pub open spec fn poke_slot(len: int, n: i64) -> Result<int, PathFault> {
    if n == 0 {
        Err(PathFault::PokeZero)
    } else {
        match pick_slot(len, n as int) {
            Some(i) => Ok(i),
            None => Err(PathFault::PokeRange(n)),
        }
    }
}

/// `string/n: rhs`: the string with its `n`th character replaced.
pub open spec fn poke_string_spec(s: Seq<char>, n: i64, rhs: ValueView) -> Result<Seq<char>, PathFault> {
    match poke_char_spec(rhs) {
        Err(e) => Err(e),
        Ok(c) => match poke_slot(s.len() as int, n) {
            Err(e) => Err(e),
            Ok(i) => Ok(s.update(i, c)),
        },
    }
}

fn poke_char(rhs: &Value) -> (r: Result<char, PathError>)
    ensures
        match r {
            Ok(c) => poke_char_spec(rhs@) == Ok::<char, PathFault>(c),
            Err(e) => poke_char_spec(rhs@) == Err::<char, PathFault>(e@),
        },
{
    match rhs {
        Value::Char(c) => Ok(*c),
        Value::Integer(k) => match char_from_u32(*k as u32) {
            Some(c) => Ok(c),
            None => Err(PathError::BadCodepoint(*k)),
        },
        Value::Str(t) => {
            let cs = to_chars(t.as_str());
            if cs.len() == 0 {
                Err(PathError::EmptyPoke)
            } else if cs.len() > 1 {
                Err(PathError::MultiCharPoke)
            } else {
                Ok(cs[0])
            }
        },
        other => Err(PathError::NotPokeChar(kind(other))),
    }
}

fn poke_index(len: usize, n: i64) -> (r: Result<usize, PathError>)
    ensures
        match r {
            Ok(i) => poke_slot(len as int, n) == Ok::<int, PathFault>(i as int),
            Err(e) => poke_slot(len as int, n) == Err::<int, PathFault>(e@),
        },
{
    if n == 0 {
        return Err(PathError::PokeZero);
    }
    match slot_of(len, n) {
        Some(i) => Ok(i),
        None => Err(PathError::PokeRange(n)),
    }
}

fn string_of(cs: &Vec<char>) -> (r: String)
    ensures
        r@ == cs@,
{
    let mut out = String::new();
    let mut k: usize = 0;
    while k < cs.len()
        invariant
            k <= cs@.len(),
            out@ == cs@.take(k as int),
        decreases cs@.len() - k,
    {
        push_char(&mut out, cs[k]);
        k = k + 1;
        assert(out@ =~= cs@.take(k as int));
    }
    assert(cs@.take(cs@.len() as int) =~= cs@);
    out
}

/// `string/n: rhs` where the path's head holds a string: the new string,
/// which the caller writes back to the head word.
pub fn poke_string_char(s: &String, n: i64, rhs: &Value) -> (r: Result<String, PathError>)
    ensures
        match r {
            Ok(t) => poke_string_spec(s@, n, rhs@) == Ok::<Seq<char>, PathFault>(t@),
            Err(e) => poke_string_spec(s@, n, rhs@) == Err::<Seq<char>, PathFault>(e@),
        },
{
    let c = match poke_char(rhs) {
        Ok(c) => c,
        Err(e) => {
            return Err(e);
        },
    };
    let mut cs = to_chars(s.as_str());
    let i = match poke_index(cs.len(), n) {
        Ok(i) => i,
        Err(e) => {
            return Err(e);
        },
    };
    cs.set(i, c);
    Ok(string_of(&cs))
}

/// `fields` with the first field named `name` set to `val`, or with a new
/// field appended when there is none.
pub open spec fn field_set(fields: Seq<(Seq<char>, ValueView)>, name: Seq<char>, val: ValueView) -> Seq<
    (Seq<char>, ValueView),
> {
    let i = field_index(fields, name);
    if i >= 0 {
        fields.update(i, (name, val))
    } else {
        fields.push((name, val))
    }
}

/// `current/part: rhs` for the last part of a set-path: what `current`
/// becomes.
pub open spec fn write_spec(current: ValueView, part: ValueView, rhs: ValueView) -> Result<ValueView, PathFault> {
    match part_name(part) {
        Some(n) => match current {
            ValueView::Object(fields) => Ok(ValueView::Object(field_set(fields, n, rhs))),
            _ => Err(PathFault::CannotSet(n, kind_of(current))),
        },
        None => match part {
            ValueView::Integer(k) => match current {
                ValueView::Block(items) => match poke_slot(items.len() as int, k) {
                    Ok(i) => Ok(ValueView::Block(items.update(i, rhs))),
                    Err(e) => Err(e),
                },
                ValueView::Paren(items) => match poke_slot(items.len() as int, k) {
                    Ok(i) => Ok(ValueView::Paren(items.update(i, rhs))),
                    Err(e) => Err(e),
                },
                ValueView::Str(_) => Err(PathFault::StringPoke),
                _ => Err(PathFault::NotPokeTarget(kind_of(current))),
            },
            _ => Err(PathFault::BadSetPart(kind_of(part))),
        },
    }
}

fn set_field(fields: &mut Vec<(String, Value)>, name: &String, rhs: Value)
    ensures
        view_fields(final(fields)@) == field_set(view_fields(old(fields)@), name@, rhs@),
{
    let ghost before = view_fields(fields@);
    let ghost rv = rhs@;
    proof {
        lemma_view_fields(fields@);
    }
    match find_field(fields, name) {
        Some(i) => {
            fields.set(i, (name.clone(), rhs));
            proof {
                lemma_view_fields(fields@);
                assert(view_fields(fields@) =~= before.update(i as int, (name@, rv)));
            }
        },
        None => {
            fields.push((name.clone(), rhs));
            proof {
                lemma_view_fields(fields@);
                assert(view_fields(fields@) =~= before.push((name@, rv)));
            }
        },
    }
}

fn set_item(items: &mut Vec<Value>, n: i64, rhs: Value) -> (r: Result<(), PathError>)
    ensures
        match poke_slot(view_items(old(items)@).len() as int, n) {
            Ok(i) => r is Ok && view_items(final(items)@) == view_items(old(items)@).update(i, rhs@),
            Err(e) => (r matches Err(x) && x@ == e) && final(items)@ == old(items)@,
        },
{
    let ghost before = view_items(items@);
    let ghost rv = rhs@;
    proof {
        lemma_view_items(items@);
    }
    let i = match poke_index(items.len(), n) {
        Ok(i) => i,
        Err(e) => {
            return Err(e);
        },
    };
    items.set(i, rhs);
    proof {
        lemma_view_items(items@);
        assert(view_items(items@) =~= before.update(i as int, rv));
    }
    Ok(())
}

/// `current/part: rhs`, the write of a set-path's last part: a word sets
/// an object field (adding it when missing), an integer writes a block or
/// paren slot. A paren part is evaluated by the caller first.
pub fn write_path_slot(current: &mut Value, part: &Value, rhs: Value) -> (r: Result<(), PathError>)
    requires
        !(part@ is Paren),
    ensures
        match r {
            Ok(()) => write_spec(old(current)@, part@, rhs@) == Ok::<ValueView, PathFault>(final(current)@),
            Err(e) => write_spec(old(current)@, part@, rhs@) == Err::<ValueView, PathFault>(e@)
                && final(current)@ == old(current)@,
        },
{
    let mut held = Value::NoneVal;
    core::mem::swap(current, &mut held);
    let name = match part {
        Value::Word(n) => Some(n),
        Value::GetWord(n) => Some(n),
        Value::LitWord(n) => Some(n),
        _ => None,
    };
    match name {
        Some(n) => match held {
            Value::Object(mut fields) => {
                set_field(&mut fields, n, rhs);
                *current = Value::Object(fields);
                Ok(())
            },
            other => {
                let e = PathError::CannotSet(n.clone(), kind(&other));
                *current = other;
                Err(e)
            },
        },
        None => match part {
            Value::Integer(k) => match held {
                Value::Block(mut items) => {
                    let r = set_item(&mut items, *k, rhs);
                    *current = Value::Block(items);
                    r
                },
                Value::Paren(mut items) => {
                    let r = set_item(&mut items, *k, rhs);
                    *current = Value::Paren(items);
                    r
                },
                Value::Str(t) => {
                    *current = Value::Str(t);
                    Err(PathError::StringPoke)
                },
                other => {
                    let e = PathError::NotPokeTarget(kind(&other));
                    *current = other;
                    Err(e)
                },
            },
            other => {
                *current = held;
                Err(PathError::BadSetPart(kind(other)))
            },
        },
    }
}

/// The word a set-path writes through: its head, a word or get-word, of a
/// path of at least two parts.
pub open spec fn set_path_head_spec(parts: Seq<Value>) -> Result<Seq<char>, PathFault> {
    if parts.len() < 2 {
        Err(PathFault::ShortSetPath)
    } else {
        match parts[0]@ {
            ValueView::Word(n) => Ok(n),
            ValueView::GetWord(n) => Ok(n),
            v => Err(PathFault::SetPathHead(kind_of(v))),
        }
    }
}

/// The head word of a set-path `parts` (the caller resolves it, walks
/// `parts[1..len - 1]` with `walk_data_path`, and ends with
/// `write_path_end`).
pub fn set_path_head(parts: &[Value]) -> (r: Result<String, PathError>)
    ensures
        match r {
            Ok(n) => set_path_head_spec(parts@) == Ok::<Seq<char>, PathFault>(n@),
            Err(e) => set_path_head_spec(parts@) == Err::<Seq<char>, PathFault>(e@),
        },
{
    if parts.len() < 2 {
        return Err(PathError::ShortSetPath);
    }
    match &parts[0] {
        Value::Word(n) => Ok(n.clone()),
        Value::GetWord(n) => Ok(n.clone()),
        other => Err(PathError::SetPathHead(kind(other))),
    }
}

/// What the last write of a set-path did.
#[derive(Debug, PartialEq)]
pub enum PathWrite {
    /// The container was written in place.
    Written,
    /// The path reached a string: this is the new string, for the caller
    /// to write back to the path's head word.
    HeadString(String),
}

/// The last write of a set-path on the value `current` it reached: an
/// integer part on a string pokes a character (and hands the new string
/// back), anything else writes the slot.
pub fn write_path_end(current: &mut Value, last: &Value, rhs: Value) -> (r: Result<PathWrite, PathError>)
    requires
        !(last@ is Paren),
    ensures
        match (old(current)@, last@) {
            (ValueView::Str(t), ValueView::Integer(n)) => final(current)@ == old(current)@ && match r {
                Ok(w) => (w matches PathWrite::HeadString(u) && poke_string_spec(t, n, rhs@) == Ok::<
                    Seq<char>,
                    PathFault,
                >(u@)),
                Err(e) => poke_string_spec(t, n, rhs@) == Err::<Seq<char>, PathFault>(e@),
            },
            _ => match r {
                Ok(w) => w == PathWrite::Written && write_spec(old(current)@, last@, rhs@) == Ok::<
                    ValueView,
                    PathFault,
                >(final(current)@),
                Err(e) => write_spec(old(current)@, last@, rhs@) == Err::<ValueView, PathFault>(e@)
                    && final(current)@ == old(current)@,
            },
        },
{
    if let Value::Str(t) = &*current {
        if let Value::Integer(n) = last {
            return match poke_string_char(t, *n, &rhs) {
                Ok(u) => Ok(PathWrite::HeadString(u)),
                Err(e) => Err(e),
            };
        }
    }
    match write_path_slot(current, last, rhs) {
        Ok(()) => Ok(PathWrite::Written),
        Err(e) => Err(e),
    }
}

// ---------------------------------------------------------------------------
// Laws
// ---------------------------------------------------------------------------

/// A field named `name` at `j` means some field of that name is the first.
pub proof fn lemma_first_exists(fields: Seq<(Seq<char>, ValueView)>, name: Seq<char>, j: int)
    requires
        0 <= j < fields.len(),
        fields[j].0 == name,
    ensures
        field_index(fields, name) >= 0,
        is_first_field(fields, name, field_index(fields, name)),
    decreases j,
{
    if exists|k: int| 0 <= k < j && #[trigger] fields[k].0 == name {
        let k = choose|k: int| 0 <= k < j && #[trigger] fields[k].0 == name;
        lemma_first_exists(fields, name, k);
    } else {
        assert(is_first_field(fields, name, j));
        lemma_field_index(fields, name, j);
    }
}

/// Writing an integer slot of a block or paren and reading the same index
/// back gives what was written.
pub proof fn law_pick_after_write(current: ValueView, k: i64, rhs: ValueView)
    ensures
        match write_spec(current, ValueView::Integer(k), rhs) {
            Ok(w) => pick_spec(w, k) == Ok::<ValueView, PathFault>(rhs),
            Err(_) => true,
        },
{
}

/// Writing an integer slot leaves every other index reading as before.
pub proof fn law_write_keeps_other_slots(current: ValueView, k: i64, m: i64, rhs: ValueView)
    requires
        match current {
            ValueView::Block(items) => pick_slot(items.len() as int, m as int) != pick_slot(
                items.len() as int,
                k as int,
            ),
            ValueView::Paren(items) => pick_slot(items.len() as int, m as int) != pick_slot(
                items.len() as int,
                k as int,
            ),
            _ => true,
        },
    ensures
        match write_spec(current, ValueView::Integer(k), rhs) {
            Ok(w) => pick_spec(w, m) == pick_spec(current, m),
            Err(_) => true,
        },
{
}

/// Setting a field and selecting it back gives what was set.
pub proof fn law_select_after_write(current: ValueView, part: ValueView, rhs: ValueView)
    requires
        part_name(part) is Some,
    ensures
        match write_spec(current, part, rhs) {
            Ok(w) => select_spec(w, part_name(part)->0) == Ok::<ValueView, PathFault>(rhs),
            Err(_) => true,
        },
{
    let name = part_name(part)->0;
    if let ValueView::Object(f) = current {
        let i = field_index(f, name);
        lemma_field_index_range(f, name);
        let f2 = field_set(f, name, rhs);
        if i >= 0 {
            assert forall|j: int| 0 <= j < i implies #[trigger] f2[j].0 != name by {
                assert(f2[j] == f[j]);
                assert(f[j].0 != name);
            }
            assert(is_first_field(f2, name, i));
            lemma_field_index(f2, name, i);
        } else {
            assert forall|j: int| 0 <= j < f.len() implies #[trigger] f2[j].0 != name by {
                assert(f2[j] == f[j]);
                if f[j].0 == name {
                    lemma_first_exists(f, name, j);
                }
            }
            assert(is_first_field(f2, name, f.len() as int));
            lemma_field_index(f2, name, f.len() as int);
        }
    }
}

/// Setting one field leaves every other field reading as before.
pub proof fn law_write_keeps_other_fields(current: ValueView, part: ValueView, other: Seq<char>, rhs: ValueView)
    requires
        part_name(part) is Some,
        other != part_name(part)->0,
    ensures
        match write_spec(current, part, rhs) {
            Ok(w) => select_spec(w, other) == select_spec(current, other),
            Err(_) => true,
        },
{
    let name = part_name(part)->0;
    if let ValueView::Object(f) = current {
        let f2 = field_set(f, name, rhs);
        assert forall|j: int| 0 <= j < f.len() implies #[trigger] f2[j].0 == other <==> f[j].0 == other by {
            if j == field_index(f, name) {
                lemma_field_index_range(f, name);
            }
        }
        lemma_field_index_range(f, other);
        let o = field_index(f, other);
        if o >= 0 {
            assert forall|j: int| 0 <= j < o implies #[trigger] f2[j].0 != other by {
                assert(f[j].0 != other);
            }
            assert(is_first_field(f2, other, o));
            lemma_field_index(f2, other, o);
            lemma_field_index_range(f, name);
            assert(f2[o] == f[o]);
        } else {
            assert forall|j: int| 0 <= j < f2.len() implies #[trigger] f2[j].0 != other by {
                if j < f.len() && f[j].0 == other {
                    lemma_first_exists(f, other, j);
                }
            }
            lemma_no_field(f2, other);
        }
    }
}

/// Poking a character into a string and picking the same index back gives
/// that character; the string keeps its length.
pub proof fn law_pick_after_poke(s: Seq<char>, n: i64, rhs: ValueView)
    ensures
        match poke_string_spec(s, n, rhs) {
            Ok(t) => t.len() == s.len() && pick_spec(ValueView::Str(t), n) == Ok::<ValueView, PathFault>(
                ValueView::Char(poke_char_spec(rhs)->Ok_0),
            ),
            Err(_) => true,
        },
{
}

} // verus!
