//! `make map!` and `make hash!` (and `to-map`, `to-hash`).
//!
//! A spec block is walked raw: keys are taken literally (a set-word, the
//! first element of a `[key value]` pair block, or a hashable value) and
//! values are evaluated in the caller's context. Evaluating an expression is
//! the interpreter's work, so the walk is a state machine: each step either
//! stores an entry, asks the caller to evaluate an expression, or ends.
use vstd::prelude::*;

use crate::map::{key_index, key_of, lemma_key_index_first, map_key_from, map_set, map_set_entry};
use crate::value::{
    clone_items, clone_key, clone_value, kind, kind_name, kind_of, lemma_view_fields, lemma_view_items, lemma_view_keyed,
    view_fields, view_items, view_keyed, Kind, KeyView, MapKey, Value, ValueView,
};

verus! {

broadcast use vstd::string::group_string_axioms;

/// Which constructor runs: `make map!` or `make hash!`.
#[derive(Clone, Copy, Debug, PartialEq, Eq)]
pub enum KeyedKind {
    MapKind,
    HashKind,
}

/// Why `make map!`/`make hash!` refused its spec.
#[derive(Clone, Copy, Debug, PartialEq, Eq)]
pub enum KeyedError {
    /// The native was called without an argument.
    Arity,
    /// A pair block with fewer than two elements.
    PairBlock(KeyedKind),
    /// A key of a datatype that cannot be hashed.
    Unhashable(KeyedKind, Kind),
    /// A spec of a datatype the constructor does not build from.
    BadSpec(KeyedKind, Kind),
}

/// The message of a `make map!`/`make hash!` error.
pub open spec fn keyed_error_message(e: KeyedError) -> Seq<char> {
    match e {
        KeyedError::Arity => "wrong number of arguments"@,
        KeyedError::PairBlock(KeyedKind::MapKind) => "make map!: pair block needs key and value"@,
        KeyedError::PairBlock(KeyedKind::HashKind) => "make hash!: pair block needs key and value"@,
        KeyedError::Unhashable(KeyedKind::MapKind, k) => "map: key type "@ + kind_name(k) + " is not hashable"@,
        KeyedError::Unhashable(KeyedKind::HashKind, k) => "hash: key type "@ + kind_name(k)
            + " is not hashable"@,
        KeyedError::BadSpec(KeyedKind::MapKind, k) => "expected block!, object!, or map!, found "@ + kind_name(k),
        KeyedError::BadSpec(KeyedKind::HashKind, k) => "expected block!, object!, map!, or hash!, found "@
            + kind_name(k),
    }
}

impl KeyedError {
    /// The error's message.
    pub fn message(&self) -> (r: String)
        ensures
            r@ == keyed_error_message(*self),
    {
        let mut out = String::new();
        match self {
            KeyedError::Arity => {
                out.append("wrong number of arguments");
            },
            KeyedError::PairBlock(KeyedKind::MapKind) => {
                out.append("make map!: pair block needs key and value");
            },
            KeyedError::PairBlock(KeyedKind::HashKind) => {
                out.append("make hash!: pair block needs key and value");
            },
            KeyedError::Unhashable(which, k) => {
                match which {
                    KeyedKind::MapKind => out.append("map: key type "),
                    KeyedKind::HashKind => out.append("hash: key type "),
                }
                out.append(k.name());
                out.append(" is not hashable");
            },
            KeyedError::BadSpec(KeyedKind::MapKind, k) => {
                out.append("expected block!, object!, or map!, found ");
                out.append(k.name());
            },
            KeyedError::BadSpec(KeyedKind::HashKind, k) => {
                out.append("expected block!, object!, map!, or hash!, found ");
                out.append(k.name());
            },
        }
        out
    }
}

/// The container of the given kind holding `entries`.
pub open spec fn keyed_value(which: KeyedKind, entries: Seq<(KeyView, ValueView)>) -> ValueView {
    match which {
        KeyedKind::MapKind => ValueView::MapVal(entries),
        KeyedKind::HashKind => ValueView::Hash(entries),
    }
}

/// `entries` with each of `pairs` set in turn.
pub open spec fn set_all(entries: Seq<(KeyView, ValueView)>, pairs: Seq<(KeyView, ValueView)>) -> Seq<
    (KeyView, ValueView),
>
    decreases pairs.len(),
{
    if pairs.len() == 0 {
        entries
    } else {
        map_set(set_all(entries, pairs.drop_last()), pairs.last().0, pairs.last().1)
    }
}

/// An object's fields, but `self`, as symbol keys.
pub open spec fn object_pairs(fields: Seq<(Seq<char>, ValueView)>) -> Seq<(KeyView, ValueView)>
    decreases fields.len(),
{
    if fields.len() == 0 {
        Seq::empty()
    } else {
        let last = fields.last();
        let prev = object_pairs(fields.drop_last());
        if last.0 == "self"@ {
            prev
        } else {
            prev.push((KeyView::Sym(last.0), last.1))
        }
    }
}

// ---------------------------------------------------------------------------
// The walk of a spec block
// ---------------------------------------------------------------------------

/// A spec block being walked: where the walk is, the entries so far, and
/// the key waiting for its value (with whether that value is evaluated from
/// the spec block itself, or from a pair block).
pub struct KeyedBuild {
    pub which: KeyedKind,
    pub data: Vec<Value>,
    pub pos: usize,
    pub entries: Vec<(MapKey, Value)>,
    pub pending: Option<(MapKey, bool)>,
}

pub struct KeyedView {
    pub which: KeyedKind,
    pub data: Seq<ValueView>,
    pub pos: nat,
    pub entries: Seq<(KeyView, ValueView)>,
    pub pending: Option<(KeyView, bool)>,
}

impl View for KeyedBuild {
    type V = KeyedView;

    open spec fn view(&self) -> KeyedView {
        KeyedView {
            which: self.which,
            data: view_items(self.data@),
            pos: self.pos as nat,
            entries: view_keyed(self.entries@),
            pending: match self.pending {
                Some((k, in_spec)) => Some((k@, in_spec)),
                None => None,
            },
        }
    }
}

/// What a step of the walk asks of its caller.
pub enum KeyedStep {
    /// Nothing: take the next step.
    Continue,
    /// Evaluate one expression of the spec block from position `start`, and
    /// hand back its value and the position after it (`resume_spec`).
    EvaluateSpec { start: usize },
    /// Evaluate one expression of this pair block from its second element,
    /// and hand back its value (`resume_pair`).
    EvaluatePair { pair: Vec<Value> },
    /// The container is built.
    Done(Value),
    /// The spec is refused.
    Failed(KeyedError),
}

pub enum KeyedStepView {
    Continue,
    EvaluateSpec { start: nat },
    EvaluatePair { pair: Seq<ValueView> },
    Done(ValueView),
    Failed(KeyedError),
}

impl View for KeyedStep {
    type V = KeyedStepView;

    open spec fn view(&self) -> KeyedStepView {
        match self {
            KeyedStep::Continue => KeyedStepView::Continue,
            KeyedStep::EvaluateSpec { start } => KeyedStepView::EvaluateSpec { start: *start as nat },
            KeyedStep::EvaluatePair { pair } => KeyedStepView::EvaluatePair { pair: view_items(pair@) },
            KeyedStep::Done(v) => KeyedStepView::Done(v@),
            KeyedStep::Failed(e) => KeyedStepView::Failed(*e),
        }
    }
}

/// One step of the walk (with no value pending).
pub open spec fn keyed_step_spec(b: KeyedView) -> (KeyedView, KeyedStepView) {
    if b.pos >= b.data.len() {
        (b, KeyedStepView::Done(keyed_value(b.which, b.entries)))
    } else {
        let e = b.data[b.pos as int];
        let next = b.pos + 1;
        match e {
            ValueView::SetWord(s) => if next < b.data.len() {
                (
                    KeyedView { pos: next, pending: Some((KeyView::Sym(s), true)), ..b },
                    KeyedStepView::EvaluateSpec { start: next },
                )
            } else {
                (
                    KeyedView { pos: next, entries: map_set(b.entries, KeyView::Sym(s), ValueView::NoneVal), ..b },
                    KeyedStepView::Continue,
                )
            },
            ValueView::Block(pair) => if pair.len() < 2 {
                (b, KeyedStepView::Failed(KeyedError::PairBlock(b.which)))
            } else {
                match key_of(pair[0]) {
                    None => (b, KeyedStepView::Failed(KeyedError::Unhashable(b.which, kind_of(pair[0])))),
                    Some(k) => (
                        KeyedView { pos: next, pending: Some((k, false)), ..b },
                        KeyedStepView::EvaluatePair { pair },
                    ),
                }
            },
            _ => match key_of(e) {
                None => (b, KeyedStepView::Failed(KeyedError::Unhashable(b.which, kind_of(e)))),
                Some(k) => if next < b.data.len() {
                    (
                        KeyedView { pos: next, pending: Some((k, true)), ..b },
                        KeyedStepView::EvaluateSpec { start: next },
                    )
                } else {
                    (
                        KeyedView { pos: next, entries: map_set(b.entries, k, ValueView::NoneVal), ..b },
                        KeyedStepView::Continue,
                    )
                },
            },
        }
    }
}

/// The walk once the pending key has its value (and, for a value from the
/// spec block, the walk goes on after the expression).
pub open spec fn keyed_resume_spec(b: KeyedView, v: ValueView, end: nat) -> KeyedView {
    let (k, in_spec) = b.pending->Some_0;
    KeyedView {
        pos: if in_spec {
            end
        } else {
            b.pos
        },
        entries: map_set(b.entries, k, v),
        pending: None,
        ..b
    }
}

/// The walk is sound: within its block, and with distinct keys.
pub open spec fn keyed_wf(b: KeyedView) -> bool {
    &&& b.pos <= b.data.len()
    &&& distinct_keys(b.entries)
}

/// No key occurs twice.
pub open spec fn distinct_keys(entries: Seq<(KeyView, ValueView)>) -> bool {
    forall|i: int, j: int| 0 <= i < j < entries.len() ==> entries[i].0 != entries[j].0
}

fn set_entry(entries: &mut Vec<(MapKey, Value)>, key: MapKey, val: Value)
    ensures
        view_keyed(final(entries)@) == map_set(view_keyed(old(entries)@), key@, val@),
{
    map_set_entry(entries, key, val);
}

impl KeyedBuild {
    /// One step of the walk. The caller evaluates what a step asks for and
    /// hands the value back (`resume_spec` or `resume_pair`) before the
    /// next step.
    pub fn step(&mut self) -> (r: KeyedStep)
        requires
            old(self).pending is None,
        ensures
            (final(self)@, r@) == keyed_step_spec(old(self)@),
    {
        let ghost b = self@;
        proof {
            lemma_view_items(self.data@);
        }
        if self.pos >= self.data.len() {
            let mut items: Vec<(MapKey, Value)> = Vec::new();
            let mut i: usize = 0;
            while i < self.entries.len()
                invariant
                    i <= self.entries@.len(),
                    view_keyed(items@) == view_keyed(self.entries@.take(i as int)),
                decreases self.entries@.len() - i,
            {
                let k = clone_key(&self.entries[i].0);
                let v = clone_value(&self.entries[i].1);
                let ghost before = items@;
                items.push((k, v));
                proof {
                    assert(items@.drop_last() =~= before);
                    assert(self.entries@.take(i + 1).drop_last() =~= self.entries@.take(i as int));
                }
                i = i + 1;
            }
            assert(self.entries@.take(self.entries@.len() as int) =~= self.entries@);
            let v = match self.which {
                KeyedKind::MapKind => Value::MapVal(items),
                KeyedKind::HashKind => Value::Hash(items),
            };
            return KeyedStep::Done(v);
        }
        let next = self.pos + 1;
        match &self.data[self.pos] {
            Value::SetWord(s) => {
                let key = MapKey::Sym(s.clone());
                if next < self.data.len() {
                    self.pending = Some((key, true));
                    self.pos = next;
                    KeyedStep::EvaluateSpec { start: next }
                } else {
                    set_entry(&mut self.entries, key, Value::NoneVal);
                    self.pos = next;
                    KeyedStep::Continue
                }
            },
            Value::Block(pair) => {
                proof {
                    lemma_view_items(pair@);
                }
                if pair.len() < 2 {
                    return KeyedStep::Failed(KeyedError::PairBlock(self.which));
                }
                match map_key_from(&pair[0]) {
                    None => KeyedStep::Failed(KeyedError::Unhashable(self.which, kind(&pair[0]))),
                    Some(k) => {
                        let copy = clone_items(pair);
                        self.pending = Some((k, false));
                        self.pos = next;
                        KeyedStep::EvaluatePair { pair: copy }
                    },
                }
            },
            e => match map_key_from(e) {
                None => KeyedStep::Failed(KeyedError::Unhashable(self.which, kind(e))),
                Some(k) => if next < self.data.len() {
                    self.pending = Some((k, true));
                    self.pos = next;
                    KeyedStep::EvaluateSpec { start: next }
                } else {
                    set_entry(&mut self.entries, k, Value::NoneVal);
                    self.pos = next;
                    KeyedStep::Continue
                },
            },
        }
    }

    /// Hands back the value of the expression an `EvaluateSpec` step asked
    /// for, and the position after it in the spec block.
    pub fn resume_spec(&mut self, v: Value, end: usize)
        requires
            old(self).pending matches Some((_, in_spec)) && in_spec,
            old(self).pos < end <= old(self).data@.len(),
        ensures
            final(self)@ == keyed_resume_spec(old(self)@, v@, end as nat),
    {
        let (k, _) = self.pending.take().unwrap();
        set_entry(&mut self.entries, k, v);
        self.pos = end;
    }

    /// Hands back the value of the expression an `EvaluatePair` step asked
    /// for.
    pub fn resume_pair(&mut self, v: Value)
        requires
            old(self).pending matches Some((_, in_spec)) && !in_spec,
        ensures
            final(self)@ == keyed_resume_spec(old(self)@, v@, 0),
    {
        let (k, _) = self.pending.take().unwrap();
        set_entry(&mut self.entries, k, v);
    }
}

// ---------------------------------------------------------------------------
// Starting
// ---------------------------------------------------------------------------

/// How `make map!`/`make hash!` starts.
pub enum KeyedStart {
    /// The container, built at once (from an object, a map or a hash).
    Built(Value),
    /// A spec block to walk.
    Walk(KeyedBuild),
}

pub enum KeyedStartView {
    Built(ValueView),
    Walk(KeyedView),
}

impl View for KeyedStart {
    type V = KeyedStartView;

    open spec fn view(&self) -> KeyedStartView {
        match self {
            KeyedStart::Built(v) => KeyedStartView::Built(v@),
            KeyedStart::Walk(b) => KeyedStartView::Walk(b@),
        }
    }
}

/// How `make map! spec` / `make hash! spec` starts.
pub open spec fn keyed_start_spec(which: KeyedKind, v: ValueView) -> Result<KeyedStartView, KeyedError> {
    match v {
        ValueView::Block(items) => Ok(
            KeyedStartView::Walk(
                KeyedView { which, data: items, pos: 0, entries: Seq::empty(), pending: None },
            ),
        ),
        ValueView::Object(fields) => Ok(
            KeyedStartView::Built(keyed_value(which, set_all(Seq::empty(), object_pairs(fields)))),
        ),
        ValueView::MapVal(entries) => Ok(
            KeyedStartView::Built(
                match which {
                    KeyedKind::MapKind => ValueView::MapVal(entries),
                    KeyedKind::HashKind => ValueView::Hash(set_all(Seq::empty(), entries)),
                },
            ),
        ),
        ValueView::Hash(entries) => match which {
            KeyedKind::HashKind => Ok(KeyedStartView::Built(ValueView::Hash(entries))),
            KeyedKind::MapKind => Err(KeyedError::BadSpec(which, kind_of(v))),
        },
        _ => Err(KeyedError::BadSpec(which, kind_of(v))),
    }
}

fn copy_entries(entries: &Vec<(MapKey, Value)>) -> (r: Vec<(MapKey, Value)>)
    ensures
        view_keyed(r@) == view_keyed(entries@),
{
    let mut items: Vec<(MapKey, Value)> = Vec::new();
    let mut i: usize = 0;
    while i < entries.len()
        invariant
            i <= entries@.len(),
            view_keyed(items@) == view_keyed(entries@.take(i as int)),
        decreases entries@.len() - i,
    {
        let k = clone_key(&entries[i].0);
        let v = clone_value(&entries[i].1);
        let ghost before = items@;
        items.push((k, v));
        proof {
            assert(items@.drop_last() =~= before);
            assert(entries@.take(i + 1).drop_last() =~= entries@.take(i as int));
        }
        i = i + 1;
    }
    assert(entries@.take(entries@.len() as int) =~= entries@);
    items
}

fn set_each(entries: &Vec<(MapKey, Value)>) -> (r: Vec<(MapKey, Value)>)
    ensures
        view_keyed(r@) == set_all(Seq::empty(), view_keyed(entries@)),
{
    let ghost es = view_keyed(entries@);
    proof {
        lemma_view_keyed(entries@);
    }
    let mut out: Vec<(MapKey, Value)> = Vec::new();
    let mut i: usize = 0;
    while i < entries.len()
        invariant
            i <= entries@.len(),
            es == view_keyed(entries@),
            es.len() == entries@.len(),
            forall|j: int| 0 <= j < entries@.len() ==> #[trigger] es[j] == (entries@[j].0@, entries@[j].1@),
            view_keyed(out@) == set_all(Seq::empty(), es.take(i as int)),
        decreases entries@.len() - i,
    {
        let k = clone_key(&entries[i].0);
        let v = clone_value(&entries[i].1);
        set_entry(&mut out, k, v);
        proof {
            assert(es.take(i + 1).drop_last() =~= es.take(i as int));
            assert(es.take(i + 1).last() == es[i as int]);
        }
        i = i + 1;
    }
    assert(es.take(es.len() as int) =~= es);
    out
}

fn object_entries(fields: &Vec<(String, Value)>) -> (r: Vec<(MapKey, Value)>)
    ensures
        view_keyed(r@) == set_all(Seq::empty(), object_pairs(view_fields(fields@))),
{
    let ghost fs = view_fields(fields@);
    proof {
        lemma_view_fields(fields@);
    }
    let self_word = String::from_str("self");
    let mut out: Vec<(MapKey, Value)> = Vec::new();
    let mut i: usize = 0;
    while i < fields.len()
        invariant
            i <= fields@.len(),
            fs == view_fields(fields@),
            fs.len() == fields@.len(),
            forall|j: int| 0 <= j < fields@.len() ==> #[trigger] fs[j] == (fields@[j].0@, fields@[j].1@),
            self_word@ == "self"@,
            view_keyed(out@) == set_all(Seq::empty(), object_pairs(fs.take(i as int))),
        decreases fields@.len() - i,
    {
        let ghost before = view_keyed(out@);
        proof {
            assert(fs.take(i + 1).drop_last() =~= fs.take(i as int));
            assert(fs.take(i + 1).last() == fs[i as int]);
        }
        if fields[i].0 != self_word {
            let k = MapKey::Sym(fields[i].0.clone());
            let v = clone_value(&fields[i].1);
            set_entry(&mut out, k, v);
            proof {
                let p = object_pairs(fs.take(i as int));
                assert(object_pairs(fs.take(i + 1)) == p.push((KeyView::Sym(fs[i as int].0), fs[i as int].1)));
                assert(p.push((KeyView::Sym(fs[i as int].0), fs[i as int].1)).drop_last() =~= p);
            }
        }
        i = i + 1;
    }
    assert(fs.take(fs.len() as int) =~= fs);
    out
}

/// `make map! spec` (`which` is `MapKind`) or `make hash! spec`
/// (`HashKind`): a block is walked (see `KeyedBuild`); an object gives its
/// words but `self` as symbol keys; a map (and, for a hash, a hash) is
/// copied.
pub fn keyed_start(which: KeyedKind, spec: &Value) -> (r: Result<KeyedStart, KeyedError>)
    ensures
        match keyed_start_spec(which, spec@) {
            Ok(s) => r matches Ok(x) && x@ == s,
            Err(e) => r == Err::<KeyedStart, KeyedError>(e),
        },
{
    match spec {
        Value::Block(items) => {
            let data = clone_items(items);
            let entries: Vec<(MapKey, Value)> = Vec::new();
            assert(view_keyed(entries@) =~= Seq::<(KeyView, ValueView)>::empty());
            Ok(KeyedStart::Walk(KeyedBuild { which, data, pos: 0, entries, pending: None }))
        },
        Value::Object(fields) => {
            let entries = object_entries(fields);
            Ok(
                KeyedStart::Built(
                    match which {
                        KeyedKind::MapKind => Value::MapVal(entries),
                        KeyedKind::HashKind => Value::Hash(entries),
                    },
                ),
            )
        },
        Value::MapVal(entries) => match which {
            KeyedKind::MapKind => Ok(KeyedStart::Built(Value::MapVal(copy_entries(entries)))),
            KeyedKind::HashKind => Ok(KeyedStart::Built(Value::Hash(set_each(entries)))),
        },
        Value::Hash(entries) => match which {
            KeyedKind::HashKind => Ok(KeyedStart::Built(Value::Hash(copy_entries(entries)))),
            KeyedKind::MapKind => Err(KeyedError::BadSpec(which, kind(spec))),
        },
        other => Err(KeyedError::BadSpec(which, kind(other))),
    }
}

/// `to-map value` / `to-hash value`: as `make map!`/`make hash!` of the
/// first argument.
pub fn to_keyed(which: KeyedKind, args: &[Value]) -> (r: Result<KeyedStart, KeyedError>)
    ensures
        args@.len() == 0 ==> r == Err::<KeyedStart, KeyedError>(KeyedError::Arity),
        args@.len() > 0 ==> match keyed_start_spec(which, args@[0]@) {
            Ok(s) => r matches Ok(x) && x@ == s,
            Err(e) => r == Err::<KeyedStart, KeyedError>(e),
        },
{
    if args.len() == 0 {
        return Err(KeyedError::Arity);
    }
    keyed_start(which, &args[0])
}

/// `hash? value`.
pub fn hash_predicate(args: &[Value]) -> (r: Result<Value, KeyedError>)
    ensures
        args@.len() == 0 ==> r == Err::<Value, KeyedError>(KeyedError::Arity),
        args@.len() > 0 ==> (r matches Ok(v) && v@ == ValueView::Logic(args@[0] is Hash)),
{
    if args.len() == 0 {
        return Err(KeyedError::Arity);
    }
    Ok(Value::Logic(matches!(args[0], Value::Hash(_))))
}

// ---------------------------------------------------------------------------
// What every step keeps
// ---------------------------------------------------------------------------

/// Setting a key keeps the keys distinct.
pub proof fn lemma_map_set_distinct(entries: Seq<(KeyView, ValueView)>, k: KeyView, v: ValueView)
    requires
        distinct_keys(entries),
    ensures
        distinct_keys(map_set(entries, k, v)),
{
    lemma_key_index_first(entries, k);
    let s = map_set(entries, k, v);
    let i = key_index(entries, k);
    assert forall|a: int, b: int| 0 <= a < b < s.len() implies s[a].0 != s[b].0 by {
        if i >= 0 {
            if a != i && b != i {
                assert(s[a] == entries[a] && s[b] == entries[b]);
            } else if a == i {
                assert(s[b] == entries[b]);
                assert(entries[i].0 == k);
            } else {
                assert(s[a] == entries[a]);
                assert(entries[i].0 == k);
            }
        } else {
            if b == entries.len() {
                assert(s[a] == entries[a]);
            } else {
                assert(s[a] == entries[a] && s[b] == entries[b]);
            }
        }
    }
}

/// Every step of a walk, and every value handed back, keeps the walk
/// within its block and the keys of the container distinct: a key set
/// twice keeps one entry, holding the later value.
pub proof fn law_keyed_walk_sound(b: KeyedView, v: ValueView, end: nat)
    requires
        keyed_wf(b),
    ensures
        b.pending is None ==> keyed_wf(keyed_step_spec(b).0),
        b.pending is Some && (b.pending->Some_0.1 ==> b.pos < end <= b.data.len()) ==> keyed_wf(
            keyed_resume_spec(b, v, end),
        ),
{
    if b.pending is None && b.pos < b.data.len() {
        let e = b.data[b.pos as int];
        match e {
            ValueView::SetWord(s) => {
                lemma_map_set_distinct(b.entries, KeyView::Sym(s), ValueView::NoneVal);
            },
            ValueView::Block(_) => {},
            _ => {
                if key_of(e) is Some {
                    lemma_map_set_distinct(b.entries, key_of(e)->Some_0, ValueView::NoneVal);
                }
            },
        }
    }
    if b.pending is Some {
        lemma_map_set_distinct(b.entries, b.pending->Some_0.0, v);
    }
}

} // verus!
