//! `map!` values: insertion-ordered tables from hashable keys to values,
//! and the natives `put`, `keys-of`, `map?` and the key lookups that paths
//! use.
use vstd::prelude::*;

use crate::value::{
    kind, kind_name, kind_of, lemma_view_items, lemma_view_keyed, view_items, view_keyed, Kind, KeyView, MapKey,
    Value, ValueView,
};

verus! {

broadcast use vstd::string::group_string_axioms;

/// The position of the first entry with key `key`, or -1.
pub open spec fn key_index(entries: Seq<(KeyView, ValueView)>, key: KeyView) -> int
    decreases entries.len(),
{
    if entries.len() == 0 {
        -1
    } else {
        let i = key_index(entries.drop_last(), key);
        if i >= 0 {
            i
        } else if entries.last().0 == key {
            entries.len() - 1
        } else {
            -1
        }
    }
}

/// `entries` with `key` set to `val`: in place when present, else appended
/// (`IndexMap::insert`).
pub open spec fn map_set(entries: Seq<(KeyView, ValueView)>, key: KeyView, val: ValueView) -> Seq<
    (KeyView, ValueView),
> {
    let i = key_index(entries, key);
    if i >= 0 {
        entries.update(i, (key, val))
    } else {
        entries.push((key, val))
    }
}


/// Whether two map keys are the same key.
pub fn key_eq(a: &MapKey, b: &MapKey) -> (r: bool)
    ensures
        r == (a@ == b@),
{
    match (a, b) {
        (MapKey::Sym(x), MapKey::Sym(y)) => *x == *y,
        (MapKey::Int(x), MapKey::Int(y)) => *x == *y,
        (MapKey::Str(x), MapKey::Str(y)) => *x == *y,
        (MapKey::Char(x), MapKey::Char(y)) => *x == *y,
        (MapKey::Bool(x), MapKey::Bool(y)) => *x == *y,
        (MapKey::Blank, MapKey::Blank) => true,
        _ => false,
    }
}

proof fn lemma_key_index_prefix(entries: Seq<(KeyView, ValueView)>, k: int, key: KeyView)
    requires
        0 <= k <= entries.len(),
    ensures
        key_index(entries.take(k), key) >= 0 ==> key_index(entries, key) == key_index(
            entries.take(k),
            key,
        ),
        key_index(entries.take(k), key) < k,
        key_index(entries.take(k), key) >= -1,
        key_index(entries.take(k), key) >= 0 ==> entries[key_index(entries.take(k), key)].0 == key,
    decreases entries.len(),
{
    if k == entries.len() {
        assert(entries.take(k) == entries);
        if entries.len() > 0 {
            lemma_key_index_prefix(entries.drop_last(), k - 1, key);
            assert(entries.drop_last().take(k - 1) == entries.drop_last());
        }
    } else {
        assert(entries.drop_last().take(k) == entries.take(k));
        lemma_key_index_prefix(entries.drop_last(), k, key);
    }
}

/// Sets `key` to `val` in `entries` (`IndexMap::insert`): in place when the
/// key is present, else appended.
pub fn map_set_entry(entries: &mut Vec<(MapKey, Value)>, key: MapKey, val: Value) -> (prev: Option<
    Value,
>)
    ensures
        view_keyed(final(entries)@) == map_set(view_keyed(old(entries)@), key@, val@),
        match prev {
            Some(p) => key_index(view_keyed(old(entries)@), key@) >= 0 && p@ == view_keyed(
                old(entries)@,
            )[key_index(view_keyed(old(entries)@), key@)].1,
            None => key_index(view_keyed(old(entries)@), key@) < 0,
        },
{
    let ghost vs = view_keyed(entries@);
    proof {
        lemma_view_keyed(entries@);
    }
    let mut i: usize = 0;
    while i < entries.len()
        invariant
            i <= entries@.len(),
            entries@ == old(entries)@,
            vs == view_keyed(entries@),
            vs.len() == entries@.len(),
            forall|j: int|
                0 <= j < entries@.len() ==> #[trigger] vs[j] == (
                    entries@[j].0@,
                    entries@[j].1@,
                ),
            key_index(vs.take(i as int), key@) == -1,
        decreases entries@.len() - i,
    {
        proof {
            assert(vs.take(i + 1).drop_last() == vs.take(i as int));
        }
        if key_eq(&entries[i].0, &key) {
            proof {
                assert(key_index(vs.take(i + 1), key@) == i);
                lemma_key_index_prefix(vs, i + 1, key@);
            }
            let ghost kv = key@;
            let ghost vv = val@;
            let ghost before = entries@;
            let (_, old_val) = entries.remove(i);
            entries.insert(i, (key, val));
            proof {
                assert(entries@ =~= before.update(i as int, (key, val)));
                lemma_view_keyed(entries@);
                assert(view_keyed(entries@) =~= vs.update(i as int, (kv, vv)));
            }
            return Some(old_val);
        }
        i = i + 1;
    }
    proof {
        assert(vs.take(i as int) == vs);
    }
    let ghost kv = key@;
    let ghost vv = val@;
    entries.push((key, val));
    proof {
        assert(entries@.drop_last() == old(entries)@);
    }
    None
}


// ---------------------------------------------------------------------------
// Keys
// ---------------------------------------------------------------------------

/// The key a value stands for: words, integers, strings, chars, logic
/// values and `none` are hashable; nothing else is.
pub open spec fn key_of(v: ValueView) -> Option<KeyView> {
    match v {
        ValueView::Word(s) => Some(KeyView::Sym(s)),
        ValueView::Integer(n) => Some(KeyView::Int(n)),
        ValueView::Str(s) => Some(KeyView::Str(s)),
        ValueView::Char(c) => Some(KeyView::Char(c)),
        ValueView::Logic(b) => Some(KeyView::Bool(b)),
        ValueView::NoneVal => Some(KeyView::Blank),
        _ => None,
    }
}

/// The value a key stands for (the inverse of `key_of`).
pub open spec fn key_value(k: KeyView) -> ValueView {
    match k {
        KeyView::Sym(s) => ValueView::Word(s),
        KeyView::Int(n) => ValueView::Integer(n),
        KeyView::Str(s) => ValueView::Str(s),
        KeyView::Char(c) => ValueView::Char(c),
        KeyView::Bool(b) => ValueView::Logic(b),
        KeyView::Blank => ValueView::NoneVal,
    }
}

/// Why a map native refused its arguments.
#[derive(Clone, Copy, Debug, PartialEq, Eq)]
pub enum MapError {
    /// The native was called with `got` arguments instead of `wanted`.
    Arity { wanted: usize, got: usize },
    /// A `map!` was expected; this datatype came.
    NotMap(Kind),
    /// A key of a datatype that cannot be hashed.
    Unhashable(Kind),
}

/// The message of a map native's error.
pub open spec fn map_error_message(e: MapError) -> Seq<char> {
    match e {
        MapError::Arity { .. } => "wrong number of arguments"@,
        MapError::NotMap(k) => "expected map!, found "@ + kind_name(k),
        MapError::Unhashable(k) => "map: key type "@ + kind_name(k) + " is not hashable"@,
    }
}

impl MapError {
    /// The error's message.
    pub fn message(&self) -> (r: String)
        ensures
            r@ == map_error_message(*self),
    {
        let mut out = String::new();
        match self {
            MapError::Arity { .. } => {
                out.append("wrong number of arguments");
            },
            MapError::NotMap(k) => {
                out.append("expected map!, found ");
                out.append(k.name());
            },
            MapError::Unhashable(k) => {
                out.append("map: key type ");
                out.append(k.name());
                out.append(" is not hashable");
            },
        }
        out
    }
}

fn str_copy(s: &String) -> (r: String)
    ensures
        r@ == s@,
{
    s.clone()
}

/// The key `v` stands for, if it is hashable (`MapKey::from_value`).
pub fn map_key_from(v: &Value) -> (r: Option<MapKey>)
    ensures
        match r {
            Some(k) => key_of(v@) == Some(k@),
            None => key_of(v@) is None,
        },
{
    match v {
        Value::Word(s) => Some(MapKey::Sym(str_copy(s))),
        Value::Integer(n) => Some(MapKey::Int(*n)),
        Value::Str(s) => Some(MapKey::Str(str_copy(s))),
        Value::Char(c) => Some(MapKey::Char(*c)),
        Value::Logic(b) => Some(MapKey::Bool(*b)),
        Value::NoneVal => Some(MapKey::Blank),
        _ => None,
    }
}

/// The key a path part names, or the unhashable-key error.
pub fn part_to_map_key(part: &Value) -> (r: Result<MapKey, MapError>)
    ensures
        match r {
            Ok(k) => key_of(part@) == Some(k@),
            Err(e) => key_of(part@) is None && e == MapError::Unhashable(kind_of(part@)),
        },
{
    match map_key_from(part) {
        Some(k) => Ok(k),
        None => Err(unhashable_key_error(part)),
    }
}

/// The error for a key of an unhashable datatype.
pub fn unhashable_key_error(key: &Value) -> (e: MapError)
    ensures
        e == MapError::Unhashable(kind_of(key@)),
{
    MapError::Unhashable(kind(key))
}

fn key_to_value(k: &MapKey) -> (v: Value)
    ensures
        v@ == key_value(k@),
{
    match k {
        MapKey::Sym(s) => Value::Word(str_copy(s)),
        MapKey::Int(n) => Value::Integer(*n),
        MapKey::Str(s) => Value::Str(str_copy(s)),
        MapKey::Char(c) => Value::Char(*c),
        MapKey::Bool(b) => Value::Logic(*b),
        MapKey::Blank => Value::NoneVal,
    }
}

// ---------------------------------------------------------------------------
// Lookups
// ---------------------------------------------------------------------------

/// The value stored under `key`, if any.
pub open spec fn lookup(entries: Seq<(KeyView, ValueView)>, key: KeyView) -> Option<ValueView> {
    let i = key_index(entries, key);
    if i >= 0 {
        Some(entries[i].1)
    } else {
        None
    }
}

/// The value stored under `key` (`select` on a map); `None` stands for
/// `none`.
pub fn select_map_key<'a>(entries: &'a Vec<(MapKey, Value)>, key: &MapKey) -> (r: Option<&'a Value>)
    ensures
        match r {
            Some(v) => lookup(view_keyed(entries@), key@) == Some(v@),
            None => lookup(view_keyed(entries@), key@) is None,
        },
{
    let ghost vs = view_keyed(entries@);
    proof {
        lemma_view_keyed(entries@);
    }
    let mut i: usize = 0;
    while i < entries.len()
        invariant
            i <= entries@.len(),
            vs == view_keyed(entries@),
            vs.len() == entries@.len(),
            forall|j: int|
                0 <= j < entries@.len() ==> #[trigger] vs[j] == (entries@[j].0@, entries@[j].1@),
            key_index(vs.take(i as int), key@) == -1,
        decreases entries@.len() - i,
    {
        proof {
            assert(vs.take(i + 1).drop_last() == vs.take(i as int));
        }
        if key_eq(&entries[i].0, key) {
            proof {
                assert(key_index(vs.take(i + 1), key@) == i);
                lemma_key_index_prefix(vs, i + 1, key@);
            }
            return Some(&entries[i].1);
        }
        i = i + 1;
    }
    proof {
        assert(vs.take(i as int) == vs);
    }
    None
}

/// `m/word`: the value under the symbol `sym`, falling back to the string
/// key of the same spelling; `None` stands for `none`.
pub fn select_map_field<'a>(entries: &'a Vec<(MapKey, Value)>, sym: &String) -> (r: Option<&'a Value>)
    ensures
        match lookup(view_keyed(entries@), KeyView::Sym(sym@)) {
            Some(v) => (r matches Some(x) && x@ == v),
            None => match r {
                Some(x) => lookup(view_keyed(entries@), KeyView::Str(sym@)) == Some(x@),
                None => lookup(view_keyed(entries@), KeyView::Str(sym@)) is None,
            },
        },
{
    let k = MapKey::Sym(str_copy(sym));
    match select_map_key(entries, &k) {
        Some(v) => Some(v),
        None => select_map_key(entries, &MapKey::Str(str_copy(sym))),
    }
}

// ---------------------------------------------------------------------------
// Natives
// ---------------------------------------------------------------------------

/// Every element of `args` by its view.
pub open spec fn value_views(args: Seq<Value>) -> Seq<ValueView> {
    args.map_values(|v: Value| v@)
}

/// What `put map key value` does: the map with `key` set to `value`, and
/// the value that was there before (`none` for a new key).
pub open spec fn put_spec(args: Seq<ValueView>) -> Result<(ValueView, ValueView), MapError> {
    if args.len() != 3 {
        Err(MapError::Arity { wanted: 3, got: args.len() as usize })
    } else {
        match args[0] {
            ValueView::MapVal(entries) => match key_of(args[1]) {
                Some(k) => Ok(
                    (
                        ValueView::MapVal(map_set(entries, k, args[2])),
                        match lookup(entries, k) {
                            Some(prev) => prev,
                            None => ValueView::NoneVal,
                        },
                    ),
                ),
                None => Err(MapError::Unhashable(kind_of(args[1]))),
            },
            _ => Err(MapError::NotMap(kind_of(args[0]))),
        }
    }
}

/// `put map key value`: sets `key` to `value` in the map; answers the map
/// as it is afterwards and the value the key held before (`none` if new).
pub fn put_native(args: Vec<Value>) -> (r: Result<(Value, Value), MapError>)
    ensures
        match r {
            Ok((m, prev)) => put_spec(value_views(args@)) == Ok::<(ValueView, ValueView), MapError>(
                (m@, prev@),
            ),
            Err(e) => put_spec(value_views(args@)) == Err::<(ValueView, ValueView), MapError>(e),
        },
{
    let mut args = args;
    let ghost a = args@;
    if args.len() != 3 {
        return Err(MapError::Arity { wanted: 3, got: args.len() });
    }
    proof {
        assert(value_views(a)[0] == a[0]@);
        assert(value_views(a)[1] == a[1]@);
        assert(value_views(a)[2] == a[2]@);
    }
    if !matches!(args[0], Value::MapVal(_)) {
        return Err(MapError::NotMap(kind(&args[0])));
    }
    let key = match map_key_from(&args[1]) {
        Some(k) => k,
        None => return Err(unhashable_key_error(&args[1])),
    };
    let val = args.pop().unwrap();
    let _ = args.pop();
    let target = args.pop().unwrap();
    match target {
        Value::MapVal(mut entries) => {
            let ghost before = view_keyed(entries@);
            let prev = map_set_entry(&mut entries, key, val);
            let prev_val = match prev {
                Some(p) => p,
                None => Value::NoneVal,
            };
            Ok((Value::MapVal(entries), prev_val))
        },
        _ => Err(MapError::NotMap(Kind::Blank)),
    }
}

/// `map? value`.
pub fn map_predicate(args: &[Value]) -> (r: Result<Value, MapError>)
    ensures
        args@.len() == 0 ==> r == Err::<Value, MapError>(MapError::Arity { wanted: 1, got: 0 }),
        args@.len() > 0 ==> (r matches Ok(v) && v@ == ValueView::Logic(args@[0] is MapVal)),
{
    if args.len() == 0 {
        return Err(MapError::Arity { wanted: 1, got: 0 });
    }
    Ok(Value::Logic(matches!(args[0], Value::MapVal(_))))
}

/// The keys of `entries`, as values, in insertion order.
pub open spec fn keys_spec(entries: Seq<(KeyView, ValueView)>) -> Seq<ValueView> {
    Seq::new(entries.len(), |i: int| key_value(entries[i].0))
}

/// `keys-of map`: a block of the map's keys in insertion order.
pub fn keys_of_native(args: &[Value]) -> (r: Result<Value, MapError>)
    ensures
        args@.len() != 1 ==> r == Err::<Value, MapError>(
            MapError::Arity { wanted: 1, got: args@.len() as usize },
        ),
        args@.len() == 1 ==> match args@[0]@ {
            ValueView::MapVal(entries) => (r matches Ok(v) && v@ == ValueView::Block(
                keys_spec(entries),
            )),
            _ => r == Err::<Value, MapError>(MapError::NotMap(kind_of(args@[0]@))),
        },
{
    if args.len() != 1 {
        return Err(MapError::Arity { wanted: 1, got: args.len() });
    }
    match &args[0] {
        Value::MapVal(entries) => {
            let ghost vs = view_keyed(entries@);
            proof {
                lemma_view_keyed(entries@);
            }
            let mut out: Vec<Value> = Vec::new();
            let mut i: usize = 0;
            while i < entries.len()
                invariant
                    i <= entries@.len(),
                    vs == view_keyed(entries@),
                    vs.len() == entries@.len(),
                    forall|j: int|
                        0 <= j < entries@.len() ==> #[trigger] vs[j] == (
                            entries@[j].0@,
                            entries@[j].1@,
                        ),
                    out@.len() == i,
                    forall|j: int| 0 <= j < i ==> #[trigger] out@[j]@ == key_value(vs[j].0),
                decreases entries@.len() - i,
            {
                out.push(key_to_value(&entries[i].0));
                i = i + 1;
            }
            proof {
                lemma_view_items(out@);
                assert forall|j: int| 0 <= j < out@.len() implies view_items(out@)[j] == keys_spec(
                    vs,
                )[j] by {
                    assert(out@[j]@ == key_value(vs[j].0));
                }
                assert(view_items(out@) =~= keys_spec(vs));
            }
            Ok(Value::Block(out))
        },
        other => Err(MapError::NotMap(kind(other))),
    }
}

// ---------------------------------------------------------------------------
// Laws
// ---------------------------------------------------------------------------

/// A value put under a key is what a lookup of that key finds afterwards,
/// and every other key keeps what it held.
pub proof fn law_put_then_select(
    entries: Seq<(KeyView, ValueView)>,
    key: KeyView,
    val: ValueView,
    other: KeyView,
)
    requires
        other != key,
    ensures
        lookup(map_set(entries, key, val), key) == Some(val),
        lookup(map_set(entries, key, val), other) == lookup(entries, other),
{
    let s = map_set(entries, key, val);
    lemma_key_index_first(entries, key);
    lemma_key_index_first(entries, other);
    lemma_key_index_first(s, key);
    lemma_key_index_first(s, other);
    let i = key_index(entries, key);
    let io = key_index(entries, other);
    let si = key_index(s, key);
    let so = key_index(s, other);
    if i >= 0 {
        assert(s == entries.update(i, (key, val)));
        assert(s[i].0 == key);
        if si < i {
            assert(s[si] == entries[si]);
        }
        assert(si == i);
        if io >= 0 {
            assert(io != i);
            assert(s[io] == entries[io]);
            assert(s[io].0 == other);
            if so < io {
                assert(s[so] == entries[so]);
                assert(so != i);
            }
            assert(so == io);
        } else {
            if so >= 0 {
                assert(so != i);
                assert(s[so] == entries[so]);
            }
        }
    } else {
        assert(s == entries.push((key, val)));
        let n = entries.len() as int;
        assert(s[n].0 == key);
        if si < n {
            assert(s[si] == entries[si]);
        }
        assert(si == n);
        if io >= 0 {
            assert(s[io] == entries[io]);
            if so < io {
                assert(s[so] == entries[so]);
            }
            assert(so == io);
        } else {
            if so >= 0 {
                assert(so != n);
                assert(s[so] == entries[so]);
            }
        }
    }
}

/// `key_index` finds the first entry holding the key, and -1 only when no
/// entry holds it.
pub proof fn lemma_key_index_first(entries: Seq<(KeyView, ValueView)>, key: KeyView)
    ensures
        -1 <= key_index(entries, key) < entries.len(),
        key_index(entries, key) >= 0 ==> entries[key_index(entries, key)].0 == key,
        forall|j: int|
            0 <= j < entries.len() && #[trigger] entries[j].0 == key ==> 0 <= key_index(entries, key)
                <= j,
    decreases entries.len(),
{
    if entries.len() > 0 {
        let d = entries.drop_last();
        lemma_key_index_first(d, key);
        assert forall|j: int| 0 <= j < entries.len() && #[trigger] entries[j].0 == key implies 0
            <= key_index(entries, key) <= j by {
            if j < entries.len() - 1 {
                assert(d[j] == entries[j]);
            }
        }
        if key_index(d, key) >= 0 {
            assert(d[key_index(d, key)] == entries[key_index(d, key)]);
        }
    }
}

} // verus!
