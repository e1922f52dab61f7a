//! The value model that the natives of this crate read and build.
//!
//! `Value` holds, as plain data, everything the codecs, the JSON and HTML
//! dialects and the arithmetic read of a Red value. Its ghost counterpart
//! `ValueView` replaces every `String` by the `Seq<char>` it holds, so that
//! contracts can speak of text extensionally.
use vstd::prelude::*;

verus! {

/// A float, as seen from code that cannot hold one: its decimal spelling
/// (the `{:?}` rendering, or the literal as written when it was read from
/// text) and whether it is finite (false for NaN and the infinities).
#[derive(Clone, Debug, PartialEq)]
pub struct FloatText {
    pub text: String,
    pub finite: bool,
}

/// A calendar date with an optional time of day and an optional zone offset
/// (in minutes east of UTC).
#[derive(Clone, Copy, Debug, PartialEq, Eq)]
pub struct DateValue {
    pub year: i32,
    pub month: u8,
    pub day: u8,
    pub time: Option<(u8, u8, u8)>,
    pub zone: Option<i32>,
}

/// The keys a `map!`/`hash!` can hold: the hashable subset of values.
#[derive(Clone, Debug, PartialEq)]
pub enum MapKey {
    Sym(String),
    Int(i64),
    Str(String),
    Char(char),
    Bool(bool),
    Blank,
}

/// The value kinds that have no data the natives here read.
#[derive(Clone, Copy, Debug, PartialEq, Eq)]
pub enum Opaque {
    Function,
    Closure,
    Module,
    Port,
    Typeset,
    Vector,
    Image,
}

/// An `error!`: its type word, code and message, its arguments, and the
/// value it was raised near.
#[derive(Debug, PartialEq)]
pub struct ErrorValue {
    pub kind: Option<String>,
    pub code: Option<i64>,
    pub message: String,
    pub args: Vec<Value>,
    pub near: Option<Box<Value>>,
}

/// A Red value.
#[derive(Debug, PartialEq)]
pub enum Value {
    NoneVal,
    Unset,
    Logic(bool),
    Integer(i64),
    Float(FloatText),
    /// A `decimal!`: `mantissa * 10^-scale`.
    Decimal { mantissa: i128, scale: u32 },
    Percent(FloatText),
    Str(String),
    Char(char),
    Block(Vec<Value>),
    Paren(Vec<Value>),
    MapVal(Vec<(MapKey, Value)>),
    Hash(Vec<(MapKey, Value)>),
    /// An `object!`: its words, in order, with their values.
    Object(Vec<(String, Value)>),
    Tuple(Vec<u8>),
    Pair(Box<Value>, Box<Value>),
    Tag(String),
    Issue(String),
    Email(String),
    File(String),
    Url(String),
    Money { cents: i64, currency: String },
    Date(DateValue),
    /// A `duration!`, by its length in seconds.
    Duration(FloatText),
    Binary(Vec<u8>),
    Word(String),
    SetWord(String),
    GetWord(String),
    LitWord(String),
    Refinement(String),
    /// A path of one of the four path kinds, by its molded text.
    Path(String),
    GetPath(String),
    LitPath(String),
    SetPath(String),
    /// A `bitset!`: bit `i` is set iff `bits[i]`.
    Bitset(Vec<bool>),
    Error(ErrorValue),
    Other(Opaque),
}

pub struct FloatView {
    pub text: Seq<char>,
    pub finite: bool,
}

pub enum KeyView {
    Sym(Seq<char>),
    Int(i64),
    Str(Seq<char>),
    Char(char),
    Bool(bool),
    Blank,
}

/// `Value` with every `String` replaced by its characters.
pub enum ValueView {
    NoneVal,
    Unset,
    Logic(bool),
    Integer(i64),
    Float(FloatView),
    Decimal { mantissa: i128, scale: u32 },
    Percent(FloatView),
    Str(Seq<char>),
    Char(char),
    Block(Seq<ValueView>),
    Paren(Seq<ValueView>),
    MapVal(Seq<(KeyView, ValueView)>),
    Hash(Seq<(KeyView, ValueView)>),
    Object(Seq<(Seq<char>, ValueView)>),
    Tuple(Seq<u8>),
    Pair(Box<ValueView>, Box<ValueView>),
    Tag(Seq<char>),
    Issue(Seq<char>),
    Email(Seq<char>),
    File(Seq<char>),
    Url(Seq<char>),
    Money { cents: i64, currency: Seq<char> },
    Date(DateValue),
    Duration(FloatView),
    Binary(Seq<u8>),
    Word(Seq<char>),
    SetWord(Seq<char>),
    GetWord(Seq<char>),
    LitWord(Seq<char>),
    Refinement(Seq<char>),
    Path(Seq<char>),
    GetPath(Seq<char>),
    LitPath(Seq<char>),
    SetPath(Seq<char>),
    Bitset(Seq<bool>),
    Error(ErrorView),
    Other(Opaque),
}

/// `ErrorValue` with its texts as characters.
pub struct ErrorView {
    pub kind: Option<Seq<char>>,
    pub code: Option<i64>,
    pub message: Seq<char>,
    pub args: Seq<ValueView>,
    pub near: Option<Box<ValueView>>,
}

pub open spec fn float_view(f: FloatText) -> FloatView {
    FloatView { text: f.text@, finite: f.finite }
}

pub open spec fn key_view(k: MapKey) -> KeyView {
    match k {
        MapKey::Sym(s) => KeyView::Sym(s@),
        MapKey::Int(n) => KeyView::Int(n),
        MapKey::Str(s) => KeyView::Str(s@),
        MapKey::Char(c) => KeyView::Char(c),
        MapKey::Bool(b) => KeyView::Bool(b),
        MapKey::Blank => KeyView::Blank,
    }
}

pub open spec fn view_items(items: Seq<Value>) -> Seq<ValueView>
    decreases items,
{
    if items.len() == 0 {
        Seq::empty()
    } else {
        view_items(items.drop_last()).push(view_value(items.last()))
    }
}

pub open spec fn view_keyed(items: Seq<(MapKey, Value)>) -> Seq<(KeyView, ValueView)>
    decreases items,
{
    if items.len() == 0 {
        Seq::empty()
    } else {
        let last = items.last();
        view_keyed(items.drop_last()).push((key_view(last.0), view_value(last.1)))
    }
}

pub open spec fn view_fields(items: Seq<(String, Value)>) -> Seq<(Seq<char>, ValueView)>
    decreases items,
{
    if items.len() == 0 {
        Seq::empty()
    } else {
        let last = items.last();
        view_fields(items.drop_last()).push((last.0@, view_value(last.1)))
    }
}

pub open spec fn view_value(v: Value) -> ValueView
    decreases v,
{
    match v {
        Value::NoneVal => ValueView::NoneVal,
        Value::Unset => ValueView::Unset,
        Value::Logic(b) => ValueView::Logic(b),
        Value::Integer(n) => ValueView::Integer(n),
        Value::Float(f) => ValueView::Float(float_view(f)),
        Value::Decimal { mantissa, scale } => ValueView::Decimal { mantissa, scale },
        Value::Percent(f) => ValueView::Percent(float_view(f)),
        Value::Str(s) => ValueView::Str(s@),
        Value::Char(c) => ValueView::Char(c),
        Value::Block(items) => ValueView::Block(view_items(items@)),
        Value::Paren(items) => ValueView::Paren(view_items(items@)),
        Value::MapVal(items) => ValueView::MapVal(view_keyed(items@)),
        Value::Hash(items) => ValueView::Hash(view_keyed(items@)),
        Value::Object(items) => ValueView::Object(view_fields(items@)),
        Value::Tuple(b) => ValueView::Tuple(b@),
        Value::Pair(x, y) => ValueView::Pair(Box::new(view_value(*x)), Box::new(view_value(*y))),
        Value::Tag(s) => ValueView::Tag(s@),
        Value::Issue(s) => ValueView::Issue(s@),
        Value::Email(s) => ValueView::Email(s@),
        Value::File(s) => ValueView::File(s@),
        Value::Url(s) => ValueView::Url(s@),
        Value::Money { cents, currency } => ValueView::Money { cents, currency: currency@ },
        Value::Date(d) => ValueView::Date(d),
        Value::Duration(f) => ValueView::Duration(float_view(f)),
        Value::Binary(b) => ValueView::Binary(b@),
        Value::Word(s) => ValueView::Word(s@),
        Value::SetWord(s) => ValueView::SetWord(s@),
        Value::GetWord(s) => ValueView::GetWord(s@),
        Value::LitWord(s) => ValueView::LitWord(s@),
        Value::Refinement(s) => ValueView::Refinement(s@),
        Value::Path(s) => ValueView::Path(s@),
        Value::GetPath(s) => ValueView::GetPath(s@),
        Value::LitPath(s) => ValueView::LitPath(s@),
        Value::SetPath(s) => ValueView::SetPath(s@),
        Value::Bitset(b) => ValueView::Bitset(b@),
        Value::Error(e) => ValueView::Error(
            ErrorView {
                kind: match e.kind {
                    Some(k) => Some(k@),
                    None => None,
                },
                code: e.code,
                message: e.message@,
                args: view_items(e.args@),
                near: match e.near {
                    Some(b) => Some(Box::new(view_value(*b))),
                    None => None,
                },
            },
        ),
        Value::Other(o) => ValueView::Other(o),
    }
}

/// The datatype of a value (`integer!`, `block!`, ...).
#[derive(Clone, Copy, Debug, PartialEq, Eq)]
pub enum Kind {
    Blank,
    Unset,
    Logic,
    Integer,
    Float,
    Decimal,
    Percent,
    Str,
    Char,
    Block,
    Paren,
    MapVal,
    Hash,
    Object,
    Tuple,
    Pair,
    Tag,
    Issue,
    Email,
    File,
    Url,
    Money,
    Date,
    Duration,
    Binary,
    Word,
    SetWord,
    GetWord,
    LitWord,
    Refinement,
    Path,
    GetPath,
    LitPath,
    SetPath,
    Bitset,
    Error,
    Other(Opaque),
}

/// The datatype of `v`.
pub open spec fn kind_of(v: ValueView) -> Kind {
    match v {
        ValueView::NoneVal => Kind::Blank,
        ValueView::Unset => Kind::Unset,
        ValueView::Logic(_) => Kind::Logic,
        ValueView::Integer(_) => Kind::Integer,
        ValueView::Float(_) => Kind::Float,
        ValueView::Decimal { .. } => Kind::Decimal,
        ValueView::Percent(_) => Kind::Percent,
        ValueView::Str(_) => Kind::Str,
        ValueView::Char(_) => Kind::Char,
        ValueView::Block(_) => Kind::Block,
        ValueView::Paren(_) => Kind::Paren,
        ValueView::MapVal(_) => Kind::MapVal,
        ValueView::Hash(_) => Kind::Hash,
        ValueView::Object(_) => Kind::Object,
        ValueView::Tuple(_) => Kind::Tuple,
        ValueView::Pair(_, _) => Kind::Pair,
        ValueView::Tag(_) => Kind::Tag,
        ValueView::Issue(_) => Kind::Issue,
        ValueView::Email(_) => Kind::Email,
        ValueView::File(_) => Kind::File,
        ValueView::Url(_) => Kind::Url,
        ValueView::Money { .. } => Kind::Money,
        ValueView::Date(_) => Kind::Date,
        ValueView::Duration(_) => Kind::Duration,
        ValueView::Binary(_) => Kind::Binary,
        ValueView::Word(_) => Kind::Word,
        ValueView::SetWord(_) => Kind::SetWord,
        ValueView::GetWord(_) => Kind::GetWord,
        ValueView::LitWord(_) => Kind::LitWord,
        ValueView::Refinement(_) => Kind::Refinement,
        ValueView::Path(_) => Kind::Path,
        ValueView::GetPath(_) => Kind::GetPath,
        ValueView::LitPath(_) => Kind::LitPath,
        ValueView::SetPath(_) => Kind::SetPath,
        ValueView::Bitset(_) => Kind::Bitset,
        ValueView::Error(_) => Kind::Error,
        ValueView::Other(o) => Kind::Other(o),
    }
}

/// The datatype of `v`.
pub fn kind(v: &Value) -> (k: Kind)
    ensures
        k == kind_of(v@),
{
    match v {
        Value::NoneVal => Kind::Blank,
        Value::Unset => Kind::Unset,
        Value::Logic(_) => Kind::Logic,
        Value::Integer(_) => Kind::Integer,
        Value::Float(_) => Kind::Float,
        Value::Decimal { .. } => Kind::Decimal,
        Value::Percent(_) => Kind::Percent,
        Value::Str(_) => Kind::Str,
        Value::Char(_) => Kind::Char,
        Value::Block(_) => Kind::Block,
        Value::Paren(_) => Kind::Paren,
        Value::MapVal(_) => Kind::MapVal,
        Value::Hash(_) => Kind::Hash,
        Value::Object(_) => Kind::Object,
        Value::Tuple(_) => Kind::Tuple,
        Value::Pair(_, _) => Kind::Pair,
        Value::Tag(_) => Kind::Tag,
        Value::Issue(_) => Kind::Issue,
        Value::Email(_) => Kind::Email,
        Value::File(_) => Kind::File,
        Value::Url(_) => Kind::Url,
        Value::Money { .. } => Kind::Money,
        Value::Date(_) => Kind::Date,
        Value::Duration(_) => Kind::Duration,
        Value::Binary(_) => Kind::Binary,
        Value::Word(_) => Kind::Word,
        Value::SetWord(_) => Kind::SetWord,
        Value::GetWord(_) => Kind::GetWord,
        Value::LitWord(_) => Kind::LitWord,
        Value::Refinement(_) => Kind::Refinement,
        Value::Path(_) => Kind::Path,
        Value::GetPath(_) => Kind::GetPath,
        Value::LitPath(_) => Kind::LitPath,
        Value::SetPath(_) => Kind::SetPath,
        Value::Bitset(_) => Kind::Bitset,
        Value::Error(_) => Kind::Error,
        Value::Other(o) => Kind::Other(*o),
    }
}

/// The datatype's name, as Red prints it.
pub open spec fn kind_name(k: Kind) -> Seq<char> {
    match k {
        Kind::Blank => "none!"@,
        Kind::Unset => "unset!"@,
        Kind::Logic => "logic!"@,
        Kind::Integer => "integer!"@,
        Kind::Float => "float!"@,
        Kind::Decimal => "decimal!"@,
        Kind::Percent => "percent!"@,
        Kind::Str => "string!"@,
        Kind::Char => "char!"@,
        Kind::Block => "block!"@,
        Kind::Paren => "paren!"@,
        Kind::MapVal => "map!"@,
        Kind::Hash => "hash!"@,
        Kind::Object => "object!"@,
        Kind::Tuple => "tuple!"@,
        Kind::Pair => "pair!"@,
        Kind::Tag => "tag!"@,
        Kind::Issue => "issue!"@,
        Kind::Email => "email!"@,
        Kind::File => "file!"@,
        Kind::Url => "url!"@,
        Kind::Money => "money!"@,
        Kind::Date => "date!"@,
        Kind::Duration => "duration!"@,
        Kind::Binary => "binary!"@,
        Kind::Word => "word!"@,
        Kind::SetWord => "set-word!"@,
        Kind::GetWord => "get-word!"@,
        Kind::LitWord => "lit-word!"@,
        Kind::Refinement => "refinement!"@,
        Kind::Path => "path!"@,
        Kind::GetPath => "get-path!"@,
        Kind::LitPath => "lit-path!"@,
        Kind::SetPath => "set-path!"@,
        Kind::Bitset => "bitset!"@,
        Kind::Error => "error!"@,
        Kind::Other(Opaque::Function) => "function!"@,
        Kind::Other(Opaque::Closure) => "function!"@,
        Kind::Other(Opaque::Module) => "module!"@,
        Kind::Other(Opaque::Port) => "port!"@,
        Kind::Other(Opaque::Typeset) => "typeset!"@,
        Kind::Other(Opaque::Vector) => "vector!"@,
        Kind::Other(Opaque::Image) => "image!"@,
    }
}

impl Kind {
    /// The datatype's name, as Red prints it.
    pub fn name(&self) -> (r: &'static str)
        ensures
            r@ == kind_name(*self),
    {
        match self {
            Kind::Blank => "none!",
            Kind::Unset => "unset!",
            Kind::Logic => "logic!",
            Kind::Integer => "integer!",
            Kind::Float => "float!",
            Kind::Decimal => "decimal!",
            Kind::Percent => "percent!",
            Kind::Str => "string!",
            Kind::Char => "char!",
            Kind::Block => "block!",
            Kind::Paren => "paren!",
            Kind::MapVal => "map!",
            Kind::Hash => "hash!",
            Kind::Object => "object!",
            Kind::Tuple => "tuple!",
            Kind::Pair => "pair!",
            Kind::Tag => "tag!",
            Kind::Issue => "issue!",
            Kind::Email => "email!",
            Kind::File => "file!",
            Kind::Url => "url!",
            Kind::Money => "money!",
            Kind::Date => "date!",
            Kind::Duration => "duration!",
            Kind::Binary => "binary!",
            Kind::Word => "word!",
            Kind::SetWord => "set-word!",
            Kind::GetWord => "get-word!",
            Kind::LitWord => "lit-word!",
            Kind::Refinement => "refinement!",
            Kind::Path => "path!",
            Kind::GetPath => "get-path!",
            Kind::LitPath => "lit-path!",
            Kind::SetPath => "set-path!",
            Kind::Bitset => "bitset!",
            Kind::Error => "error!",
            Kind::Other(Opaque::Function) => "function!",
            Kind::Other(Opaque::Closure) => "function!",
            Kind::Other(Opaque::Module) => "module!",
            Kind::Other(Opaque::Port) => "port!",
            Kind::Other(Opaque::Typeset) => "typeset!",
            Kind::Other(Opaque::Vector) => "vector!",
            Kind::Other(Opaque::Image) => "image!",
        }
    }
}

/// Red's truthiness: every value but `none` and `false` is true.
pub open spec fn truthy_spec(v: ValueView) -> bool {
    !(v is NoneVal || v == ValueView::Logic(false))
}

/// Red's truthiness: every value but `none` and `false` is true.
pub fn truthy(v: &Value) -> (r: bool)
    ensures
        r == truthy_spec(v@),
{
    match v {
        Value::NoneVal => false,
        Value::Logic(b) => *b,
        _ => true,
    }
}

/// A copy of a key.
pub fn clone_key(k: &MapKey) -> (r: MapKey)
    ensures
        r@ == k@,
{
    match k {
        MapKey::Sym(s) => MapKey::Sym(s.clone()),
        MapKey::Int(n) => MapKey::Int(*n),
        MapKey::Str(s) => MapKey::Str(s.clone()),
        MapKey::Char(c) => MapKey::Char(*c),
        MapKey::Bool(b) => MapKey::Bool(*b),
        MapKey::Blank => MapKey::Blank,
    }
}

fn clone_bytes(b: &Vec<u8>) -> (r: Vec<u8>)
    ensures
        r@ == b@,
{
    let r = b.clone();
    assert(r@ =~= b@);
    r
}

fn clone_bits(b: &Vec<bool>) -> (r: Vec<bool>)
    ensures
        r@ == b@,
{
    let r = b.clone();
    assert(r@ =~= b@);
    r
}

fn clone_float(f: &FloatText) -> (r: FloatText)
    ensures
        float_view(r) == float_view(*f),
{
    FloatText { text: f.text.clone(), finite: f.finite }
}

/// A deep copy of a value.
pub fn clone_value(v: &Value) -> (r: Value)
    ensures
        r@ == v@,
    decreases v, 1nat,
{
    match v {
        Value::NoneVal => Value::NoneVal,
        Value::Unset => Value::Unset,
        Value::Logic(b) => Value::Logic(*b),
        Value::Integer(n) => Value::Integer(*n),
        Value::Float(f) => Value::Float(clone_float(f)),
        Value::Decimal { mantissa, scale } => Value::Decimal { mantissa: *mantissa, scale: *scale },
        Value::Percent(f) => Value::Percent(clone_float(f)),
        Value::Str(s) => Value::Str(s.clone()),
        Value::Char(c) => Value::Char(*c),
        Value::Block(items) => Value::Block(clone_items(items)),
        Value::Paren(items) => Value::Paren(clone_items(items)),
        Value::MapVal(items) => Value::MapVal(clone_keyed(items)),
        Value::Hash(items) => Value::Hash(clone_keyed(items)),
        Value::Object(items) => Value::Object(clone_fields(items)),
        Value::Tuple(b) => Value::Tuple(clone_bytes(b)),
        Value::Pair(x, y) => Value::Pair(Box::new(clone_value(x)), Box::new(clone_value(y))),
        Value::Tag(s) => Value::Tag(s.clone()),
        Value::Issue(s) => Value::Issue(s.clone()),
        Value::Email(s) => Value::Email(s.clone()),
        Value::File(s) => Value::File(s.clone()),
        Value::Url(s) => Value::Url(s.clone()),
        Value::Money { cents, currency } => Value::Money { cents: *cents, currency: currency.clone() },
        Value::Date(d) => Value::Date(*d),
        Value::Duration(f) => Value::Duration(clone_float(f)),
        Value::Binary(b) => Value::Binary(clone_bytes(b)),
        Value::Word(s) => Value::Word(s.clone()),
        Value::SetWord(s) => Value::SetWord(s.clone()),
        Value::GetWord(s) => Value::GetWord(s.clone()),
        Value::LitWord(s) => Value::LitWord(s.clone()),
        Value::Refinement(s) => Value::Refinement(s.clone()),
        Value::Path(s) => Value::Path(s.clone()),
        Value::GetPath(s) => Value::GetPath(s.clone()),
        Value::LitPath(s) => Value::LitPath(s.clone()),
        Value::SetPath(s) => Value::SetPath(s.clone()),
        Value::Bitset(b) => Value::Bitset(clone_bits(b)),
        Value::Error(e) => Value::Error(clone_error(e)),
        Value::Other(o) => Value::Other(*o),
    }
}

/// A deep copy of an error.
pub fn clone_error(e: &ErrorValue) -> (r: ErrorValue)
    ensures
        view_value(Value::Error(r)) == view_value(Value::Error(*e)),
    decreases e, 0nat,
{
    let kind = match &e.kind {
        Some(k) => Some(k.clone()),
        None => None,
    };
    let near = match &e.near {
        Some(b) => Some(Box::new(clone_value(b))),
        None => None,
    };
    ErrorValue { kind, code: e.code, message: e.message.clone(), args: clone_items(&e.args), near }
}

/// A deep copy of a series of values.
pub fn clone_items(items: &Vec<Value>) -> (r: Vec<Value>)
    ensures
        view_items(r@) == view_items(items@),
    decreases items, 0nat,
{
    let mut out: Vec<Value> = Vec::new();
    let mut i: usize = 0;
    while i < items.len()
        invariant
            i <= items@.len(),
            view_items(out@) == view_items(items@.take(i as int)),
        decreases items@.len() - i,
    {
        proof {
            assert(decreases_to!(items => items@[i as int]));
        }
        let c = clone_value(&items[i]);
        let ghost before = out@;
        out.push(c);
        proof {
            assert(out@.drop_last() =~= before);
            assert(items@.take(i as int + 1).drop_last() =~= items@.take(i as int));
        }
        i = i + 1;
    }
    assert(items@.take(items@.len() as int) =~= items@);
    out
}

fn clone_keyed(items: &Vec<(MapKey, Value)>) -> (r: Vec<(MapKey, Value)>)
    ensures
        view_keyed(r@) == view_keyed(items@),
    decreases items, 0nat,
{
    let mut out: Vec<(MapKey, Value)> = Vec::new();
    let mut i: usize = 0;
    while i < items.len()
        invariant
            i <= items@.len(),
            view_keyed(out@) == view_keyed(items@.take(i as int)),
        decreases items@.len() - i,
    {
        proof {
            assert(decreases_to!(items => items@[i as int].1));
        }
        let k = clone_key(&items[i].0);
        let c = clone_value(&items[i].1);
        let ghost before = out@;
        out.push((k, c));
        proof {
            assert(out@.drop_last() =~= before);
            assert(items@.take(i as int + 1).drop_last() =~= items@.take(i as int));
        }
        i = i + 1;
    }
    assert(items@.take(items@.len() as int) =~= items@);
    out
}

fn clone_fields(items: &Vec<(String, Value)>) -> (r: Vec<(String, Value)>)
    ensures
        view_fields(r@) == view_fields(items@),
    decreases items, 0nat,
{
    let mut out: Vec<(String, Value)> = Vec::new();
    let mut i: usize = 0;
    while i < items.len()
        invariant
            i <= items@.len(),
            view_fields(out@) == view_fields(items@.take(i as int)),
        decreases items@.len() - i,
    {
        proof {
            assert(decreases_to!(items => items@[i as int].1));
        }
        let k = items[i].0.clone();
        let c = clone_value(&items[i].1);
        let ghost before = out@;
        out.push((k, c));
        proof {
            assert(out@.drop_last() =~= before);
            assert(items@.take(i as int + 1).drop_last() =~= items@.take(i as int));
        }
        i = i + 1;
    }
    assert(items@.take(items@.len() as int) =~= items@);
    out
}

impl View for Value {
    type V = ValueView;

    open spec fn view(&self) -> ValueView {
        view_value(*self)
    }
}

impl View for MapKey {
    type V = KeyView;

    open spec fn view(&self) -> KeyView {
        key_view(*self)
    }
}

pub proof fn lemma_view_items(items: Seq<Value>)
    ensures
        view_items(items).len() == items.len(),
        forall|i: int| 0 <= i < items.len() ==> #[trigger] view_items(items)[i] == view_value(items[i]),
    decreases items.len(),
{
    if items.len() > 0 {
        lemma_view_items(items.drop_last());
    }
}

pub proof fn lemma_view_keyed(items: Seq<(MapKey, Value)>)
    ensures
        view_keyed(items).len() == items.len(),
        forall|i: int|
            0 <= i < items.len() ==> #[trigger] view_keyed(items)[i] == (
            key_view(items[i].0),
            view_value(items[i].1),
        ),
    decreases items.len(),
{
    if items.len() > 0 {
        lemma_view_keyed(items.drop_last());
    }
}

pub proof fn lemma_view_fields(items: Seq<(String, Value)>)
    ensures
        view_fields(items).len() == items.len(),
        forall|i: int|
            0 <= i < items.len() ==> #[trigger] view_fields(items)[i] == (
            items[i].0@,
            view_value(items[i].1),
        ),
    decreases items.len(),
{
    if items.len() > 0 {
        lemma_view_fields(items.drop_last());
    }
}

} // verus!
