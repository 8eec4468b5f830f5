//! The dynamically typed runtime datum and its specification-level view.
//!
//! A `Value` is a tagged union, owned recursively: an array or object
//! exclusively owns its elements, so no sharing and no cycles are possible.
//! Floating-point contents are carried as their IEEE-754 bit pattern and
//! timestamps as a count of nanoseconds since the epoch, so that every
//! variant is plain data.

use vstd::prelude::*;
use crate::kind;
use crate::kind::Kind;
use crate::typedef::clone_bytes;

verus! {

/// A runtime value, one variant per `kind` bit.
#[derive(Debug)]
pub enum Value {
    /// The absent value.
    Null,
    /// A boolean.
    Boolean(bool),
    /// A signed integer.
    Integer(i64),
    /// A floating-point number, carried as its IEEE-754 bit pattern.
    Float(u64),
    /// An opaque byte string.
    Bytes(Vec<u8>),
    /// A point in time, as nanoseconds since the epoch.
    Timestamp(i64),
    /// A regular expression, carried as its source pattern bytes.
    Regex(Vec<u8>),
    /// An ordered sequence of values.
    Array(Vec<Value>),
    /// A mapping from byte-string keys to values.
    Object(Vec<(Vec<u8>, Value)>),
}

/// The mathematical shape of a `Value`: the same tree with sequences in
/// place of vectors.
pub enum ValueView {
    /// The absent value.
    Null,
    /// A boolean.
    Boolean(bool),
    /// A signed integer.
    Integer(i64),
    /// A floating-point bit pattern.
    Float(u64),
    /// An opaque byte string.
    Bytes(Seq<u8>),
    /// Nanoseconds since the epoch.
    Timestamp(i64),
    /// A regular expression pattern.
    Regex(Seq<u8>),
    /// An ordered sequence of values.
    Array(Seq<ValueView>),
    /// A mapping from byte-string keys to values.
    Object(Seq<(Seq<u8>, ValueView)>),
}

/// The view of a sequence of values, element-wise.
pub open spec fn view_seq(s: Seq<Value>) -> Seq<ValueView>
    decreases s,
{
    if s.len() == 0 {
        Seq::empty()
    } else {
        view_seq(s.drop_last()).push(value_view(s.last()))
    }
}

/// The view of a sequence of key-value pairs, element-wise.
pub open spec fn view_fields(s: Seq<(Vec<u8>, Value)>) -> Seq<(Seq<u8>, ValueView)>
    decreases s,
{
    if s.len() == 0 {
        Seq::empty()
    } else {
        view_fields(s.drop_last()).push((s.last().0@, value_view(s.last().1)))
    }
}

/// The view of a single value.
pub open spec fn value_view(v: Value) -> ValueView
    decreases v,
{
    match v {
        Value::Null => ValueView::Null,
        Value::Boolean(b) => ValueView::Boolean(b),
        Value::Integer(i) => ValueView::Integer(i),
        Value::Float(bits) => ValueView::Float(bits),
        Value::Bytes(b) => ValueView::Bytes(b@),
        Value::Timestamp(t) => ValueView::Timestamp(t),
        Value::Regex(p) => ValueView::Regex(p@),
        Value::Array(vs) => ValueView::Array(view_seq(vs@)),
        Value::Object(fs) => ValueView::Object(view_fields(fs@)),
    }
}

impl View for Value {
    type V = ValueView;

    open spec fn view(&self) -> ValueView {
        value_view(*self)
    }
}

/// `view_seq` is the element-wise view.
pub proof fn lemma_view_seq_elementwise(s: Seq<Value>)
    ensures
        view_seq(s).len() == s.len(),
        forall|i: int| 0 <= i < s.len() ==> view_seq(s)[i] == value_view(s[i]),
    decreases s,
{
    if s.len() > 0 {
        lemma_view_seq_elementwise(s.drop_last());
    }
}

/// `view_fields` is the element-wise view.
pub proof fn lemma_view_fields_elementwise(s: Seq<(Vec<u8>, Value)>)
    ensures
        view_fields(s).len() == s.len(),
        forall|i: int| 0 <= i < s.len()
            ==> view_fields(s)[i] == (s[i].0@, value_view(s[i].1)),
    decreases s,
{
    if s.len() > 0 {
        lemma_view_fields_elementwise(s.drop_last());
    }
}

/// Concatenating value vectors concatenates their views.
pub proof fn lemma_view_seq_concat(a: Seq<Value>, b: Seq<Value>)
    ensures
        view_seq(a + b) == view_seq(a) + view_seq(b),
    decreases b,
{
    if b.len() == 0 {
        assert(a + b =~= a);
        assert(view_seq(a) + view_seq(b) =~= view_seq(a));
    } else {
        lemma_view_seq_concat(a, b.drop_last());
        assert((a + b).drop_last() =~= a + b.drop_last());
        assert((a + b).last() == b.last());
        assert(view_seq(a) + view_seq(b)
            =~= (view_seq(a) + view_seq(b.drop_last())).push(value_view(b.last())));
    }
}

/// The kind bit of a value's runtime shape.
pub open spec fn spec_kind_of(v: ValueView) -> Kind {
    match v {
        ValueView::Null => Kind { bits: kind::NULL },
        ValueView::Boolean(_) => Kind { bits: kind::BOOLEAN },
        ValueView::Integer(_) => Kind { bits: kind::INTEGER },
        ValueView::Float(_) => Kind { bits: kind::FLOAT },
        ValueView::Bytes(_) => Kind { bits: kind::BYTES },
        ValueView::Timestamp(_) => Kind { bits: kind::TIMESTAMP },
        ValueView::Regex(_) => Kind { bits: kind::REGEX },
        ValueView::Array(_) => Kind { bits: kind::ARRAY },
        ValueView::Object(_) => Kind { bits: kind::OBJECT },
    }
}

impl Value {
    /// The kind bit of this value's runtime shape.
    pub fn kind_of(&self) -> (r: Kind)
        ensures
            r == spec_kind_of(self@),
    {
        match self {
            Value::Null => Kind { bits: kind::NULL },
            Value::Boolean(_) => Kind { bits: kind::BOOLEAN },
            Value::Integer(_) => Kind { bits: kind::INTEGER },
            Value::Float(_) => Kind { bits: kind::FLOAT },
            Value::Bytes(_) => Kind { bits: kind::BYTES },
            Value::Timestamp(_) => Kind { bits: kind::TIMESTAMP },
            Value::Regex(_) => Kind { bits: kind::REGEX },
            Value::Array(_) => Kind { bits: kind::ARRAY },
            Value::Object(_) => Kind { bits: kind::OBJECT },
        }
    }
}


/// A runtime evaluation error.
#[derive(Clone, Copy, PartialEq, Eq, Structural, Debug)]
pub enum RuntimeError {
    /// A value's dynamic shape did not match what an operation required.
    TypeCoercion {
        /// The kind the operation required.
        expected: Kind,
        /// The kind the value actually had.
        got: Kind,
    },
}

/// A fresh copy of a sequence of values, element by element.
fn clone_value_vec(vs: &Vec<Value>) -> (r: Vec<Value>)
    ensures
        view_seq(r@) == view_seq(vs@),
    decreases *vs, 0int,
{
    let mut out: Vec<Value> = Vec::new();
    let n = vs.len();
    let mut i: usize = 0;
    while i < n
        invariant
            i <= n,
            n == vs@.len(),
            out@.len() == i,
            forall|l: int| 0 <= l < i ==> value_view(#[trigger] out@[l]) == value_view(vs@[l]),
        decreases n - i,
    {
        let e = vs[i].deep_clone();
        out.push(e);
        i += 1;
    }
    proof {
        lemma_view_seq_elementwise(out@);
        lemma_view_seq_elementwise(vs@);
        assert(view_seq(out@) =~= view_seq(vs@));
    }
    out
}

/// A fresh copy of a sequence of object fields, entry by entry.
fn clone_object_fields(fs: &Vec<(Vec<u8>, Value)>) -> (r: Vec<(Vec<u8>, Value)>)
    ensures
        view_fields(r@) == view_fields(fs@),
    decreases *fs, 0int,
{
    let mut out: Vec<(Vec<u8>, Value)> = Vec::new();
    let n = fs.len();
    let mut i: usize = 0;
    while i < n
        invariant
            i <= n,
            n == fs@.len(),
            out@.len() == i,
            forall|l: int| 0 <= l < i ==> out@[l].0@ == fs@[l].0@
                && value_view(#[trigger] out@[l].1) == value_view(fs@[l].1),
        decreases n - i,
    {
        let entry = (clone_bytes(&fs[i].0), fs[i].1.deep_clone());
        out.push(entry);
        i += 1;
    }
    proof {
        lemma_view_fields_elementwise(out@);
        lemma_view_fields_elementwise(fs@);
        assert(view_fields(out@) =~= view_fields(fs@));
    }
    out
}

impl Value {
    /// A fresh value equal to this one.
    pub fn deep_clone(&self) -> (r: Value)
        ensures
            r@ == self@,
        decreases *self, 1int,
    {
        match self {
            Value::Null => Value::Null,
            Value::Boolean(b) => Value::Boolean(*b),
            Value::Integer(i) => Value::Integer(*i),
            Value::Float(bits) => Value::Float(*bits),
            Value::Bytes(b) => Value::Bytes(clone_bytes(b)),
            Value::Timestamp(t) => Value::Timestamp(*t),
            Value::Regex(p) => Value::Regex(clone_bytes(p)),
            Value::Array(vs) => Value::Array(clone_value_vec(vs)),
            Value::Object(fs) => Value::Object(clone_object_fields(fs)),
        }
    }

    /// Interpret this value as an array, yielding its elements; any other
    /// shape is a type-coercion error naming the kinds involved.
    pub fn try_array(self) -> (r: Result<Vec<Value>, RuntimeError>)
        ensures
            (match self {
                Value::Array(a) => r == Ok::<Vec<Value>, RuntimeError>(a),
                _ => r == Err::<Vec<Value>, RuntimeError>(RuntimeError::TypeCoercion {
                    expected: Kind { bits: kind::ARRAY },
                    got: spec_kind_of(self@),
                }),
            }),
    {
        match self {
            Value::Array(a) => Ok(a),
            other => {
                let got = other.kind_of();
                Err(RuntimeError::TypeCoercion { expected: Kind { bits: kind::ARRAY }, got })
            },
        }
    }
}

} // verus!
