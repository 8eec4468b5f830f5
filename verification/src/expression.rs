//! The compiled expression node and its two-phase contract.
//!
//! Every node offers `type_def`, a pure static inference over its
//! operands' descriptors, and `resolve`, the runtime evaluation against
//! one record's data. The tree is immutable once built; all per-record
//! state flows through the evaluation `Context`.

use vstd::prelude::*;
use crate::kind;
use crate::kind::Kind;
use crate::value::{Value, ValueView, RuntimeError, value_view, view_seq, spec_kind_of};
use crate::value::{lemma_view_seq_elementwise, lemma_view_seq_concat};
use crate::typedef::{TypeDef, TypeDefView, td_view, view_index_entries, merge_views, wf_view};
use crate::typedef::{lemma_view_index_elementwise, unique_index_keys};

verus! {

/// The per-record runtime environment: the record under evaluation.
pub struct Context {
    /// The current record's value.
    pub event: Value,
}

/// Ambient compile-time knowledge supplied by the surrounding script
/// compiler: the externally known type of the current record.
pub struct CompilerState {
    /// The static descriptor of the current record.
    pub target: TypeDef,
}

/// A compiled expression node.
#[derive(Debug)]
pub enum Expression {
    /// A literal value from the script source.
    Literal(Value),
    /// The current record.
    Target,
    /// Concatenation of two array operands, `value` followed by `items`.
    Append {
        /// The left operand.
        value: Box<Expression>,
        /// The right operand.
        items: Box<Expression>,
    },
}

/// The error reported when a value had to be an array and was not.
pub open spec fn array_coercion_error(v: ValueView) -> RuntimeError {
    RuntimeError::TypeCoercion { expected: Kind { bits: kind::ARRAY }, got: spec_kind_of(v) }
}

/// The outcome of concatenation given the operands' outcomes: errors
/// propagate left to right, both operands must be arrays, and the result
/// is the left elements followed by the right elements.
pub open spec fn eval_append(
    rv: Result<ValueView, RuntimeError>,
    ri: Result<ValueView, RuntimeError>,
) -> Result<ValueView, RuntimeError> {
    match rv {
        Result::Err(e) => Result::Err(e),
        Result::Ok(v) => match v {
            ValueView::Array(xs) => match ri {
                Result::Err(e) => Result::Err(e),
                Result::Ok(w) => match w {
                    ValueView::Array(ys) => Result::Ok(ValueView::Array(xs + ys)),
                    _ => Result::Err(array_coercion_error(w)),
                },
            },
            _ => Result::Err(array_coercion_error(v)),
        },
    }
}

/// The meaning of evaluating an expression against a record.
pub open spec fn eval(e: Expression, target: ValueView) -> Result<ValueView, RuntimeError>
    decreases e,
{
    match e {
        Expression::Literal(v) => Result::Ok(value_view(v)),
        Expression::Target => Result::Ok(target),
        Expression::Append { value, items } =>
            eval_append(eval(*value, target), eval(*items, target)),
    }
}

/// The view of a runtime outcome.
pub open spec fn result_view(r: Result<Value, RuntimeError>) -> Result<ValueView, RuntimeError> {
    match r {
        Result::Ok(v) => Result::Ok(value_view(v)),
        Result::Err(e) => Result::Err(e),
    }
}

/// The fully precise per-index descriptors of a literal array: position
/// `i` maps to the descriptor of element `i`.
pub open spec fn literal_index_types(xs: Seq<ValueView>) -> Seq<(usize, TypeDefView)>
    decreases xs,
{
    if xs.len() == 0 {
        Seq::empty()
    } else {
        literal_index_types(xs.drop_last()).push(
            (((xs.len() - 1) as usize), value_type_def(xs.last())))
    }
}

/// The static descriptor of a literal value: its own kind, infallible,
/// with a fully precise index map for a literal array.
pub open spec fn value_type_def(v: ValueView) -> TypeDefView
    decreases v,
{
    match v {
        ValueView::Array(xs) => TypeDefView {
            fallible: false,
            kind: Kind { bits: kind::ARRAY },
            array_index_types: Option::Some(literal_index_types(xs)),
            object_field_types: Option::None,
        },
        _ => TypeDefView {
            fallible: false,
            kind: spec_kind_of(v),
            array_index_types: Option::None,
            object_field_types: Option::None,
        },
    }
}

/// `literal_index_types` maps position `i` to element `i`'s descriptor.
pub proof fn lemma_literal_index_types(xs: Seq<ValueView>)
    ensures
        literal_index_types(xs).len() == xs.len(),
        forall|i: int| 0 <= i < xs.len()
            ==> literal_index_types(xs)[i] == ((i as usize), value_type_def(xs[i])),
    decreases xs,
{
    if xs.len() > 0 {
        lemma_literal_index_types(xs.drop_last());
    }
}

/// Whether a descriptor is a fully precise array: exactly the array
/// kind, with a map whose entry at position `i` holds key `i`.
pub open spec fn precise_array(t: TypeDefView) -> bool {
    &&& t.kind == (Kind { bits: kind::ARRAY })
    &&& t.array_index_types matches Some(m) && positional(m)
    &&& t.object_field_types is None
}

/// Whether the map's entry at position `i` holds key `i`.
pub open spec fn positional(m: Seq<(usize, TypeDefView)>) -> bool {
    forall|i: int| 0 <= i < m.len() ==> (#[trigger] m[i]).0 == i
}

/// The per-index map with every key shifted up by `n`.
pub open spec fn shifted_entries(m: Seq<(usize, TypeDefView)>, n: nat)
    -> Seq<(usize, TypeDefView)>
{
    Seq::new(m.len(), |j: int| (((n + m[j].0) as usize), m[j].1))
}

/// The static descriptor of a concatenation: when both operands are
/// fully precise arrays whose joint length is representable, the result
/// is the precise concatenated map with the right operand's indices
/// shifted by the left operand's length; otherwise the conservative
/// merge of the two descriptors.
pub open spec fn spec_append_type_def(a: TypeDefView, b: TypeDefView) -> TypeDefView {
    if precise_array(a) && precise_array(b)
        && a.array_index_types->Some_0.len() + b.array_index_types->Some_0.len()
            <= usize::MAX {
        TypeDefView {
            fallible: a.fallible || b.fallible,
            kind: Kind { bits: kind::ARRAY },
            array_index_types: Option::Some(
                a.array_index_types->Some_0
                + shifted_entries(b.array_index_types->Some_0,
                    a.array_index_types->Some_0.len())),
            object_field_types: Option::None,
        }
    } else {
        merge_views(a, b)
    }
}

/// The static descriptor of an expression: literals carry their own
/// shape, the record carries the compiler-known target type, and
/// concatenation composes its operands' descriptors.
pub open spec fn spec_type_def(e: Expression, target: TypeDefView) -> TypeDefView
    decreases e,
{
    match e {
        Expression::Literal(v) => value_type_def(value_view(v)),
        Expression::Target => target,
        Expression::Append { value, items } =>
            spec_append_type_def(spec_type_def(*value, target), spec_type_def(*items, target)),
    }
}

/// The per-position descriptors of a literal array's elements.
#[verifier::spinoff_prover]
#[verifier::rlimit(50)]
fn literal_array_types(vs: &Vec<Value>) -> (r: Vec<(usize, TypeDef)>)
    ensures
        view_index_entries(r@) == literal_index_types(view_seq(vs@)),
        unique_index_keys(view_index_entries(r@)),
        forall|l: int| 0 <= l < view_index_entries(r@).len()
            ==> wf_view(#[trigger] view_index_entries(r@)[l].1),
    decreases *vs, 0int,
{
    let ghost xs = view_seq(vs@);
    proof {
        lemma_view_seq_elementwise(vs@);
        lemma_literal_index_types(xs);
    }
    let mut out: Vec<(usize, TypeDef)> = Vec::new();
    let n = vs.len();
    let mut i: usize = 0;
    while i < n
        invariant
            i <= n,
            n == vs@.len(),
            xs == view_seq(vs@),
            xs.len() == vs@.len(),
            forall|l: int| 0 <= l < vs@.len() ==> xs[l] == value_view(#[trigger] vs@[l]),
            out@.len() == i,
            forall|l: int| 0 <= l < i ==> (#[trigger] out@[l]).0 == l
                && td_view(out@[l].1) == value_type_def(xs[l])
                && wf_view(td_view(out@[l].1)),
        decreases n - i,
    {
        let td = type_def_of_value(&vs[i]);
        out.push((i, td));
        i += 1;
    }
    proof {
        lemma_view_index_elementwise(out@);
        assert(view_index_entries(out@) =~= literal_index_types(xs));
    }
    out
}

/// The static descriptor of one literal value.
#[verifier::spinoff_prover]
#[verifier::rlimit(50)]
fn type_def_of_value(v: &Value) -> (r: TypeDef)
    ensures
        r@ == value_type_def(v@),
        wf_view(r@),
    decreases *v, 1int,
{
    proof {
        assert(kind::ARRAY & kind::ARRAY == kind::ARRAY) by (bit_vector);
    }
    match v {
        Value::Array(vs) => {
            let m = literal_array_types(vs);
            TypeDef {
                fallible: false,
                kind: Kind { bits: kind::ARRAY },
                array_index_types: Option::Some(m),
                object_field_types: Option::None,
            }
        },
        _ => TypeDef {
            fallible: false,
            kind: v.kind_of(),
            array_index_types: Option::None,
            object_field_types: Option::None,
        },
    }
}

/// Whether a descriptor is a fully precise array (see `precise_array`).
fn is_precise_array(t: &TypeDef) -> (b: bool)
    ensures
        b == precise_array(t@),
{
    if t.kind.bits != kind::ARRAY {
        return false;
    }
    match &t.object_field_types {
        Option::Some(_) => false,
        Option::None => match &t.array_index_types {
            Option::None => false,
            Option::Some(m) => {
                proof {
                    lemma_view_index_elementwise(m@);
                }
                let n = m.len();
                let mut i: usize = 0;
                while i < n
                    invariant
                        i <= n,
                        n == m@.len(),
                        t.array_index_types matches Some(m0) && m0 == *m,
                        view_index_entries(m@).len() == m@.len(),
                        forall|l: int| 0 <= l < m@.len()
                            ==> (#[trigger] view_index_entries(m@)[l]) == (m@[l].0, td_view(m@[l].1)),
                        forall|l: int| 0 <= l < i ==> (#[trigger] m@[l]).0 == l,
                    decreases n - i,
                {
                    if m[i].0 != i {
                        proof {
                            assert(view_index_entries(m@)[i as int].0 != i);
                        }
                        return false;
                    }
                    i += 1;
                }
                proof {
                    assert(positional(view_index_entries(m@)));
                }
                true
            },
        },
    }
}

/// The static descriptor of a concatenation (see `spec_append_type_def`).
#[verifier::spinoff_prover]
#[verifier::rlimit(50)]
pub fn append_type_def(tx: TypeDef, ty: TypeDef) -> (r: TypeDef)
    requires
        wf_view(tx@),
        wf_view(ty@),
    ensures
        r@ == spec_append_type_def(tx@, ty@),
        wf_view(r@),
{
    let f = tx.fallible || ty.fallible;
    let px = is_precise_array(&tx);
    let py = is_precise_array(&ty);
    let fits = match (&tx.array_index_types, &ty.array_index_types) {
        (Option::Some(a), Option::Some(b)) => a.len() <= usize::MAX - b.len(),
        _ => false,
    };
    if px && py && fits {
        let ghost mav = view_index_entries(tx.array_index_types->Some_0@);
        let ghost mbv = view_index_entries(ty.array_index_types->Some_0@);
        let mut out: Vec<(usize, TypeDef)> = match tx.array_index_types {
            Option::Some(m) => m,
            Option::None => Vec::new(),
        };
        let mb: Vec<(usize, TypeDef)> = match ty.array_index_types {
            Option::Some(m) => m,
            Option::None => Vec::new(),
        };
        let n = out.len();
        let ghost out0 = out@;
        proof {
            lemma_view_index_elementwise(out@);
            lemma_view_index_elementwise(mb@);
            assert forall|l: int| 0 <= l < mb@.len()
                implies (#[trigger] mb@[l]).0 == l by {
                assert(mbv[l] == (mb@[l].0, td_view(mb@[l].1)));
                assert(mbv[l].0 == l);
            }
            assert forall|l: int| 0 <= l < out0.len()
                implies (#[trigger] out0[l]).0 == l by {
                assert(mav[l] == (out0[l].0, td_view(out0[l].1)));
                assert(mav[l].0 == l);
            }
        }
        let k = mb.len();
        let mut j: usize = 0;
        while j < k
            invariant
                j <= k,
                k == mb@.len(),
                n <= usize::MAX - k,
                mav == view_index_entries(out0),
                mbv == view_index_entries(mb@),
                n == out0.len(),
                mav.len() == out0.len(),
                forall|l: int| 0 <= l < out0.len()
                    ==> (#[trigger] mav[l]) == (out0[l].0, td_view(out0[l].1)),
                forall|l: int| 0 <= l < mav.len() ==> (#[trigger] mav[l]).0 == l,
                forall|l: int| 0 <= l < mav.len() ==> wf_view(#[trigger] mav[l].1),
                mbv.len() == mb@.len(),
                forall|l: int| 0 <= l < mb@.len()
                    ==> (#[trigger] mbv[l]) == (mb@[l].0, td_view(mb@[l].1)),
                forall|l: int| 0 <= l < mb@.len() ==> (#[trigger] mb@[l]).0 == l,
                forall|l: int| 0 <= l < mbv.len() ==> wf_view(#[trigger] mbv[l].1),
                out@.len() == n + j,
                forall|l: int| 0 <= l < n ==> out@[l] == out0[l],
                forall|l: int| 0 <= l < j ==> (#[trigger] out@[n + l]).0 == n + l
                    && td_view(out@[n + l].1) == mbv[l].1,
            decreases k - j,
        {
            let key = n + mb[j].0;
            let td = mb[j].1.deep_clone();
            out.push((key, td));
            j += 1;
        }
        let r = TypeDef {
            fallible: f,
            kind: Kind { bits: kind::ARRAY },
            array_index_types: Option::Some(out),
            object_field_types: Option::None,
        };
        proof {
            assert(kind::ARRAY & kind::ARRAY == kind::ARRAY) by (bit_vector);
            lemma_view_index_elementwise(out@);
            let whole = view_index_entries(out@);
            let expect = mav + shifted_entries(mbv, n as nat);
            assert forall|l: int| 0 <= l < whole.len() implies whole[l] == expect[l] by {
                assert(whole[l] == (out@[l].0, td_view(out@[l].1)));
                if l < n {
                    assert(mav[l] == (out0[l].0, td_view(out0[l].1)));
                } else {
                    assert(mbv[l - n] == (mb@[l - n].0, td_view(mb@[l - n].1)));
                }
            }
            assert(whole =~= expect);
            assert forall|i0: int, j0: int| 0 <= i0 < j0 < whole.len()
                implies whole[i0].0 != whole[j0].0 by {
                assert(whole[i0].0 == i0 && whole[j0].0 == j0);
            }
            assert forall|l: int| 0 <= l < whole.len() implies wf_view(whole[l].1) by {
                if l < n {
                    assert(wf_view(mav[l].1));
                } else {
                    assert(wf_view(mbv[l - n].1));
                }
            }
        }
        r
    } else {
        proof {
            crate::typedef::lemma_merge_preserves_wf(tx@, ty@);
            if precise_array(tx@) && precise_array(ty@) {
                lemma_view_index_elementwise(tx.array_index_types->Some_0@);
                lemma_view_index_elementwise(ty.array_index_types->Some_0@);
            }
        }
        tx.merge(&ty)
    }
}

impl Expression {
    /// Evaluate this expression against one record; the outcome is
    /// exactly the meaning given by `eval`.
    pub fn resolve(&self, ctx: &Context) -> (r: Result<Value, RuntimeError>)
        ensures
            result_view(r) == eval(*self, ctx.event@),
        decreases *self,
    {
        match self {
            Expression::Literal(v) => Result::Ok(v.deep_clone()),
            Expression::Target => Result::Ok(ctx.event.deep_clone()),
            Expression::Append { value, items } => {
                let rv = value.resolve(ctx);
                let v = match rv {
                    Result::Ok(v) => v,
                    Result::Err(e) => {
                        return Result::Err(e);
                    },
                };
                let mut va = match v.try_array() {
                    Result::Ok(a) => a,
                    Result::Err(e) => {
                        return Result::Err(e);
                    },
                };
                let ri = items.resolve(ctx);
                let w = match ri {
                    Result::Ok(w) => w,
                    Result::Err(e) => {
                        return Result::Err(e);
                    },
                };
                let mut ia = match w.try_array() {
                    Result::Ok(a) => a,
                    Result::Err(e) => {
                        return Result::Err(e);
                    },
                };
                let ghost va0 = va@;
                let ghost ia0 = ia@;
                va.append(&mut ia);
                proof {
                    lemma_view_seq_concat(va0, ia0);
                }
                Result::Ok(Value::Array(va))
            },
        }
    }

    /// Infer this expression's static descriptor; the result is exactly
    /// the meaning given by `spec_type_def`, and is well-formed whenever
    /// the compiler-known target type is.
    pub fn type_def(&self, state: &CompilerState) -> (r: TypeDef)
        requires
            wf_view(state.target@),
        ensures
            r@ == spec_type_def(*self, state.target@),
            wf_view(r@),
        decreases *self, 2int,
    {
        match self {
            Expression::Literal(v) => type_def_of_value(v),
            Expression::Target => state.target.deep_clone(),
            Expression::Append { value, items } => {
                let tx = value.type_def(state);
                let ty = items.type_def(state);
                append_type_def(tx, ty)
            },
        }
    }
}

/// Concatenation law: when both operands evaluate to arrays, the result
/// is the left elements followed by the right elements, and its length
/// is the sum of the operand lengths; no reordering, no deduplication,
/// no coercion of elements.
pub proof fn lemma_append_concatenates(
    e: Expression,
    target: ValueView,
    xs: Seq<ValueView>,
    ys: Seq<ValueView>,
)
    requires
        e matches Expression::Append { value, items }
            && eval(*value, target) == Result::Ok::<ValueView, RuntimeError>(ValueView::Array(xs))
            && eval(*items, target) == Result::Ok::<ValueView, RuntimeError>(ValueView::Array(ys)),
    ensures
        eval(e, target) == Result::Ok::<ValueView, RuntimeError>(ValueView::Array(xs + ys)),
        (xs + ys).len() == xs.len() + ys.len(),
        forall|i: int| 0 <= i < xs.len() ==> (xs + ys)[i] == xs[i],
        forall|j: int| 0 <= j < ys.len() ==> (xs + ys)[xs.len() + j] == ys[j],
{
}

/// Identity law: concatenation with an empty operand, on either side,
/// returns the other operand's value unchanged.
pub proof fn lemma_append_identity(
    e: Expression,
    target: ValueView,
    xs: Seq<ValueView>,
    ys: Seq<ValueView>,
)
    requires
        e matches Expression::Append { value, items }
            && eval(*value, target) == Result::Ok::<ValueView, RuntimeError>(ValueView::Array(xs))
            && eval(*items, target) == Result::Ok::<ValueView, RuntimeError>(ValueView::Array(ys)),
    ensures
        xs.len() == 0 ==> eval(e, target)
            == Result::Ok::<ValueView, RuntimeError>(ValueView::Array(ys)),
        ys.len() == 0 ==> eval(e, target)
            == Result::Ok::<ValueView, RuntimeError>(ValueView::Array(xs)),
{
    if xs.len() == 0 {
        assert(xs + ys =~= ys);
    }
    if ys.len() == 0 {
        assert(xs + ys =~= xs);
    }
}

/// Identity law for static typing: concatenation with an empty, fully
/// precise, infallible array descriptor on either side keeps the other
/// operand's precise descriptor unchanged.
pub proof fn lemma_append_type_def_identity(a: TypeDefView, b: TypeDefView)
    requires
        precise_array(a),
        a.array_index_types->Some_0.len() == 0,
        !a.fallible,
        precise_array(b),
        b.array_index_types->Some_0.len() <= usize::MAX,
    ensures
        spec_append_type_def(a, b) == b,
        spec_append_type_def(b, a) == b,
{
    let bm = b.array_index_types->Some_0;
    assert(shifted_entries(bm, 0) =~= bm);
    assert(a.array_index_types->Some_0 + shifted_entries(bm, 0) =~= bm);
    assert(bm + shifted_entries(a.array_index_types->Some_0, bm.len()) =~= bm);
}

/// Precision law: when both operands are fully precise arrays of lengths
/// `n` and `m`, the concatenation's map equals the left map on `[0, n)`
/// and the right map shifted by `n` on `[n, n + m)`.
pub proof fn lemma_append_type_def_precise(a: TypeDefView, b: TypeDefView)
    requires
        precise_array(a),
        precise_array(b),
        a.array_index_types->Some_0.len() + b.array_index_types->Some_0.len() <= usize::MAX,
    ensures
        spec_append_type_def(a, b).array_index_types matches Some(m) && {
            let ma = a.array_index_types->Some_0;
            let mb = b.array_index_types->Some_0;
            &&& m.len() == ma.len() + mb.len()
            &&& forall|i: int| 0 <= i < ma.len() ==> m[i] == ma[i]
            &&& forall|j: int| 0 <= j < mb.len()
                ==> (#[trigger] m[ma.len() + j]) == (((ma.len() + j) as usize), mb[j].1)
        },
        spec_append_type_def(a, b).fallible == (a.fallible || b.fallible),
{
    let ma = a.array_index_types->Some_0;
    let mb = b.array_index_types->Some_0;
    assert forall|j: int| 0 <= j < mb.len()
        implies ((ma + shifted_entries(mb, ma.len()))[ma.len() + j])
            == (((ma.len() + j) as usize), mb[j].1) by {
        assert(shifted_entries(mb, ma.len())[j] == (((ma.len() + mb[j].0) as usize), mb[j].1));
        assert(mb[j].0 == j);
    }
}

} // verus!
