//! The compile-time contract of a built-in operation.
//!
//! A `Function` declares named, kind-constrained parameters, validates a
//! call site's `ArgumentList` against them, and produces a compiled
//! `Expression` node — or a compile-time diagnostic. A required
//! parameter with no bound argument fails compilation before any node is
//! built; a statically certain kind mismatch is rejected as well.

use vstd::prelude::*;
use crate::kind;
use crate::kind::Kind;
use crate::expression::{Expression, CompilerState, spec_type_def};
use crate::typedef::wf_view;

verus! {

/// A compile-time diagnostic.
#[derive(Debug)]
pub enum CompileError {
    /// A required parameter has no bound argument.
    MissingArgument {
        /// The parameter's keyword.
        keyword: String,
    },
    /// An operand's possible kinds have no intersection with the
    /// parameter's accepted kinds.
    TypeMismatch {
        /// The parameter's keyword.
        keyword: String,
        /// The kinds the parameter accepts.
        expected: Kind,
        /// The kinds the operand may produce.
        got: Kind,
    },
}

/// The mathematical shape of a compile-time diagnostic.
pub enum CompileErrorView {
    /// A required parameter has no bound argument.
    MissingArgument {
        /// The parameter's keyword.
        keyword: Seq<char>,
    },
    /// A statically certain kind mismatch.
    TypeMismatch {
        /// The parameter's keyword.
        keyword: Seq<char>,
        /// The kinds the parameter accepts.
        expected: Kind,
        /// The kinds the operand may produce.
        got: Kind,
    },
}

impl View for CompileError {
    type V = CompileErrorView;

    open spec fn view(&self) -> CompileErrorView {
        match self {
            CompileError::MissingArgument { keyword } => (CompileErrorView::MissingArgument {
                keyword: keyword@,
            }),
            CompileError::TypeMismatch { keyword, expected, got } =>
                (CompileErrorView::TypeMismatch {
                    keyword: keyword@,
                    expected: *expected,
                    got: *got,
                }),
        }
    }
}

/// One declared input slot of a built-in operation.
pub struct Parameter {
    /// The slot's unique name within its function.
    pub keyword: String,
    /// The kinds of value the slot accepts.
    pub kind: Kind,
    /// Whether a call must bind this slot.
    pub required: bool,
}

/// One usage example of a built-in operation.
pub struct Example {
    /// A short description.
    pub title: String,
    /// The script source of the call.
    pub source: String,
    /// The rendering of the expected result.
    pub result: String,
}

/// Call-site information supplied by the surrounding compiler.
pub struct FunctionCompileContext {
    /// Offset of the call in the script source.
    pub span_start: usize,
    /// End offset of the call in the script source.
    pub span_end: usize,
}

/// Whether some binding of the list uses this keyword.
pub open spec fn has_keyword(args: Seq<(String, Expression)>, kw: Seq<char>) -> bool {
    exists|i: int| 0 <= i < args.len() && (#[trigger] args[i]).0@ == kw
}

/// The position of the first binding with this keyword, or the list's
/// length when none exists.
pub open spec fn keyword_index(args: Seq<(String, Expression)>, kw: Seq<char>) -> int
    decreases args,
{
    if args.len() == 0 {
        0
    } else if args[0].0@ == kw {
        0
    } else {
        1 + keyword_index(args.drop_first(), kw)
    }
}

/// Bounds and characterization of `keyword_index`.
pub proof fn lemma_keyword_index(args: Seq<(String, Expression)>, kw: Seq<char>)
    ensures
        0 <= keyword_index(args, kw) <= args.len(),
        forall|l: int| 0 <= l < keyword_index(args, kw) ==> (#[trigger] args[l]).0@ != kw,
        keyword_index(args, kw) < args.len() ==> args[keyword_index(args, kw)].0@ == kw,
        has_keyword(args, kw) <==> keyword_index(args, kw) < args.len(),
    decreases args,
{
    if args.len() > 0 && args[0].0@ != kw {
        lemma_keyword_index(args.drop_first(), kw);
        let b = keyword_index(args.drop_first(), kw);
        assert forall|l: int| 0 <= l < keyword_index(args, kw)
            implies (#[trigger] args[l]).0@ != kw by {
            if l > 0 {
                assert(args.drop_first()[l - 1].0@ != kw);
            }
        }
        if b < args.drop_first().len() {
            assert(args[1 + b] == args.drop_first()[b]);
        }
        if has_keyword(args, kw) {
            let w = choose|i: int| 0 <= i < args.len() && (#[trigger] args[i]).0@ == kw;
            assert(args.drop_first()[w - 1].0@ == kw);
            assert(has_keyword(args.drop_first(), kw));
        }
        if has_keyword(args.drop_first(), kw) {
            let w = choose|i: int| 0 <= i < args.drop_first().len()
                && (#[trigger] args.drop_first()[i]).0@ == kw;
            assert(args[w + 1].0@ == kw);
        }
    }
}

/// The resolved binding of call-site operands to a function's declared
/// parameters: keyword to already-compiled expression, consumed once by
/// the matching function's `compile`.
pub struct ArgumentList {
    /// The bindings, in call-site order.
    pub args: Vec<(String, Expression)>,
}

impl ArgumentList {
    /// An empty binding list.
    pub fn new() -> (r: ArgumentList)
        ensures
            r.args@.len() == 0,
    {
        ArgumentList { args: Vec::new() }
    }

    /// Bind one keyword to an operand expression.
    pub fn insert(&mut self, keyword: String, expr: Expression)
        ensures
            final(self).args@ == old(self).args@.push((keyword, expr)),
    {
        self.args.push((keyword, expr));
    }

    /// Take the operand bound to a required keyword; its absence is a
    /// compile-time `MissingArgument` failure, never deferred to run
    /// time.
    pub fn required(&mut self, keyword: &str) -> (r: Result<Expression, CompileError>)
        ensures
            has_keyword(old(self).args@, keyword@) ==> {
                let ki = keyword_index(old(self).args@, keyword@);
                &&& r matches Ok(e) && e == old(self).args@[ki].1
                &&& final(self).args@ == old(self).args@.remove(ki)
            },
            !has_keyword(old(self).args@, keyword@) ==> {
                &&& r matches Err(e) && e@ == (CompileErrorView::MissingArgument {
                    keyword: keyword@,
                })
                &&& final(self).args@ == old(self).args@
            },
    {
        proof {
            lemma_keyword_index(self.args@, keyword@);
        }
        let kw = String::from_str(keyword);
        let n = self.args.len();
        let mut i: usize = 0;
        while i < n
            invariant
                i <= n,
                n == self.args@.len(),
                kw@ == keyword@,
                self.args@ == old(self).args@,
                forall|l: int| 0 <= l < i ==> (#[trigger] self.args@[l]).0@ != keyword@,
            decreases n - i,
        {
            if self.args[i].0 == kw {
                proof {
                    lemma_keyword_index(self.args@, keyword@);
                    let ki = keyword_index(self.args@, keyword@);
                    assert(ki == i) by {
                        if ki < i {
                            assert(self.args@[ki].0@ != keyword@);
                        }
                    };
                }
                let entry = self.args.remove(i);
                return Ok(entry.1);
            }
            i += 1;
        }
        proof {
            lemma_keyword_index(self.args@, keyword@);
            assert(!has_keyword(self.args@, keyword@)) by {
                if has_keyword(self.args@, keyword@) {
                    assert(keyword_index(self.args@, keyword@) < self.args@.len());
                }
            };
        }
        Err(CompileError::MissingArgument { keyword: kw })
    }
}

/// The concatenation function of the standard library, registered as
/// `append`: two required array operands, `value` followed by `items`.
#[derive(Clone, Copy, Debug)]
pub struct Append;

impl Append {
    /// The stable registered name.
    pub fn identifier(&self) -> (r: &'static str)
        ensures
            r@ == "append"@,
    {
        "append"
    }

    /// The ordered, fixed parameter set: `value` and `items`, both
    /// required arrays.
    pub fn parameters(&self) -> (r: Vec<Parameter>)
        ensures
            r@.len() == 2,
            r@[0].keyword@ == "value"@ && r@[0].kind.bits == kind::ARRAY && r@[0].required,
            r@[1].keyword@ == "items"@ && r@[1].kind.bits == kind::ARRAY && r@[1].required,
    {
        let mut out: Vec<Parameter> = Vec::new();
        out.push(Parameter {
            keyword: String::from_str("value"),
            kind: Kind { bits: kind::ARRAY },
            required: true,
        });
        out.push(Parameter {
            keyword: String::from_str("items"),
            kind: Kind { bits: kind::ARRAY },
            required: true,
        });
        out
    }

    /// Usage examples, kept as executable documentation.
    pub fn examples(&self) -> (r: Vec<Example>)
        ensures
            r@.len() == 1,
            r@[0].title@ == "append array"@,
            r@[0].source@ == "append([0, 1], [2, 3])"@,
            r@[0].result@ == "[0, 1, 2, 3]"@,
    {
        let mut out: Vec<Example> = Vec::new();
        out.push(Example {
            title: String::from_str("append array"),
            source: String::from_str("append([0, 1], [2, 3])"),
            result: String::from_str("[0, 1, 2, 3]"),
        });
        out
    }

    /// Compile one call site: both required operands must be bound, and
    /// an operand whose kind set cannot intersect the array kind is
    /// rejected outright; otherwise the compiled concatenation node is
    /// produced.
    pub fn compile(
        &self,
        state: &CompilerState,
        _ctx: &FunctionCompileContext,
        arguments: ArgumentList,
    ) -> (r: Result<Expression, CompileError>)
        requires
            wf_view(state.target@),
        ensures
            ({
                let a0 = arguments.args@;
                let kv = "value"@;
                let kw = "items"@;
                &&& !has_keyword(a0, kv) ==> (r matches Err(e) && e@
                    == (CompileErrorView::MissingArgument { keyword: kv }))
                &&& has_keyword(a0, kv) && !has_keyword(
                        a0.remove(keyword_index(a0, kv)), kw)
                    ==> (r matches Err(e) && e@
                        == (CompileErrorView::MissingArgument { keyword: kw }))
                &&& has_keyword(a0, kv) && has_keyword(a0.remove(keyword_index(a0, kv)), kw)
                    ==> {
                    let ev = a0[keyword_index(a0, kv)].1;
                    let rest = a0.remove(keyword_index(a0, kv));
                    let ei = rest[keyword_index(rest, kw)].1;
                    let tv = spec_type_def(ev, state.target@);
                    let ti = spec_type_def(ei, state.target@);
                    &&& (tv.kind.bits & kind::ARRAY) == 0 ==> (r matches Err(e) && e@
                        == (CompileErrorView::TypeMismatch {
                            keyword: kv,
                            expected: Kind { bits: kind::ARRAY },
                            got: tv.kind,
                        }))
                    &&& (tv.kind.bits & kind::ARRAY) != 0 && (ti.kind.bits & kind::ARRAY) == 0
                        ==> (r matches Err(e) && e@ == (CompileErrorView::TypeMismatch {
                            keyword: kw,
                            expected: Kind { bits: kind::ARRAY },
                            got: ti.kind,
                        }))
                    &&& (tv.kind.bits & kind::ARRAY) != 0 && (ti.kind.bits & kind::ARRAY) != 0
                        ==> (r matches Ok(e) && e matches Expression::Append { value, items }
                            && *value == ev && *items == ei)
                }
            }),
    {
        let mut arguments = arguments;
        let value = match arguments.required("value") {
            Ok(e) => e,
            Err(err) => {
                return Err(err);
            },
        };
        let items = match arguments.required("items") {
            Ok(e) => e,
            Err(err) => {
                return Err(err);
            },
        };
        let tv = value.type_def(state);
        if !tv.kind().intersects(Kind { bits: kind::ARRAY }) {
            return Err(CompileError::TypeMismatch {
                keyword: String::from_str("value"),
                expected: Kind { bits: kind::ARRAY },
                got: tv.kind(),
            });
        }
        let ti = items.type_def(state);
        if !ti.kind().intersects(Kind { bits: kind::ARRAY }) {
            return Err(CompileError::TypeMismatch {
                keyword: String::from_str("items"),
                expected: Kind { bits: kind::ARRAY },
                got: ti.kind(),
            });
        }
        Ok(Expression::Append { value: Box::new(value), items: Box::new(items) })
    }
}

} // verus!
