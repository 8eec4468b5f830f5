use remap_core::expression::{CompilerState, Context, Expression};
use remap_core::function::{Append, ArgumentList, CompileError, FunctionCompileContext};
use remap_core::kind;
use remap_core::kind::Kind;
use remap_core::typedef::TypeDef;
use remap_core::value::{RuntimeError, Value};

fn state() -> CompilerState {
    CompilerState { target: TypeDef::new() }
}

fn ctx() -> FunctionCompileContext {
    FunctionCompileContext { span_start: 0, span_end: 0 }
}

fn literal_ints(xs: &[i64]) -> Expression {
    Expression::Literal(Value::Array(xs.iter().map(|x| Value::Integer(*x)).collect()))
}

fn compile_append(value: Expression, items: Expression) -> Result<Expression, CompileError> {
    let mut args = ArgumentList::new();
    args.insert(String::from("value"), value);
    args.insert(String::from("items"), items);
    Append.compile(&state(), &ctx(), args)
}

fn resolve(e: &Expression) -> Result<Value, RuntimeError> {
    e.resolve(&Context { event: Value::Null })
}

fn index_kind_bits(td: &TypeDef) -> Vec<(usize, u16)> {
    match &td.array_index_types {
        Some(m) => m.iter().map(|(k, t)| (*k, t.kind.bits)).collect(),
        None => panic!("expected a precise index map"),
    }
}

#[test]
fn both_arrays_empty() {
    let e = compile_append(literal_ints(&[]), literal_ints(&[])).unwrap();
    match resolve(&e).unwrap() {
        Value::Array(v) => assert!(v.is_empty()),
        _ => panic!("expected an array"),
    }
    let td = e.type_def(&state());
    assert_eq!(td.kind().bits, kind::ARRAY);
    assert!(!td.is_fallible());
    assert_eq!(index_kind_bits(&td), vec![]);
}

#[test]
fn one_array_empty() {
    let e = compile_append(literal_ints(&[]), literal_ints(&[1, 2, 3])).unwrap();
    match resolve(&e).unwrap() {
        Value::Array(v) => {
            assert_eq!(v.len(), 3);
            for (i, x) in v.iter().enumerate() {
                assert!(matches!(x, Value::Integer(n) if *n == (i as i64) + 1));
            }
        }
        _ => panic!("expected an array"),
    }
    let td = e.type_def(&state());
    assert_eq!(td.kind().bits, kind::ARRAY);
    assert_eq!(
        index_kind_bits(&td),
        vec![(0, kind::INTEGER), (1, kind::INTEGER), (2, kind::INTEGER)]
    );
}

#[test]
fn neither_array_empty() {
    let e = compile_append(literal_ints(&[1, 2, 3]), literal_ints(&[4, 5, 6])).unwrap();
    match resolve(&e).unwrap() {
        Value::Array(v) => {
            assert_eq!(v.len(), 6);
            for (i, x) in v.iter().enumerate() {
                assert!(matches!(x, Value::Integer(n) if *n == (i as i64) + 1));
            }
        }
        _ => panic!("expected an array"),
    }
    let td = e.type_def(&state());
    assert_eq!(
        index_kind_bits(&td),
        (0..6).map(|i| (i, kind::INTEGER)).collect::<Vec<_>>()
    );
}

#[test]
fn mixed_array_types() {
    let items = Expression::Literal(Value::Array(vec![
        Value::Boolean(true),
        Value::Float(5.0f64.to_bits()),
        Value::Bytes(b"bar".to_vec()),
    ]));
    let e = compile_append(literal_ints(&[1, 2, 3]), items).unwrap();
    match resolve(&e).unwrap() {
        Value::Array(v) => {
            assert_eq!(v.len(), 6);
            assert!(matches!(v[0], Value::Integer(1)));
            assert!(matches!(v[1], Value::Integer(2)));
            assert!(matches!(v[2], Value::Integer(3)));
            assert!(matches!(v[3], Value::Boolean(true)));
            assert!(matches!(v[4], Value::Float(b) if b == 5.0f64.to_bits()));
            match &v[5] {
                Value::Bytes(b) => assert_eq!(b.as_slice(), b"bar"),
                _ => panic!("expected bytes"),
            }
        }
        _ => panic!("expected an array"),
    }
    let td = e.type_def(&state());
    assert_eq!(
        index_kind_bits(&td),
        vec![
            (0, kind::INTEGER),
            (1, kind::INTEGER),
            (2, kind::INTEGER),
            (3, kind::BOOLEAN),
            (4, kind::FLOAT),
            (5, kind::BYTES),
        ]
    );
}

#[test]
fn non_array_at_runtime_is_type_coercion() {
    // The record is statically unconstrained, so compilation accepts it;
    // at run time it holds an integer and coercion fails before any
    // partial result is produced.
    let e = compile_append(Expression::Target, literal_ints(&[1, 2])).unwrap();
    let r = e.resolve(&Context { event: Value::Integer(5) });
    assert_eq!(
        r.unwrap_err(),
        RuntimeError::TypeCoercion {
            expected: Kind { bits: kind::ARRAY },
            got: Kind { bits: kind::INTEGER },
        }
    );
}

#[test]
fn non_array_literal_is_rejected_at_compile_time() {
    let r = compile_append(Expression::Literal(Value::Integer(5)), literal_ints(&[1, 2]));
    match r {
        Err(CompileError::TypeMismatch { keyword, expected, got }) => {
            assert_eq!(keyword, "value");
            assert_eq!(expected.bits, kind::ARRAY);
            assert_eq!(got.bits, kind::INTEGER);
        }
        _ => panic!("expected a type mismatch"),
    }
}

#[test]
fn missing_value_argument() {
    let mut args = ArgumentList::new();
    args.insert(String::from("items"), literal_ints(&[1]));
    match Append.compile(&state(), &ctx(), args) {
        Err(CompileError::MissingArgument { keyword }) => assert_eq!(keyword, "value"),
        _ => panic!("expected a missing argument"),
    }
}

#[test]
fn missing_items_argument() {
    let mut args = ArgumentList::new();
    args.insert(String::from("value"), literal_ints(&[1]));
    match Append.compile(&state(), &ctx(), args) {
        Err(CompileError::MissingArgument { keyword }) => assert_eq!(keyword, "items"),
        _ => panic!("expected a missing argument"),
    }
}

#[test]
fn missing_both_arguments() {
    match Append.compile(&state(), &ctx(), ArgumentList::new()) {
        Err(CompileError::MissingArgument { keyword }) => assert_eq!(keyword, "value"),
        _ => panic!("expected a missing argument"),
    }
}

#[test]
fn append_identity_left_and_right() {
    let e = compile_append(literal_ints(&[]), literal_ints(&[7, 8])).unwrap();
    match resolve(&e).unwrap() {
        Value::Array(v) => {
            assert_eq!(v.len(), 2);
            assert!(matches!(v[0], Value::Integer(7)));
            assert!(matches!(v[1], Value::Integer(8)));
        }
        _ => panic!("expected an array"),
    }
    let td = e.type_def(&state());
    assert_eq!(index_kind_bits(&td), vec![(0, kind::INTEGER), (1, kind::INTEGER)]);

    let e = compile_append(literal_ints(&[7, 8]), literal_ints(&[])).unwrap();
    match resolve(&e).unwrap() {
        Value::Array(v) => assert_eq!(v.len(), 2),
        _ => panic!("expected an array"),
    }
    let td = e.type_def(&state());
    assert_eq!(index_kind_bits(&td), vec![(0, kind::INTEGER), (1, kind::INTEGER)]);
}

#[test]
fn append_function_metadata() {
    assert_eq!(Append.identifier(), "append");
    let ps = Append.parameters();
    assert_eq!(ps.len(), 2);
    assert_eq!(ps[0].keyword, "value");
    assert_eq!(ps[0].kind.bits, kind::ARRAY);
    assert!(ps[0].required);
    assert_eq!(ps[1].keyword, "items");
    assert_eq!(ps[1].kind.bits, kind::ARRAY);
    assert!(ps[1].required);
    let ex = Append.examples();
    assert_eq!(ex.len(), 1);
    assert_eq!(ex[0].source, "append([0, 1], [2, 3])");
    assert_eq!(ex[0].result, "[0, 1, 2, 3]");
}

#[test]
fn kind_operations() {
    let a = Kind::new(kind::INTEGER);
    let b = Kind::new(kind::FLOAT);
    assert_eq!(a.union(b).bits, kind::INTEGER | kind::FLOAT);
    assert_eq!(a.union(b).bits, b.union(a).bits);
    assert_eq!(a.intersect(b).bits, 0);
    assert!(!a.intersects(b));
    assert!(Kind::any().contains(a));
    assert_eq!(Kind::any().bits, kind::ANY);
    let u = a.union(b).union(Kind::new(kind::BYTES));
    assert_eq!(
        u.bits,
        a.union(Kind::new(kind::FLOAT).union(Kind::new(kind::BYTES))).bits
    );
}

#[test]
fn merge_kind_and_fallibility() {
    let t1 = TypeDef {
        fallible: true,
        kind: Kind::new(kind::INTEGER),
        array_index_types: None,
        object_field_types: None,
    };
    let t2 = TypeDef {
        fallible: false,
        kind: Kind::new(kind::BYTES),
        array_index_types: None,
        object_field_types: None,
    };
    let m = t1.merge(&t2);
    assert_eq!(m.kind().bits, kind::INTEGER | kind::BYTES);
    assert!(m.is_fallible());
    let m2 = t2.merge(&t1);
    assert_eq!(m2.kind().bits, m.kind().bits);
    assert!(m2.is_fallible());
    let m3 = t2.merge(&t2);
    assert!(!m3.is_fallible());
}

#[test]
fn merge_keeps_common_index_precision_only() {
    let int_td = || TypeDef {
        fallible: false,
        kind: Kind::new(kind::INTEGER),
        array_index_types: None,
        object_field_types: None,
    };
    let bool_td = || TypeDef {
        fallible: false,
        kind: Kind::new(kind::BOOLEAN),
        array_index_types: None,
        object_field_types: None,
    };
    let a = TypeDef::new().array_mapped(vec![(0, int_td()), (1, int_td())]);
    let b = TypeDef::new().array_mapped(vec![(0, bool_td())]);
    let m = a.merge(&b);
    assert_eq!(m.kind().bits, kind::ARRAY);
    let entries = match &m.array_index_types {
        Some(e) => e,
        None => panic!("expected a map"),
    };
    assert_eq!(entries.len(), 1);
    assert_eq!(entries[0].0, 0);
    assert_eq!(entries[0].1.kind.bits, kind::INTEGER | kind::BOOLEAN);
}

#[test]
fn merge_drops_precision_when_one_side_has_none() {
    let a = TypeDef::new().array(vec![]);
    let b = TypeDef::new();
    let m = a.merge(&b);
    assert!(m.array_index_types.is_none());
    assert_eq!(m.kind().bits, kind::ARRAY | kind::ANY);
}

#[test]
fn documented_example_behaves_as_stated() {
    // append([0, 1], [2, 3]) -> [0, 1, 2, 3], as the usage example says.
    let e = compile_append(literal_ints(&[0, 1]), literal_ints(&[2, 3])).unwrap();
    match resolve(&e).unwrap() {
        Value::Array(v) => {
            assert_eq!(v.len(), 4);
            for (i, x) in v.iter().enumerate() {
                assert!(matches!(x, Value::Integer(n) if *n == i as i64));
            }
        }
        _ => panic!("expected an array"),
    }
}
