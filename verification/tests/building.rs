use tokay::compiler::Compiler;
use tokay::iml::{ImlParselet, ImlResult, ImlValue};
use tokay::op::Op;
use tokay::reader::Offset;
use tokay::value::{List, Value};

fn text(s: &str) -> Value {
    Value::Str(s.to_string())
}

fn parselet(id: usize, signature: Vec<(String, Option<usize>)>) -> ImlValue {
    let locals = signature.len();
    ImlValue::Parselet(ImlParselet::new(id, None, signature, locals, Op::Nop, Op::Nop, Op::Nop))
}

#[test]
fn nothing_gives_no_operation() {
    let mut compiler = Compiler::new();
    assert!(ImlResult::Empty.into_ops(&mut compiler, true).is_empty());
    assert!(compiler.values.is_empty());
}

#[test]
fn small_constants_are_pushed_without_a_static() {
    let mut compiler = Compiler::new();
    let cases = vec![
        (Value::Integer(0), "Push0"),
        (Value::Integer(1), "Push1"),
        (Value::Void, "PushVoid"),
        (Value::Null, "PushNull"),
        (Value::True, "PushTrue"),
        (Value::False, "PushFalse"),
    ];
    for (value, name) in cases {
        let ops = ImlResult::Value(ImlValue::Value(value)).into_ops(&mut compiler, true);
        assert_eq!(ops.len(), 1);
        assert_eq!(format!("{:?}", ops[0]), name);
    }
    assert!(compiler.values.is_empty());
}

#[test]
fn other_values_become_statics_once() {
    let mut compiler = Compiler::new();
    let ops = ImlResult::Value(ImlValue::Value(Value::Integer(2))).into_ops(&mut compiler, false);
    assert!(matches!(ops[..], [Op::LoadStatic(0)]));
    let ops = ImlResult::Value(ImlValue::Value(text("x"))).into_ops(&mut compiler, true);
    assert!(matches!(ops[..], [Op::LoadStatic(1)]));
    let ops = ImlResult::Value(ImlValue::Value(Value::Integer(2))).into_ops(&mut compiler, true);
    assert!(matches!(ops[..], [Op::LoadStatic(0)]));
    let list = Value::List(List { items: vec![text("x")] });
    let ops = ImlResult::Value(ImlValue::Value(list)).into_ops(&mut compiler, true);
    assert!(matches!(ops[..], [Op::LoadStatic(2)]));
    assert_eq!(compiler.values.len(), 3);
}

#[test]
fn callable_values_are_called_where_a_call_is_asked_for() {
    let mut compiler = Compiler::new();
    let ops = ImlResult::Value(parselet(7, Vec::new())).into_ops(&mut compiler, true);
    assert!(matches!(ops[..], [Op::CallStatic(0)]));
    let ops = ImlResult::Value(parselet(7, Vec::new())).into_ops(&mut compiler, false);
    assert!(matches!(ops[..], [Op::LoadStatic(0)]));
    let needs = vec![("x".to_string(), None)];
    let ops = ImlResult::Value(parselet(8, needs)).into_ops(&mut compiler, true);
    assert!(matches!(ops[..], [Op::LoadStatic(1)]));
    let defaults = vec![("x".to_string(), Some(0))];
    let ops = ImlResult::Value(parselet(9, defaults)).into_ops(&mut compiler, true);
    assert!(matches!(ops[..], [Op::CallStatic(2)]));
    let ops = ImlResult::Value(ImlValue::Value(Value::Parselet(4))).into_ops(&mut compiler, true);
    assert!(matches!(ops[..], [Op::CallStatic(3)]));
    assert_eq!(compiler.values.len(), 4);
}

#[test]
fn statics_are_told_apart() {
    assert!(parselet(1, Vec::new()).same(&parselet(1, vec![("x".to_string(), None)])));
    assert!(!parselet(1, Vec::new()).same(&parselet(2, Vec::new())));
    assert!(!parselet(1, Vec::new()).same(&ImlValue::Value(Value::Parselet(1))));
    assert!(ImlValue::Value(text("a")).same(&ImlValue::Value(text("a"))));
    assert!(!ImlValue::Value(text("a")).same(&ImlValue::Value(text("b"))));
    assert!(parselet(1, Vec::new()).is_callable(false));
    assert!(!parselet(1, Vec::new()).is_callable(true));
    assert!(parselet(1, vec![("x".to_string(), None)]).is_callable(true));
    assert!(!parselet(1, vec![("x".to_string(), None)]).is_callable(false));
    assert!(!ImlValue::Value(text("a")).is_callable(false));
    let mut compiler = Compiler::new();
    assert_eq!(compiler.define_value(ImlValue::Value(text("a"))), 0);
    assert_eq!(compiler.define_value(parselet(1, Vec::new())), 1);
    assert_eq!(compiler.define_value(ImlValue::Value(text("a"))), 0);
    assert_eq!(compiler.define_value(parselet(1, Vec::new())), 1);
    assert_eq!(compiler.define_value(parselet(2, Vec::new())), 2);
}

#[test]
fn values_are_compared_by_content() {
    let a = Value::List(List { items: vec![text("x"), Value::Integer(1)] });
    let b = Value::List(List { items: vec![text("x"), Value::Integer(1)] });
    let c = Value::List(List { items: vec![text("x"), Value::Integer(2)] });
    let d = Value::List(List { items: vec![text("x")] });
    assert!(a.same(&b));
    assert!(!a.same(&c));
    assert!(!a.same(&d));
    assert!(!Value::Void.same(&Value::Null));
    assert!(Value::Parselet(1).same(&Value::Parselet(1)));
}

#[test]
fn names_become_what_they_stand_for() {
    let mut compiler = Compiler::new();
    let callee = compiler.define_value(parselet(1, Vec::new()));
    compiler.set_constant("Callee", callee);
    let long = compiler.define_value(ImlValue::Value(text("long")));
    compiler.set_constant("Text", long);
    compiler.set_constant("Gone", 99);
    compiler.set_local("x", 3);
    compiler.set_global("g", 5);
    let name = |n: &str| ImlResult::Identifier(n.to_string(), Some(Offset { offset: 0, row: 1, col: 1 }));
    assert!(matches!(name("Callee").into_ops(&mut compiler, true)[..], [Op::CallStatic(0)]));
    assert!(matches!(name("Callee").into_ops(&mut compiler, false)[..], [Op::LoadStatic(0)]));
    assert!(matches!(name("Text").into_ops(&mut compiler, true)[..], [Op::LoadStatic(1)]));
    assert!(matches!(name("Gone").into_ops(&mut compiler, true)[..], [Op::LoadStatic(99)]));
    assert!(matches!(name("x").into_ops(&mut compiler, true)[..], [Op::LoadFast(3), Op::TryCall]));
    assert!(matches!(name("x").into_ops(&mut compiler, false)[..], [Op::LoadFast(3)]));
    assert!(matches!(name("g").into_ops(&mut compiler, true)[..], [Op::LoadGlobal(5), Op::TryCall]));
    let ops = name("later").into_ops(&mut compiler, true);
    assert!(matches!(&ops[..], [Op::Symbol(n)] if n == "later"));
    assert_eq!(compiler.values.len(), 2);
}

#[test]
fn operations_lose_those_that_do_nothing() {
    let mut compiler = Compiler::new();
    let ops = ImlResult::Ops(vec![Op::Nop, Op::Push0, Op::Nop, Op::Skip, Op::Nop]).into_ops(&mut compiler, false);
    assert!(matches!(ops[..], [Op::Push0, Op::Skip]));
}

#[test]
fn only_values_that_cannot_be_called_are_evaluable() {
    assert_eq!(ImlResult::Value(ImlValue::Value(text("a"))).get_evaluable_value(), Ok(text("a")));
    assert_eq!(ImlResult::Value(ImlValue::Value(Value::Parselet(0))).get_evaluable_value(), Err(()));
    assert_eq!(ImlResult::Value(parselet(1, Vec::new())).get_evaluable_value(), Err(()));
    assert_eq!(ImlResult::Empty.get_evaluable_value(), Err(()));
    assert_eq!(ImlResult::Ops(vec![Op::Push0]).get_evaluable_value(), Err(()));
    assert_eq!(ImlResult::Identifier("a".to_string(), None).get_evaluable_value(), Err(()));
}
