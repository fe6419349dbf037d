use tokay::ccl::Ccl;
use tokay::compiler::Compiler;
use tokay::iml::{Consumable, ImlParselet};
use tokay::op::{Block, Char, Match, Op, Repeat, Sequence};
use tokay::parselet::Parselet;
use tokay::program::{Program, Static};
use tokay::value::{List, Value};

fn text(s: &str) -> Value {
    Value::Str(s.to_string())
}

fn list(items: Vec<Value>) -> Value {
    Value::List(List { items })
}

fn sum_program() -> Program {
    let number = Parselet::new(Char::span(Ccl::from_range('0', '9')), 0);
    let recursive = Sequence::new(vec![
        (Op::CallStatic(1), None),
        (Match::new_silent("+"), None),
        (Op::CallStatic(0), None),
    ]);
    let body = Block::with_id(7, vec![recursive, Op::CallStatic(0)]);
    Program::new(vec![number.into_refvalue(), Parselet::new(body, 0).into_refvalue()])
}

fn parselet_at(program: &Program, addr: usize) -> &Parselet {
    match &program.statics[addr] {
        Static::Parselet(parselet) => parselet,
        _ => panic!("no parselet at {}", addr),
    }
}

#[test]
fn finalize_marks_direct_left_recursion() {
    let mut program = sum_program();
    let loops = program.finalize();
    assert!(loops >= 1 && loops <= 5);
    let number = parselet_at(&program, 0);
    assert!(!number.leftrec);
    assert!(!number.nullable);
    let sum = parselet_at(&program, 1);
    assert!(sum.leftrec);
    assert!(!sum.nullable);
    match &sum.body {
        Op::Block(block) => {
            assert_eq!(block.id, 0);
            assert!(block.leftrec);
            assert!(!block.all_leftrec);
            assert!(block.items[0].1);
            assert!(!block.items[1].1);
        }
        other => panic!("body is {:?}", other),
    }
}

#[test]
fn finalized_grammar_parses_left_recursion() {
    let mut program = sum_program();
    program.finalize();
    assert_eq!(
        program.run_from_str("1+2+3"),
        Ok(Some(list(vec![list(vec![text("1"), text("2")]), text("3")])))
    );
}

#[test]
fn finalize_marks_indirect_left_recursion() {
    // statics[0] calls statics[1] first, and statics[1] calls statics[0] first
    let first = Parselet::new(
        Block::new(vec![
            Sequence::new(vec![(Op::CallStatic(1), None), (Match::new("a"), None)]),
            Match::new("x"),
        ]),
        0,
    );
    let second = Parselet::new(
        Block::new(vec![
            Sequence::new(vec![(Op::CallStatic(0), None), (Match::new("b"), None)]),
            Match::new("y"),
        ]),
        0,
    );
    let mut program = Program::new(vec![first.into_refvalue(), second.into_refvalue()]);
    program.finalize();
    assert!(parselet_at(&program, 0).leftrec);
    assert!(parselet_at(&program, 1).leftrec);
}

#[test]
fn finalize_is_monotone_and_repeatable() {
    let mut program = sum_program();
    program.finalize();
    let flags: Vec<(bool, bool)> =
        (0..2).map(|i| (parselet_at(&program, i).leftrec, parselet_at(&program, i).nullable)).collect();
    let loops = program.finalize();
    assert_eq!(loops, 1);
    let again: Vec<(bool, bool)> =
        (0..2).map(|i| (parselet_at(&program, i).leftrec, parselet_at(&program, i).nullable)).collect();
    assert_eq!(flags, again);
}

#[test]
fn repetition_is_nullable_where_its_minimum_is_zero() {
    let mut program = Program::new(vec![
        Parselet::new(Repeat::kleene(Match::new("a")), 0).into_refvalue(),
        Parselet::new(Repeat::positive(Match::new("a")), 0).into_refvalue(),
        Parselet::new(Op::Nop, 0).into_refvalue(),
    ]);
    program.finalize();
    assert!(parselet_at(&program, 0).nullable);
    assert!(!parselet_at(&program, 1).nullable);
    assert!(parselet_at(&program, 2).nullable);
}

#[test]
fn parselets_under_construction_are_told_apart_by_identity() {
    let mut compiler = Compiler::new();
    let first = ImlParselet::new(compiler.new_id(), Some("a".to_string()), Vec::new(), 0, Op::Nop, Op::Nop, Op::Nop);
    let second = ImlParselet::new(compiler.new_id(), Some("a".to_string()), Vec::new(), 0, Op::Nop, Op::Nop, Op::Nop);
    let twin = ImlParselet::new(first.id, None, Vec::new(), 3, Op::Skip, Op::Nop, Op::Nop);
    assert_eq!(first.id, 0);
    assert_eq!(second.id, 1);
    assert!(first != second);
    assert!(first == twin);
    assert!(first < second);
    assert_eq!(second.partial_cmp(&first), Some(std::cmp::Ordering::Greater));
    assert_eq!(first.partial_cmp(&twin), Some(std::cmp::Ordering::Equal));
}

#[test]
fn a_parselet_under_construction_becomes_a_parselet() {
    let mut compiler = Compiler::new();
    compiler.set_constant("Digit", 0);
    let mut built = ImlParselet::new(
        compiler.new_id(),
        Some("sum".to_string()),
        vec![("x".to_string(), None)],
        2,
        Op::Nop,
        Op::Nop,
        Sequence::new(vec![(Op::Symbol("Digit".to_string()), None), (Op::Symbol("x".to_string()), None)]),
    );
    built.severity = 9;
    let unknown = ImlParselet::new(9, None, Vec::new(), 0, Op::Symbol("nowhere".to_string()), Op::Nop, Op::Nop);
    assert_eq!(
        unknown.resolve(&compiler, true, true).unwrap_err().to_string(),
        "Cannot resolve nowhere"
    );
    compiler.set_local("x", 0);
    let resolved = built.resolve(&compiler, true, true).unwrap();
    let statics = vec![Parselet::new(Char::span(Ccl::from_range('0', '9')), 0).into_refvalue()];
    let mut table = vec![(false, true)];
    let mut active = vec![false];
    let (finalized, consumable) = resolved.finalize(&statics, &mut table, &mut active, 1);
    assert_eq!(consumable, Consumable { leftrec: false, nullable: false });
    assert_eq!(table, vec![(false, false)]);
    assert_eq!(active, vec![false]);
    let mut finalized = finalized;
    finalized.consuming = Some(consumable);
    let parselet = finalized.into_parselet();
    assert_eq!(parselet.name, Some("sum".to_string()));
    assert_eq!(parselet.signature, vec![("x".to_string(), None)]);
    assert_eq!(parselet.locals, 2);
    assert_eq!(parselet.severity, 9);
    assert!(!parselet.leftrec && !parselet.nullable && !parselet.silent);
    match &parselet.body {
        Op::Sequence(sequence) => {
            assert!(matches!(sequence.items[0].0, Op::CallStatic(0)));
            assert!(!sequence.leftrec && !sequence.nullable);
        }
        other => panic!("body is {:?}", other),
    }
    let plain = ImlParselet::new(3, None, Vec::new(), 0, Op::Nop, Op::Nop, Op::Nop).into_parselet();
    assert!(!plain.leftrec && plain.nullable);
}
