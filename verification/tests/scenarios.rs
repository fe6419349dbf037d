use tokay::ccl::Ccl;
use tokay::error::Error;
use tokay::op::{Block, Char, Match, Op, Repeat, Sequence};
use tokay::parselet::Parselet;
use tokay::program::{Program, Static};
use tokay::value::{Dict, List, Value};

fn text(s: &str) -> Value {
    Value::Str(s.to_string())
}

fn list(items: Vec<Value>) -> Value {
    Value::List(List { items })
}

fn program_of(body: Op) -> Program {
    Program::new(vec![Parselet::new(body, 0).into_refvalue()])
}

#[test]
fn literal_match_gives_the_text() {
    let program = program_of(Match::new("foo"));
    assert_eq!(program.run_from_str("foo"), Ok(Some(text("foo"))));
}

#[test]
fn literal_mismatch_gives_nothing() {
    let program = program_of(Match::new("foo"));
    assert_eq!(program.run_from_str("fox"), Ok(None));
}

#[test]
fn alternation_collects_a_result_per_round() {
    let program = program_of(Block::new(vec![Match::new("a"), Match::new("b")]));
    assert_eq!(program.run_from_str("ab"), Ok(Some(list(vec![text("a"), text("b")]))));
}

fn sum_grammar(plus: Op) -> Program {
    // statics[0] is the number, statics[1] the sum: sum = sum "+" number | number
    let number = Parselet::new(Char::span(Ccl::from_range('0', '9')), 0);
    let recursive = Sequence::new(vec![
        (Op::CallStatic(1), None),
        (plus, None),
        (Op::CallStatic(0), None),
    ]);
    let body = Op::Block(Block {
        id: 1,
        leftrec: true,
        all_leftrec: false,
        items: vec![(recursive, true), (Op::CallStatic(0), false)],
    });
    Program::new(vec![number.into_refvalue(), Parselet::new(body, 0).into_refvalue()])
}

#[test]
fn left_recursion_leans_left() {
    let program = sum_grammar(Match::new_silent("+"));
    assert_eq!(
        program.run_from_str("1+2+3"),
        Ok(Some(list(vec![list(vec![text("1"), text("2")]), text("3")])))
    );
}

#[test]
fn left_recursion_keeps_loud_operators() {
    let program = sum_grammar(Match::new("+"));
    assert_eq!(
        program.run_from_str("1+2+3"),
        Ok(Some(list(vec![
            list(vec![text("1"), text("+"), text("2")]),
            text("+"),
            text("3")
        ])))
    );
}

#[test]
fn left_recursion_of_one_operand() {
    let program = sum_grammar(Match::new("+"));
    assert_eq!(program.run_from_str("42"), Ok(Some(text("42"))));
}

#[test]
fn nullable_repetition_on_empty_input() {
    let program = program_of(Repeat::new(Match::new("a"), 0, 0, false));
    assert_eq!(program.run_from_str(""), Ok(None));
}

#[test]
fn repetition_collects_its_captures() {
    let program = program_of(Repeat::new(Match::new("a"), 0, 0, false));
    assert_eq!(
        program.run_from_str("aaa"),
        Ok(Some(list(vec![text("a"), text("a"), text("a")])))
    );
}

#[test]
fn silent_repetition_gives_the_span() {
    let program = program_of(Repeat::new(Match::new("a"), 0, 0, true));
    assert_eq!(program.run_from_str("aaa"), Ok(Some(text("aaa"))));
}

#[test]
fn create_makes_a_node() {
    let program = program_of(Sequence::new(vec![
        (Match::new("x"), None),
        (Op::Create("X".to_string()), None),
    ]));
    let node = Value::Dict(Dict {
        entries: vec![("emit".to_string(), text("X")), ("value".to_string(), text("x"))],
    });
    assert_eq!(program.run_from_str("x"), Ok(Some(node)));
}

#[test]
fn not_lets_the_rest_match() {
    let program = program_of(Sequence::new(vec![
        (Op::Not(Box::new(Match::new("!"))), None),
        (Match::new("ok"), None),
    ]));
    assert_eq!(program.run_from_str("ok"), Ok(Some(text("ok"))));
}

#[test]
fn not_rejects_and_main_skips() {
    let program = program_of(Sequence::new(vec![
        (Op::Not(Box::new(Match::new("!"))), None),
        (Match::new("ok"), None),
    ]));
    // the body fails at the mark, the main loop skips it, and the rest matches
    assert_eq!(program.run_from_str("!ok"), Ok(Some(text("ok"))));
    assert_eq!(program.run_from_str("!o"), Ok(None));
}

#[test]
fn a_program_without_a_parselet_gives_nothing() {
    let program = Program::new(vec![Static::Value(Value::Integer(1))]);
    assert_eq!(program.main, None);
    assert_eq!(program.run_from_str("abc"), Ok(None));
}

#[test]
fn error_is_rendered_with_its_place() {
    let program = program_of(Op::Expect(Box::new(Match::new("a"))));
    let error: Error = program.run_from_str("b").unwrap_err();
    assert_eq!(error.to_string(), "Line 1, column 1: Expecting \"a\"");
}
