use tokay::capture::{Accept, Capture, Reject};
use tokay::ccl::Ccl;
use tokay::compiler::Compiler;
use tokay::error::Error;
use tokay::op::{Block, Char, Match, Op, Repeat, Sequence};
use tokay::parselet::{Advance, Parselet};
use tokay::program::{Program, Static};
use tokay::reader::{Offset, Range, Reader};
use tokay::runtime::{Context, Runtime};
use tokay::value::{Arith, Dict, List, Value};

fn text(s: &str) -> Value {
    Value::Str(s.to_string())
}

fn list(items: Vec<Value>) -> Value {
    Value::List(List { items })
}

fn dict(entries: Vec<(&str, Value)>) -> Value {
    Value::Dict(Dict { entries: entries.into_iter().map(|(k, v)| (k.to_string(), v)).collect() })
}

fn empty_program() -> Program {
    Program::new(Vec::new())
}

/// Runs `op` in a fresh frame over `input` and returns the outcome with the runtime.
fn run_op(program: &Program, op: &Op, input: &str, locals: usize) -> (Result<Accept, Reject>, Runtime, Context) {
    let mut runtime = Runtime::new(Reader::new(input));
    let context = Context::new(&mut runtime, locals);
    let result = op.run(program, &mut runtime, &context, 1000);
    (result, runtime, context)
}

#[test]
fn match_pushes_its_span() {
    let (result, runtime, _) = run_op(&empty_program(), &Match::new("ab"), "abc", 0);
    assert_eq!(result, Ok(Accept::Push(Capture::Range(Range { start: 0, end: 2 }, 5))));
    assert_eq!(runtime.reader.position(), 2);
}

#[test]
fn silent_match_has_severity_zero() {
    let (result, _, _) = run_op(&empty_program(), &Match::new_silent("ab"), "abc", 0);
    assert_eq!(result, Ok(Accept::Push(Capture::Range(Range { start: 0, end: 2 }, 0))));
}

#[test]
fn failed_match_restores_the_reader() {
    let (result, runtime, context) = run_op(&empty_program(), &Match::new("abd"), "abc", 0);
    assert_eq!(result, Err(Reject::Next));
    assert_eq!(runtime.reader.position(), 0);
    assert_eq!(runtime.stack.len(), context.capture_start);
}

#[test]
fn char_span_takes_all_that_follow() {
    let (result, runtime, _) = run_op(&empty_program(), &Char::span(Ccl::from_range('a', 'c')), "abcd", 0);
    assert_eq!(result, Ok(Accept::Push(Capture::Range(Range { start: 0, end: 3 }, 5))));
    assert_eq!(runtime.reader.position(), 3);
}

#[test]
fn char_takes_one() {
    let (result, _, _) = run_op(&empty_program(), &Char::new(Ccl::from_range('a', 'c')), "abcd", 0);
    assert_eq!(result, Ok(Accept::Push(Capture::Range(Range { start: 0, end: 1 }, 5))));
    let (result, _, _) = run_op(&empty_program(), &Char::char('x'), "abcd", 0);
    assert_eq!(result, Err(Reject::Next));
    let (result, _, _) = run_op(&empty_program(), &Char::any(), "", 0);
    assert_eq!(result, Err(Reject::Next));
    let (result, _, _) = run_op(&empty_program(), &Char::until(';'), "ab;c", 0);
    assert_eq!(result, Ok(Accept::Push(Capture::Range(Range { start: 0, end: 2 }, 5))));
}

#[test]
fn character_classes_hold_their_ranges() {
    let mut class = Ccl::new();
    assert!(!class.test('a'));
    class.add('a', 'c');
    class.add('x', 'x');
    assert!(class.test('a') && class.test('b') && class.test('c') && class.test('x'));
    assert!(!class.test('d') && !class.test('w') && !class.test('y'));
    class.negate();
    assert!(!class.test('b') && class.test('d'));
    class.add('d', 'd');
    assert!(!class.test('d'));
    let digits = Ccl::from_range('0', '9');
    assert!(digits.test('0') && digits.test('9') && !digits.test('a'));
}

#[test]
fn silent_repetitions_keep_no_captures() {
    let op = Repeat::positive_silent(Match::new("a"));
    let (result, _, _) = run_op(&empty_program(), &op, "aab", 0);
    assert_eq!(result, Ok(Accept::Push(Capture::Range(Range { start: 0, end: 2 }, 0))));
    let (result, _, _) = run_op(&empty_program(), &op, "b", 0);
    assert_eq!(result, Err(Reject::Next));
    let op = Repeat::optional_silent(Match::new("a"));
    let (result, runtime, _) = run_op(&empty_program(), &op, "aab", 0);
    assert_eq!(result, Ok(Accept::Push(Capture::Range(Range { start: 0, end: 1 }, 0))));
    assert_eq!(runtime.reader.position(), 1);
    let boxed = Match::new("a").into_box();
    let (result, _, _) = run_op(&empty_program(), &Op::Peek(boxed), "a", 0);
    assert_eq!(result, Ok(Accept::Push(Capture::Range(Range { start: 0, end: 1 }, 5))));
}

#[test]
fn peek_restores_the_reader_on_success() {
    let op = Op::Peek(Box::new(Match::new("ab")));
    let (result, runtime, _) = run_op(&empty_program(), &op, "abc", 0);
    assert_eq!(result, Ok(Accept::Push(Capture::Range(Range { start: 0, end: 2 }, 5))));
    assert_eq!(runtime.reader.position(), 0);
}

#[test]
fn not_inverts_and_restores() {
    let op = Op::Not(Box::new(Match::new("ab")));
    let (result, runtime, context) = run_op(&empty_program(), &op, "abc", 0);
    assert_eq!(result, Err(Reject::Next));
    assert_eq!(runtime.reader.position(), 0);
    assert_eq!(runtime.stack.len(), context.capture_start);
    let (result, runtime, _) = run_op(&empty_program(), &op, "xbc", 0);
    assert_eq!(result, Ok(Accept::Next));
    assert_eq!(runtime.reader.position(), 0);
}

#[test]
fn not_drops_what_the_inner_operation_left() {
    let inner = Sequence::new(vec![(Match::new("a"), None), (Op::Skip, None)]);
    let op = Op::Not(Box::new(inner));
    let (result, runtime, context) = run_op(&empty_program(), &op, "abc", 0);
    assert_eq!(result, Err(Reject::Next));
    assert_eq!(runtime.reader.position(), 0);
    assert_eq!(runtime.stack.len(), context.capture_start);
}

#[test]
fn expect_turns_a_local_failure_into_an_error() {
    let op = Op::Expect(Box::new(Match::new_silent("a")));
    let (result, _, _) = run_op(&empty_program(), &op, "\nb", 0);
    let expected = Error::new(Some(Offset { offset: 0, row: 1, col: 1 }), "Expecting 'a'".to_string());
    assert_eq!(result, Err(Reject::Error(expected)));
    let op = Op::Expect(Box::new(Op::Reject));
    let (result, _, _) = run_op(&empty_program(), &op, "b", 0);
    assert_eq!(result, Err(Reject::Return));
}

#[test]
fn sequence_restores_its_frame_on_failure() {
    let op = Sequence::new(vec![(Match::new("a"), None), (Match::new("b"), None), (Match::new("x"), None)]);
    let (result, runtime, context) = run_op(&empty_program(), &op, "abc", 0);
    assert_eq!(result, Err(Reject::Next));
    assert_eq!(runtime.reader.position(), 0);
    assert_eq!(runtime.stack.len(), context.capture_start);
}

#[test]
fn sequence_collects_a_list() {
    let op = Sequence::new(vec![(Match::new("a"), None), (Match::new_silent("b"), None), (Match::new("c"), None)]);
    let (result, runtime, context) = run_op(&empty_program(), &op, "abc", 0);
    assert_eq!(result, Ok(Accept::Push(Capture::Value(list(vec![text("a"), text("c")]), 5))));
    assert_eq!(runtime.stack.len(), context.capture_start);
}

#[test]
fn sequence_of_one_capture_hands_it_on() {
    let op = Sequence::new(vec![(Op::Nop, None), (Match::new_silent("b"), None)]);
    let (result, _, _) = run_op(&empty_program(), &op, "b", 0);
    assert_eq!(result, Ok(Accept::Push(Capture::Range(Range { start: 0, end: 1 }, 0))));
}

#[test]
fn sequence_with_aliases_collects_a_dictionary() {
    let op = Sequence::new(vec![
        (Match::new("a"), Some("first".to_string())),
        (Match::new("b"), None),
        (Match::new("c"), Some("last".to_string())),
    ]);
    let (result, _, _) = run_op(&empty_program(), &op, "abc", 0);
    let expected = dict(vec![("first", text("a")), ("last", text("c")), ("0", text("b"))]);
    assert_eq!(result, Ok(Accept::Push(Capture::Value(expected, 5))));
}

#[test]
fn sequence_of_placeholders_gives_the_silent_span() {
    let op = Sequence::new(vec![(Op::Peek(Box::new(Op::Nop)), None), (Repeat::kleene_silent(Match::new("a")), None)]);
    // the repetition itself gives its span, which the sequence hands on
    let (result, _, _) = run_op(&empty_program(), &op, "aa", 0);
    assert_eq!(result, Ok(Accept::Push(Capture::Range(Range { start: 0, end: 2 }, 0))));
    let (result, _, _) = run_op(&empty_program(), &op, "b", 0);
    assert_eq!(result, Ok(Accept::Next));
}

#[test]
fn empty_sequence_goes_on() {
    let (result, _, _) = run_op(&empty_program(), &Sequence::new(Vec::new()), "b", 0);
    assert_eq!(result, Ok(Accept::Next));
}

#[test]
fn repeat_respects_its_bounds() {
    let op = Repeat::new(Match::new("a"), 2, 3, false);
    let (result, runtime, _) = run_op(&empty_program(), &op, "a", 0);
    assert_eq!(result, Err(Reject::Next));
    assert_eq!(runtime.reader.position(), 0);
    let (result, runtime, _) = run_op(&empty_program(), &op, "aaaaa", 0);
    assert_eq!(result, Ok(Accept::Push(Capture::Value(list(vec![text("a"), text("a"), text("a")]), 5))));
    assert_eq!(runtime.reader.position(), 3);
    let op = Match::new("a").into_optional();
    let (result, _, _) = run_op(&empty_program(), &op, "b", 0);
    assert_eq!(result, Ok(Accept::Next));
    let op = Match::new("a").into_positive();
    let (result, _, _) = run_op(&empty_program(), &op, "ab", 0);
    assert_eq!(result, Ok(Accept::Push(Capture::Value(text("a"), 5))));
    let op = Match::new("a").into_kleene();
    let (result, _, _) = run_op(&empty_program(), &op, "", 0);
    assert_eq!(result, Ok(Accept::Next));
}

#[test]
fn repeat_of_what_reads_nothing_runs_into_the_budget() {
    let op = Repeat::kleene(Op::Nop);
    let mut runtime = Runtime::new(Reader::new("abc"));
    let context = Context::new(&mut runtime, 0);
    let result = op.run(&empty_program(), &mut runtime, &context, 10);
    let expected = Error::new(Some(Offset { offset: 0, row: 1, col: 1 }), "Recursion limit reached".to_string());
    assert_eq!(result, Err(Reject::Error(expected)));
    assert_eq!(runtime.stack.len(), context.capture_start);
}

#[test]
fn block_discards_a_push_that_read_nothing_unless_it_is_last() {
    let op = Block::new(vec![Op::PushTrue, Match::new("a")]);
    let (result, _, _) = run_op(&empty_program(), &op, "a", 0);
    assert_eq!(result, Ok(Accept::Push(Capture::Range(Range { start: 0, end: 1 }, 5))));
    let op = Block::new(vec![Match::new("a"), Op::PushTrue]);
    let (result, _, _) = run_op(&empty_program(), &op, "b", 0);
    assert_eq!(result, Ok(Accept::Push(Capture::Value(Value::True, 5))));
    let op = Block::new(vec![Op::PushTrue, Match::new("a")]);
    let (result, _, _) = run_op(&empty_program(), &op, "b", 0);
    assert_eq!(result, Err(Reject::Next));
}

#[test]
fn block_answers_from_the_memo_table() {
    let op = Block::with_id(3, vec![Match::new("a")]);
    let mut runtime = Runtime::new(Reader::new("abc"));
    let context = Context::new(&mut runtime, 0);
    runtime.memo.insert(0, 3, 2, Ok(Accept::Push(Capture::Value(Value::Integer(7), 5))));
    let result = op.run(&empty_program(), &mut runtime, &context, 100);
    assert_eq!(result, Ok(Accept::Push(Capture::Value(Value::Integer(7), 5))));
    assert_eq!(runtime.reader.position(), 2);
    assert_eq!(runtime.memo.len(), 1);
}

#[test]
fn memo_keeps_the_latest_record() {
    let mut runtime = Runtime::new(Reader::new("abc"));
    assert_eq!(runtime.memo.get(0, 1), None);
    runtime.memo.insert(0, 1, 0, Err(Reject::Next));
    runtime.memo.insert(0, 2, 1, Ok(Accept::Next));
    runtime.memo.insert(0, 1, 3, Ok(Accept::Skip));
    assert_eq!(runtime.memo.get(0, 1), Some((3, Ok(Accept::Skip))));
    assert_eq!(runtime.memo.get(0, 1), Some((3, Ok(Accept::Skip))));
    assert_eq!(runtime.memo.get(0, 2), Some((1, Ok(Accept::Next))));
    assert_eq!(runtime.memo.get(1, 1), None);
}

#[test]
fn constants_are_pushed_at_severity_five() {
    let cases = vec![
        (Op::Push0, Value::Integer(0)),
        (Op::Push1, Value::Integer(1)),
        (Op::PushVoid, Value::Void),
        (Op::PushNull, Value::Null),
        (Op::PushTrue, Value::True),
        (Op::PushFalse, Value::False),
    ];
    for (op, value) in cases {
        let (result, _, _) = run_op(&empty_program(), &op, "", 0);
        assert_eq!(result, Ok(Accept::Push(Capture::Value(value, 5))));
    }
    let (result, _, _) = run_op(&empty_program(), &Op::Empty, "", 0);
    assert_eq!(result, Ok(Accept::Push(Capture::Empty)));
    let (result, _, _) = run_op(&empty_program(), &Op::Nop, "", 0);
    assert_eq!(result, Ok(Accept::Next));
    let (result, _, _) = run_op(&empty_program(), &Op::Skip, "", 0);
    assert_eq!(result, Ok(Accept::Skip));
    let (result, _, _) = run_op(&empty_program(), &Op::Reject, "", 0);
    assert_eq!(result, Err(Reject::Return));
}

#[test]
fn statics_are_loaded_by_address() {
    let program = Program::new(vec![Static::Value(text("x")), Parselet::new(Op::Nop, 0).into_refvalue()]);
    let (result, _, _) = run_op(&program, &Op::LoadStatic(0), "", 0);
    assert_eq!(result, Ok(Accept::Push(Capture::Value(text("x"), 5))));
    let (result, _, _) = run_op(&program, &Op::LoadStatic(1), "", 0);
    assert_eq!(result, Ok(Accept::Push(Capture::Value(Value::Parselet(1), 5))));
    let (result, _, _) = run_op(&program, &Op::LoadStatic(2), "", 0);
    assert!(matches!(result, Err(Reject::Error(_))));
}

fn run_ops(ops: Vec<Op>, locals: usize) -> (Result<Accept, Reject>, Runtime, Context) {
    let items = ops.into_iter().map(|op| (op, None)).collect();
    run_op(&empty_program(), &Sequence::new(items), "hello", locals)
}

#[test]
fn arithmetic_takes_two_values_and_pushes_one() {
    let (result, _, _) = run_ops(vec![Op::Push1, Op::Push1, Op::Add], 0);
    assert_eq!(result, Ok(Accept::Push(Capture::Value(Value::Integer(2), 10))));
    let (result, _, _) = run_ops(vec![Op::Push0, Op::Push1, Op::Sub], 0);
    assert_eq!(result, Ok(Accept::Push(Capture::Value(Value::Integer(-1), 10))));
    let (result, _, _) = run_ops(vec![Op::Push1, Op::Push0, Op::Div], 0);
    assert!(matches!(result, Err(Reject::Error(_))));
    let (result, _, _) = run_ops(vec![Op::Push1, Op::Add], 0);
    assert!(matches!(result, Err(Reject::Error(_))));
}

#[test]
fn arithmetic_on_values() {
    assert_eq!(Value::arith(Arith::Add, &Value::Integer(2), &Value::Integer(3)), Some(Value::Integer(5)));
    assert_eq!(Value::arith(Arith::Sub, &Value::Integer(2), &Value::Integer(3)), Some(Value::Integer(-1)));
    assert_eq!(Value::arith(Arith::Mul, &Value::Integer(-2), &Value::Integer(3)), Some(Value::Integer(-6)));
    assert_eq!(Value::arith(Arith::Div, &Value::Integer(-7), &Value::Integer(2)), Some(Value::Integer(-3)));
    assert_eq!(Value::arith(Arith::Div, &Value::Integer(7), &Value::Integer(0)), None);
    assert_eq!(Value::arith(Arith::Add, &Value::Integer(i64::MAX), &Value::Integer(1)), None);
    assert_eq!(Value::arith(Arith::Div, &Value::Integer(i64::MIN), &Value::Integer(-1)), None);
    assert_eq!(Value::arith(Arith::Add, &text("a"), &Value::Integer(1)), Some(text("a1")));
    assert_eq!(Value::arith(Arith::Add, &Value::True, &Value::True), Some(Value::Integer(2)));
    assert_eq!(Value::arith(Arith::Mul, &text("a"), &Value::Integer(1)), Some(Value::Integer(0)));
    assert_eq!(Value::arith(Arith::Mul, &text("3"), &Value::Integer(4)), Some(Value::Integer(12)));
}

#[test]
fn locals_are_stored_and_loaded() {
    let (result, _, _) = run_ops(vec![Op::Push1, Op::StoreFast(0), Op::LoadFast(0), Op::LoadAccept], 1);
    assert_eq!(result, Ok(Accept::Return(Some(Value::Integer(1)))));
    let (result, _, _) = run_ops(vec![Op::PushTrue, Op::StoreGlobal(0), Op::LoadGlobal(0), Op::LoadAccept], 1);
    assert_eq!(result, Ok(Accept::Return(Some(Value::True))));
    let (result, _, _) = run_ops(vec![Op::LoadFast(0)], 1);
    assert_eq!(result, Ok(Accept::Push(Capture::Value(Value::Void, 5))));
    let (result, _, _) = run_ops(vec![Op::StoreFast(0)], 1);
    assert!(matches!(result, Err(Reject::Error(_))));
}

#[test]
fn capture_zero_is_the_text_read_so_far() {
    let op = Sequence::new(vec![(Match::new("he"), None), (Op::LoadFastCapture(0), None), (Op::LoadAccept, None)]);
    let (result, _, _) = run_op(&empty_program(), &op, "hello", 0);
    assert_eq!(result, Ok(Accept::Return(Some(text("he")))));
}

#[test]
fn captures_are_loaded_and_stored_by_index() {
    let op = Sequence::new(vec![
        (Match::new("he"), None),
        (Match::new("l"), None),
        (Op::Push1, None),
        (Op::LoadCapture, None),
        (Op::LoadAccept, None),
    ]);
    let (result, _, _) = run_op(&empty_program(), &op, "hello", 0);
    assert_eq!(result, Ok(Accept::Return(Some(text("l")))));
    let op = Sequence::new(vec![
        (Match::new("he"), None),
        (Op::PushTrue, None),
        (Op::StoreFastCapture(0), None),
        (Op::LoadFastCapture(0), None),
        (Op::LoadAccept, None),
    ]);
    let (result, _, _) = run_op(&empty_program(), &op, "hello", 0);
    assert_eq!(result, Ok(Accept::Return(Some(Value::True))));
    let (result, _, _) = run_ops(vec![Op::LoadFastCapture(9), Op::LoadAccept], 0);
    assert_eq!(result, Ok(Accept::Return(Some(Value::Void))));
}

#[test]
fn lexeme_wraps_the_text_read() {
    let op = Sequence::new(vec![(Match::new("he"), None), (Op::Lexeme("Word".to_string()), None)]);
    let (result, _, _) = run_op(&empty_program(), &op, "hello", 0);
    assert_eq!(result, Ok(Accept::Return(Some(dict(vec![("emit", text("Word")), ("value", text("he"))])))));
}

#[test]
fn create_puts_lists_under_children() {
    let op = Sequence::new(vec![
        (Match::new("h"), None),
        (Match::new("e"), None),
        (Op::Create("Pair".to_string()), None),
    ]);
    let (result, runtime, context) = run_op(&empty_program(), &op, "hello", 0);
    let expected = dict(vec![("emit", text("Pair")), ("children", list(vec![text("h"), text("e")]))]);
    assert_eq!(result, Ok(Accept::Return(Some(expected))));
    assert_eq!(runtime.stack.len(), context.capture_start);
    let (result, _, _) = run_op(&empty_program(), &Op::Create("Leaf".to_string()), "hello", 0);
    assert_eq!(result, Ok(Accept::Return(Some(text("Leaf")))));
}

#[test]
fn unresolved_symbol_is_an_error() {
    let (result, _, _) = run_op(&empty_program(), &Op::Symbol("x".to_string()), "", 0);
    let expected = Error::new(Some(Offset { offset: 0, row: 1, col: 1 }), "Unresolved symbol x".to_string());
    assert_eq!(result, Err(Reject::Error(expected)));
    let (result, _, _) = run_op(&empty_program(), &Op::Error("no".to_string()), "", 0);
    let expected = Error::new(Some(Offset { offset: 0, row: 1, col: 1 }), "no".to_string());
    assert_eq!(result, Err(Reject::Error(expected)));
}

fn calling_program() -> Program {
    // statics[0]: prefix(what="a") matches its argument as a literal would: here it returns it
    let mut returns = Parselet::new(Sequence::new(vec![(Op::LoadFast(0), None), (Op::LoadAccept, None)]), 1);
    returns.signature = vec![("what".to_string(), Some(1))];
    let needs = {
        let mut p = Parselet::new(Sequence::new(vec![(Op::LoadFast(0), None), (Op::LoadAccept, None)]), 1);
        p.signature = vec![("what".to_string(), None)];
        p
    };
    Program::new(vec![
        returns.into_refvalue(),
        Static::Value(text("default")),
        needs.into_refvalue(),
        Static::Value(Value::Parselet(0)),
    ])
}

#[test]
fn calls_bind_arguments_and_defaults() {
    let program = calling_program();
    let (result, runtime, context) = run_op(&program, &Op::CallStatic(0), "", 0);
    assert_eq!(result, Ok(Accept::Push(Capture::Value(text("default"), 5))));
    assert_eq!(runtime.stack.len(), context.capture_start);
    let op = Sequence::new(vec![(Op::Push1, None), (Op::CallStaticArg(0, 1), None)]);
    let (result, runtime, context) = run_op(&program, &op, "", 0);
    assert_eq!(result, Ok(Accept::Push(Capture::Value(Value::Integer(1), 5))));
    assert_eq!(runtime.stack.len(), context.capture_start);
    // through a value that refers to the parselet
    let (result, _, _) = run_op(&program, &Op::CallStatic(3), "", 0);
    assert_eq!(result, Ok(Accept::Push(Capture::Value(text("default"), 5))));
}

#[test]
fn calls_report_missing_and_surplus_arguments() {
    let program = calling_program();
    let (result, runtime, context) = run_op(&program, &Op::CallStatic(2), "", 0);
    let expected = Error::new(Some(Offset { offset: 0, row: 1, col: 1 }), "Expected argument 'what'".to_string());
    assert_eq!(result, Err(Reject::Error(expected)));
    assert_eq!(runtime.stack.len(), context.capture_start);
    let op = Sequence::new(vec![(Op::Push1, None), (Op::Push1, None), (Op::CallStaticArg(0, 2), None)]);
    let (result, _, _) = run_op(&program, &op, "", 0);
    let expected = Error::new(Some(Offset { offset: 0, row: 1, col: 1 }), "Too many arguments".to_string());
    assert_eq!(result, Err(Reject::Error(expected)));
    let (result, _, _) = run_op(&program, &Op::CallStatic(1), "", 0);
    let expected = Error::new(Some(Offset { offset: 0, row: 1, col: 1 }), "Value cannot be called".to_string());
    assert_eq!(result, Err(Reject::Error(expected)));
    let (result, _, _) = run_op(&program, &Op::CallStaticArg(0, 1), "", 0);
    let expected = Error::new(Some(Offset { offset: 0, row: 1, col: 1 }), "Stack underflow".to_string());
    assert_eq!(result, Err(Reject::Error(expected)));
}

#[test]
fn trycall_calls_what_needs_no_arguments() {
    let program = calling_program();
    let op = Sequence::new(vec![(Op::LoadStatic(0), None), (Op::TryCall, None)]);
    let (result, _, _) = run_op(&program, &op, "", 0);
    assert_eq!(result, Ok(Accept::Push(Capture::Value(text("default"), 5))));
    let op = Sequence::new(vec![(Op::LoadStatic(2), None), (Op::TryCall, None)]);
    let (result, _, _) = run_op(&program, &op, "", 0);
    assert_eq!(result, Ok(Accept::Push(Capture::Value(Value::Parselet(2), 1))));
    let op = Sequence::new(vec![(Op::LoadStatic(1), None), (Op::TryCall, None)]);
    let (result, _, _) = run_op(&program, &op, "", 0);
    assert_eq!(result, Ok(Accept::Push(Capture::Value(text("default"), 1))));
    let op = Sequence::new(vec![(Op::LoadStatic(1), None), (Op::Call, None)]);
    let (result, _, _) = run_op(&program, &op, "", 0);
    assert!(matches!(result, Err(Reject::Error(_))));
}

#[test]
fn named_arguments_are_bound_by_name() {
    let program = calling_program();
    let mut runtime = Runtime::new(Reader::new(""));
    let context = Context::new(&mut runtime, 0);
    context.push(&mut runtime, dict(vec![("what", Value::Integer(5))]));
    let result = Op::CallStaticArgNamed(2, 0).run(&program, &mut runtime, &context, 100);
    assert_eq!(result, Ok(Accept::Push(Capture::Value(Value::Integer(5), 5))));
    assert_eq!(runtime.stack.len(), context.capture_start);
    context.push(&mut runtime, dict(vec![("other", Value::Integer(5))]));
    let result = Op::CallStaticArgNamed(0, 0).run(&program, &mut runtime, &context, 100);
    let expected =
        Error::new(Some(Offset { offset: 0, row: 1, col: 1 }), "Unexpected named argument 'other'".to_string());
    assert_eq!(result, Err(Reject::Error(expected)));
    assert_eq!(runtime.stack.len(), context.capture_start);
}

#[test]
fn a_call_leaves_the_stack_as_it_found_it() {
    let body = Sequence::new(vec![(Match::new("a"), None), (Match::new("b"), None), (Op::Skip, None)]);
    let program = Program::new(vec![Parselet::new(body, 3).into_refvalue()]);
    let (result, runtime, context) = run_op(&program, &Op::CallStatic(0), "ab", 0);
    assert_eq!(result, Ok(Accept::Next));
    assert_eq!(runtime.stack.len(), context.capture_start);
    assert_eq!(runtime.reader.position(), 2);
    let (result, runtime, context) = run_op(&program, &Op::CallStatic(0), "ax", 0);
    assert_eq!(result, Err(Reject::Next));
    assert_eq!(runtime.stack.len(), context.capture_start);
    assert_eq!(runtime.reader.position(), 0);
}

#[test]
fn silent_parselet_returns_a_placeholder() {
    let program = Program::new(vec![Parselet::new_silent(Match::new("a"), 0).into_refvalue()]);
    let (result, _, _) = run_op(&program, &Op::CallStatic(0), "a", 0);
    assert_eq!(result, Ok(Accept::Push(Capture::Empty)));
}

#[test]
fn begin_and_end_feed_the_results() {
    let mut parselet = Parselet::new(Match::new("a"), 0);
    parselet.begin = Op::Push0;
    parselet.end = Op::Push1;
    let program = Program::new(vec![parselet.into_refvalue()]);
    assert_eq!(
        program.run_from_str("axa"),
        Ok(Some(list(vec![Value::Integer(0), text("a"), text("a"), Value::Integer(1)])))
    );
}

#[test]
fn main_mode_skips_a_character_after_a_round_that_read_nothing() {
    // the body accepts without reading; every round advances by one character
    let program = Program::new(vec![Parselet::new(Op::PushTrue, 0).into_refvalue()]);
    assert_eq!(program.run_from_str("abc"), Ok(Some(list(vec![Value::True, Value::True, Value::True]))));
    assert_eq!(program.run_from_str(""), Ok(Some(Value::True)));
}

#[test]
fn a_run_folds_void_and_failures() {
    let program = Program::new(vec![Parselet::new(Op::PushVoid, 0).into_refvalue()]);
    assert_eq!(program.run_from_str(""), Ok(None));
    let program = Program::new(vec![Parselet::new(Op::Error("bad".to_string()), 0).into_refvalue()]);
    assert_eq!(
        program.run_from_str("x"),
        Err(Error::new(Some(Offset { offset: 0, row: 1, col: 1 }), "bad".to_string()))
    );
    let program = Program { statics: vec![Static::Value(Value::Void)], main: Some(0) };
    assert_eq!(program.run_from_string("x".to_string()), Err(Error::new(None, "Main is no parselet".to_string())));
}

#[test]
fn the_budget_of_a_run_is_the_limit_of_the_runtime() {
    let program = Program::new(vec![Parselet::new(Match::new("a"), 0).into_refvalue()]);
    let mut runtime = Runtime::new(Reader::new("aaaaaaaaaa"));
    runtime.limit = 3;
    let result = program.run(&mut runtime);
    assert_eq!(
        result,
        Err(Error::new(Some(Offset { offset: 4, row: 1, col: 5 }), "Recursion limit reached".to_string()))
    );
    assert_eq!(runtime.stack.len(), 0);
    let result = program.run_from_reader(Reader::new("aaaaaaaaaa"));
    assert!(matches!(result, Ok(Some(Value::List(_)))));
}

#[test]
fn growing_a_left_recursion_takes_no_more_rounds_than_characters() {
    let number = Parselet::new(Char::span(Ccl::from_range('0', '9')), 0);
    let recursive = Sequence::new(vec![
        (Op::CallStatic(1), None),
        (Match::new_silent("+"), None),
        (Op::CallStatic(0), None),
    ]);
    let body = Block::new(vec![recursive, Op::CallStatic(0)]);
    let mut program = Program::new(vec![number.into_refvalue(), Parselet::new(body, 0).into_refvalue()]);
    program.finalize();
    let input = "1+2+3+4";
    let mut runtime = Runtime::new(Reader::new(input));
    let result = program.run(&mut runtime);
    assert!(matches!(result, Ok(Some(Value::List(_)))));
    // the seed and one record for each round that was committed
    assert!(runtime.memo.len() <= 1 + input.len());
    assert_eq!(runtime.memo.get(0, 0).map(|record| record.0), Some(7));
    assert_eq!(runtime.stack.len(), 0);
}

#[test]
fn a_parselet_steps_on_the_outcome_of_its_body() {
    let reader = Reader::new("hello");
    let parselet = Parselet::build(Some("p".to_string()), Some((true, false)), 7, Vec::new(), 0, Op::Nop, Op::Nop, Op::Nop);
    assert!(parselet.leftrec && !parselet.nullable);
    let step = |main: bool, have: bool, result: Result<Accept, Reject>| parselet.step(main, have, result, &reader);
    assert!(matches!(step(false, false, Ok(Accept::Skip)), Advance::Return(Ok(Accept::Next))));
    assert!(matches!(
        step(false, false, Ok(Accept::Return(Some(Value::True)))),
        Advance::Return(Ok(Accept::Push(Capture::Value(Value::True, 7))))
    ));
    assert!(matches!(
        step(false, false, Ok(Accept::Return(None))),
        Advance::Return(Ok(Accept::Push(Capture::Empty)))
    ));
    assert!(matches!(step(false, false, Ok(Accept::Repeat(None))), Advance::Continue(None)));
    assert!(matches!(step(false, false, Ok(Accept::Next)), Advance::Return(Ok(Accept::Next))));
    assert!(matches!(step(false, true, Err(Reject::Main)), Advance::Return(Err(Reject::Main))));
    assert!(matches!(step(false, false, Err(Reject::Next)), Advance::Return(Err(Reject::Next))));
    assert!(matches!(step(false, true, Err(Reject::Return)), Advance::Continue(None)));
    assert!(matches!(step(true, false, Err(Reject::Main)), Advance::Backtrack));
    assert!(matches!(step(true, false, Err(Reject::Next)), Advance::Backtrack));
    assert!(matches!(step(true, false, Ok(Accept::Next)), Advance::Continue(None)));
    assert!(matches!(
        step(true, false, Ok(Accept::Push(Capture::Range(Range { start: 1, end: 3 }, 0)))),
        Advance::Continue(Some(Value::Str(text))) if text == "el"
    ));
    assert!(matches!(step(true, false, Ok(Accept::Push(Capture::Empty))), Advance::Continue(None)));
    assert!(matches!(step(true, false, Ok(Accept::Skip)), Advance::Return(Ok(Accept::Next))));
    assert!(matches!(
        step(true, true, Err(Reject::Error(Error::from_message("e")))),
        Advance::Return(Err(Reject::Error(_)))
    ));
}

#[test]
fn resolve_binds_names() {
    let mut compiler = Compiler::new();
    compiler.set_constant("Pi", 3);
    compiler.set_local("x", 1);
    compiler.set_global("x", 7);
    compiler.set_global("g", 2);
    let op = Sequence::new(vec![
        (Op::Symbol("Pi".to_string()), None),
        (Op::Symbol("x".to_string()), Some("arg".to_string())),
        (Op::Not(Box::new(Op::Symbol("g".to_string()))), None),
        (Op::Symbol("later".to_string()), None),
    ]);
    let resolved = op.resolve(&compiler, true, false).unwrap();
    let items = match resolved {
        Op::Sequence(sequence) => sequence.items,
        other => panic!("not a sequence: {:?}", other),
    };
    assert!(matches!(items[0].0, Op::CallStatic(3)));
    match &items[1].0 {
        Op::Sequence(pair) => {
            assert!(matches!(pair.items[0].0, Op::LoadFast(1)));
            assert!(matches!(pair.items[1].0, Op::TryCall));
        }
        other => panic!("not a pair: {:?}", other),
    }
    assert_eq!(items[1].1, Some("arg".to_string()));
    match &items[2].0 {
        Op::Not(inner) => match &**inner {
            Op::Sequence(pair) => assert!(matches!(pair.items[0].0, Op::LoadGlobal(2))),
            other => panic!("not a pair: {:?}", other),
        },
        other => panic!("not a not: {:?}", other),
    }
    assert!(matches!(&items[3].0, Op::Symbol(name) if name == "later"));
}

#[test]
fn resolve_without_locals_takes_the_global() {
    let mut compiler = Compiler::new();
    compiler.set_local("x", 1);
    compiler.set_global("x", 7);
    let resolved = Op::Symbol("x".to_string()).resolve(&compiler, false, true).unwrap();
    match &resolved {
        Op::Sequence(pair) => assert!(matches!(pair.items[0].0, Op::LoadGlobal(7))),
        other => panic!("not a pair: {:?}", other),
    }
}

#[test]
fn strict_resolve_names_the_first_unknown() {
    let compiler = Compiler::new();
    let op = Block::new(vec![Op::Nop, Op::Symbol("a".to_string()), Op::Symbol("b".to_string())]);
    let error = op.resolve(&compiler, true, true).unwrap_err();
    assert_eq!(error, Error::new(None, "Cannot resolve a".to_string()));
}

#[test]
fn later_definitions_shadow_earlier_ones() {
    let mut compiler = Compiler::new();
    compiler.set_constant("a", 1);
    compiler.set_constant("b", 2);
    compiler.set_constant("a", 3);
    assert_eq!(compiler.get_constant("a"), Some(3));
    assert_eq!(compiler.get_constant("b"), Some(2));
    assert_eq!(compiler.get_constant("c"), None);
    assert_eq!(compiler.get_local("a"), None);
    assert_eq!(compiler.get_global("a"), None);
}

#[test]
fn blocks_get_identities_of_their_own() {
    let first = Parselet::new(Block::new(vec![Block::new(vec![Op::Nop]), Op::Peek(Box::new(Block::new(vec![])))]), 0);
    let second = Parselet::new(Sequence::new(vec![(Block::new(vec![]), None)]), 0);
    let program = Program::new(vec![first.into_refvalue(), Static::Value(Value::Void), second.into_refvalue()]);
    let mut ids = Vec::new();
    fn walk(op: &Op, ids: &mut Vec<usize>) {
        match op {
            Op::Block(block) => {
                ids.push(block.id);
                for (item, _) in &block.items {
                    walk(item, ids);
                }
            }
            Op::Sequence(sequence) => {
                for (item, _) in &sequence.items {
                    walk(item, ids);
                }
            }
            Op::Peek(inner) | Op::Not(inner) | Op::Expect(inner) => walk(inner, ids),
            Op::Repeat(repeat) => walk(&repeat.parser, ids),
            _ => {}
        }
    }
    for entry in &program.statics {
        if let Static::Parselet(parselet) = entry {
            walk(&parselet.body, &mut ids);
        }
    }
    assert_eq!(ids, vec![0, 1, 2, 3]);
    assert_eq!(program.main, Some(2));
}
