use tokay::capture::Capture;
use tokay::error::Error;
use tokay::reader::{Offset, Range, Reader};
use tokay::runtime::{Context, Runtime};
use tokay::text::{decimal_string, parse_integer};
use tokay::value::{Dict, List, Value};

fn text(s: &str) -> Value {
    Value::Str(s.to_string())
}

fn list(items: Vec<Value>) -> Value {
    Value::List(List { items })
}

#[test]
fn reader_walks_the_input() {
    let mut reader = Reader::new("a\nbc");
    assert_eq!(reader.len(), 4);
    assert_eq!(reader.peek(), Some('a'));
    assert_eq!(reader.tell(), Offset { offset: 0, row: 1, col: 1 });
    assert_eq!(reader.next(), Some('a'));
    assert_eq!(reader.next(), Some('\n'));
    assert_eq!(reader.tell(), Offset { offset: 2, row: 2, col: 1 });
    assert_eq!(reader.next(), Some('b'));
    assert_eq!(reader.tell(), Offset { offset: 3, row: 2, col: 2 });
    assert!(!reader.eof());
    assert_eq!(reader.next(), Some('c'));
    assert!(reader.eof());
    assert_eq!(reader.next(), None);
    assert_eq!(reader.peek(), None);
    assert_eq!(reader.position(), 4);
    assert_eq!(reader.capture_from(1), Range { start: 1, end: 4 });
    assert_eq!(reader.capture_from(9), Range { start: 4, end: 4 });
    assert_eq!(reader.capture_last(3), Range { start: 1, end: 4 });
    assert_eq!(reader.capture_last(9), Range { start: 0, end: 4 });
    reader.reset(1);
    assert_eq!(reader.position(), 1);
    reader.reset(100);
    assert_eq!(reader.position(), 4);
}

#[test]
fn reader_extracts_spans() {
    let reader = Reader::new("héllo");
    assert_eq!(reader.extract(&Range { start: 1, end: 3 }), "él");
    assert_eq!(reader.extract(&Range { start: 3, end: 99 }), "lo");
    assert_eq!(reader.extract(&Range { start: 4, end: 2 }), "");
    assert_eq!(reader.extract(&Range { start: 9, end: 12 }), "");
}

#[test]
fn errors_render_with_and_without_a_place() {
    let mut error = Error::new(None, "broken".to_string());
    assert_eq!(error.to_string(), "broken");
    error.patch_offset(Offset { offset: 7, row: 3, col: 12 });
    assert_eq!(error.to_string(), "Line 3, column 12: broken");
    error.patch_offset(Offset { offset: 0, row: 1, col: 1 });
    assert_eq!(error.offset, Some(Offset { offset: 7, row: 3, col: 12 }));
    assert_eq!(Error::from_message("x"), Error::new(None, "x".to_string()));
}

#[test]
fn numerals_are_read_as_std_reads_them() {
    for numeral in ["0", "7", "-7", "+7", "", "-", "+", "1x", " 1", "1 ", "18446744073709551616", "೧"] {
        assert_eq!(parse_integer(numeral), numeral.parse::<i64>().ok(), "{:?}", numeral);
    }
}

#[test]
fn numerals() {
    assert_eq!(decimal_string(0), "0");
    assert_eq!(decimal_string(9), "9");
    assert_eq!(decimal_string(10), "10");
    assert_eq!(decimal_string(1234567890), "1234567890");
}

#[test]
fn values_are_written_as_in_source_text() {
    assert_eq!(Value::Void.repr(), "void");
    assert_eq!(Value::Null.repr(), "null");
    assert_eq!(Value::True.repr(), "true");
    assert_eq!(Value::False.repr(), "false");
    assert_eq!(Value::Integer(-42).repr(), "-42");
    assert_eq!(Value::Integer(i64::MIN).repr(), "-9223372036854775808");
    assert_eq!(text("a\"b\\c").repr(), "\"a\\\"b\\\\c\"");
    assert_eq!(Value::Parselet(3).repr(), "<parselet 3>");
    assert_eq!(list(vec![]).repr(), "()");
    assert_eq!(list(vec![Value::Integer(1)]).repr(), "(1, )");
    assert_eq!(list(vec![Value::Integer(1), text("x")]).repr(), "(1, \"x\")");
    let mut dict = Dict::new();
    dict.insert("a".to_string(), Value::Integer(1));
    dict.insert("b".to_string(), list(vec![Value::True]));
    assert_eq!(Value::Dict(dict).repr(), "(a => 1, b => (true, ))");
    assert_eq!(text("plain").to_string(), "plain");
    assert_eq!(Value::Integer(7).to_string(), "7");
}

#[test]
fn list_repr_follows_the_items() {
    let mut list = List::new();
    assert_eq!(list.repr(), "()");
    list.push(Value::Integer(1));
    assert_eq!(list.repr(), "(1, )");
    list.push(Value::Integer(2));
    assert_eq!(list.repr(), "(1, 2)");
    assert_eq!(list.len(), 2);
    list.clear();
    assert_eq!(list.len(), 0);
    assert_eq!(List::from_value(Value::Integer(1)).items, vec![Value::Integer(1)]);
    let two = List { items: vec![Value::True, Value::False] };
    assert_eq!(List::from_value(Value::List(two)).items, vec![Value::True, Value::False]);
}

#[test]
fn dictionaries_keep_one_value_per_key() {
    let mut dict = Dict::new();
    dict.insert("a".to_string(), Value::Integer(1));
    dict.insert("b".to_string(), Value::Integer(2));
    dict.insert("a".to_string(), Value::Integer(3));
    assert_eq!(dict.len(), 2);
    assert_eq!(dict.get("a"), Some(&Value::Integer(3)));
    assert_eq!(dict.get("c"), None);
    assert_eq!(dict.remove("a"), Some(Value::Integer(3)));
    assert_eq!(dict.remove("a"), None);
    assert_eq!(dict.len(), 1);
}

#[test]
fn coercions() {
    assert!(!Value::Void.is_true());
    assert!(!Value::Integer(0).is_true());
    assert!(Value::Integer(2).is_true());
    assert!(!text("").is_true());
    assert!(text("x").is_true());
    assert!(Value::Void.is_void());
    assert_eq!(Value::True.to_i64(), 1);
    assert_eq!(Value::Integer(-3).to_i64(), -3);
    assert_eq!(Value::Integer(-3).to_usize(), 0);
    assert_eq!(Value::Integer(3).to_usize(), 3);
    assert_eq!(Value::Parselet(9).to_usize(), 9);
    assert_eq!(text("12").to_i64(), 12);
    assert_eq!(text("-12").to_i64(), -12);
    assert_eq!(text("+7").to_i64(), 7);
    assert_eq!(text("12a").to_i64(), 0);
    assert_eq!(text("").to_i64(), 0);
    assert_eq!(text("-").to_i64(), 0);
    assert_eq!(text("9223372036854775807").to_i64(), i64::MAX);
    assert_eq!(text("9223372036854775808").to_i64(), 0);
    assert_eq!(text("-9223372036854775808").to_i64(), i64::MIN);
    assert_eq!(text("-9223372036854775809").to_i64(), 0);
    assert_eq!(text("00042").to_i64(), 42);
    assert_eq!(text("99999999999999999999999999").to_i64(), 0);
    let first = list(vec![text("a"), Value::Integer(1)]);
    assert_eq!(first.clone(), first);
}

#[test]
fn captures_stand_for_values() {
    let runtime = Runtime::new(Reader::new("hello"));
    assert_eq!(Capture::Empty.as_value(&runtime), Value::Void);
    assert_eq!(Capture::Range(Range { start: 1, end: 3 }, 5).as_value(&runtime), text("el"));
    assert_eq!(Capture::Value(Value::Integer(1), 0).as_value(&runtime), Value::Integer(1));
    let named = Capture::Named(Box::new(Capture::Range(Range { start: 0, end: 1 }, 5)), "n".to_string());
    assert_eq!(named.as_value(&runtime), text("h"));
}

fn frame_with(captures: Vec<Capture>) -> (Runtime, Context) {
    let mut runtime = Runtime::new(Reader::new("hello world"));
    let context = Context::new(&mut runtime, 2);
    for capture in captures {
        runtime.push(capture);
    }
    (runtime, context)
}

#[test]
fn a_frame_reserves_its_slots() {
    let (runtime, context) = frame_with(vec![]);
    assert_eq!(context, Context { stack_start: 0, capture_start: 3, reader_start: 0 });
    assert_eq!(runtime.stack, vec![Capture::Empty, Capture::Empty, Capture::Empty]);
    let mut runtime = runtime;
    context.push(&mut runtime, Value::True);
    assert_eq!(runtime.stack.len(), 4);
    assert_eq!(context.pop(&mut runtime), Some(Value::True));
    assert_eq!(context.pop(&mut runtime), None);
    assert_eq!(runtime.stack.len(), 3);
    context.close(&mut runtime);
    assert_eq!(runtime.stack.len(), 0);
}

#[test]
fn collect_of_nothing_is_nothing() {
    let (mut runtime, context) = frame_with(vec![Capture::Empty, Capture::Empty]);
    assert_eq!(context.collect(&mut runtime, context.capture_start, false, true), None);
    assert_eq!(runtime.stack.len(), context.capture_start);
}

#[test]
fn collect_hands_a_single_capture_on() {
    let range = Capture::Range(Range { start: 0, end: 5 }, 0);
    let (mut runtime, context) = frame_with(vec![Capture::Empty, range.clone(), Capture::Empty]);
    assert_eq!(context.collect(&mut runtime, context.capture_start, true, true), Some(range.clone()));
    assert_eq!(runtime.stack.len(), context.capture_start + 3);
    assert_eq!(
        context.collect(&mut runtime, context.capture_start, false, false),
        Some(Capture::Value(text("hello"), 5))
    );
    assert_eq!(runtime.stack.len(), context.capture_start);
}

#[test]
fn collect_keeps_the_most_severe() {
    let (mut runtime, context) = frame_with(vec![
        Capture::Range(Range { start: 0, end: 1 }, 0),
        Capture::Value(Value::Integer(1), 5),
        Capture::Range(Range { start: 1, end: 2 }, 5),
        Capture::Value(Value::Integer(2), 10),
        Capture::Range(Range { start: 2, end: 3 }, 5),
        Capture::Value(Value::Integer(3), 10),
    ]);
    assert_eq!(
        context.collect(&mut runtime, context.capture_start, false, true),
        Some(Capture::Value(list(vec![Value::Integer(2), Value::Integer(3)]), 5))
    );
}

#[test]
fn collect_puts_named_captures_into_a_dictionary() {
    let named = |name: &str, value: i64| {
        Capture::Named(Box::new(Capture::Value(Value::Integer(value), 0)), name.to_string())
    };
    let (mut runtime, context) = frame_with(vec![
        named("a", 1),
        Capture::Range(Range { start: 0, end: 5 }, 5),
        named("b", 2),
        named("a", 3),
    ]);
    let mut expected = Dict::new();
    expected.insert("a".to_string(), Value::Integer(3));
    expected.insert("b".to_string(), Value::Integer(2));
    expected.insert("0".to_string(), text("hello"));
    assert_eq!(
        context.collect(&mut runtime, context.capture_start, false, true),
        Some(Capture::Value(Value::Dict(expected), 5))
    );
    let (mut runtime, context) = frame_with(vec![named("only", 1)]);
    assert_eq!(
        context.collect(&mut runtime, context.capture_start, false, true),
        Some(Capture::Value(Value::Integer(1), 5))
    );
}

#[test]
fn captures_are_found_by_index_and_name() {
    let named = Capture::Named(Box::new(Capture::Range(Range { start: 6, end: 11 }, 5)), "w".to_string());
    let (mut runtime, context) = frame_with(vec![Capture::Empty, Capture::Value(Value::True, 5), named]);
    runtime.reader.reset(4);
    assert_eq!(context.get_capture(&runtime, 0), Some(text("hell")));
    assert_eq!(context.get_capture(&runtime, 1), Some(Value::True));
    assert_eq!(context.get_capture(&runtime, 2), Some(text("world")));
    assert_eq!(context.get_capture(&runtime, 3), None);
    assert_eq!(context.get_capture_by_name(&runtime, "w"), Some(text("world")));
    assert_eq!(context.get_capture_by_name(&runtime, "x"), None);
    context.set_capture(&mut runtime, 0, Value::Integer(9));
    assert_eq!(context.get_capture(&runtime, 0), Some(Value::Integer(9)));
    context.set_capture(&mut runtime, 7, Value::Integer(9));
    assert_eq!(runtime.stack.len(), context.capture_start + 3);
    context.set_capture_by_name(&mut runtime, "w", Value::Null);
    assert_eq!(context.get_capture_by_name(&runtime, "w"), Some(Value::Null));
    assert_eq!(context.get_captures(&runtime).len(), 3);
    let drained = context.drain_captures(&mut runtime);
    assert_eq!(drained.len(), 3);
    assert_eq!(runtime.stack.len(), context.capture_start);
}
