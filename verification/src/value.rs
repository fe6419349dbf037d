//! Values: what a parse produces and what the machine computes with.

use vstd::prelude::*;
use vstd::string::*;

use crate::text::{decimal_of, digits_of, integer_of, parse_integer, push_decimal, push_digits};

verus! {

/// A value of the machine.
#[derive(Debug, PartialEq, Eq)]
pub enum Value {
    Void,
    Null,
    True,
    False,
    Integer(i64),
    Str(String),
    List(List),
    Dict(Dict),
    /// A reference to the parselet at this address of the program's statics.
    Parselet(usize),
}

/// A list of values.
#[derive(Debug, PartialEq, Eq)]
pub struct List {
    pub items: Vec<Value>,
}

/// A dictionary: values under string keys, in the order in which the keys came.
#[derive(Debug, PartialEq, Eq)]
pub struct Dict {
    pub entries: Vec<(String, Value)>,
}

/// The mathematical content of a [`Value`].
pub enum ValueModel {
    Void,
    Null,
    True,
    False,
    Integer(i64),
    Str(Seq<char>),
    List(Seq<ValueModel>),
    Dict(Seq<(Seq<char>, ValueModel)>),
    Parselet(usize),
}

impl Value {
    pub open spec fn model(self) -> ValueModel
        decreases self,
    {
        match self {
            Value::Void => ValueModel::Void,
            Value::Null => ValueModel::Null,
            Value::True => ValueModel::True,
            Value::False => ValueModel::False,
            Value::Integer(i) => ValueModel::Integer(i),
            Value::Str(s) => ValueModel::Str(s@),
            Value::List(l) => ValueModel::List(
                Seq::new(
                    l.items.len() as nat,
                    |i: int|
                        if 0 <= i < l.items.len() {
                            l.items[i].model()
                        } else {
                            ValueModel::Void
                        },
                ),
            ),
            Value::Dict(d) => ValueModel::Dict(
                Seq::new(
                    d.entries.len() as nat,
                    |i: int|
                        if 0 <= i < d.entries.len() {
                            (d.entries[i].0@, d.entries[i].1.model())
                        } else {
                            (Seq::empty(), ValueModel::Void)
                        },
                ),
            ),
            Value::Parselet(addr) => ValueModel::Parselet(addr),
        }
    }
}

impl View for Value {
    type V = ValueModel;

    open spec fn view(&self) -> ValueModel {
        self.model()
    }
}

/// The models of a sequence of values.
pub open spec fn models(items: Seq<Value>) -> Seq<ValueModel> {
    Seq::new(items.len(), |i: int| items[i]@)
}

/// The models of a sequence of dictionary entries.
pub open spec fn entry_models(entries: Seq<(String, Value)>) -> Seq<(Seq<char>, ValueModel)> {
    Seq::new(entries.len(), |i: int| (entries[i].0@, entries[i].1@))
}

impl View for List {
    type V = Seq<ValueModel>;

    open spec fn view(&self) -> Seq<ValueModel> {
        models(self.items@)
    }
}

impl View for Dict {
    type V = Seq<(Seq<char>, ValueModel)>;

    open spec fn view(&self) -> Seq<(Seq<char>, ValueModel)> {
        entry_models(self.entries@)
    }
}

/// A list value has the models of its items, a dictionary value those of its entries.
pub broadcast proof fn lemma_list_model(l: List)
    ensures
        #[trigger] Value::List(l)@ == ValueModel::List(l@),
{
    assert(Value::List(l)@->List_0 =~= l@);
}

pub broadcast proof fn lemma_dict_model(d: Dict)
    ensures
        #[trigger] Value::Dict(d)@ == ValueModel::Dict(d@),
{
    assert(Value::Dict(d)@->Dict_0 =~= d@);
}

pub broadcast group group_value_models {
    lemma_list_model,
    lemma_dict_model,
}

impl Clone for Value {
    #[verifier::loop_isolation(false)]
    fn clone(&self) -> (copy: Value)
        ensures
            copy@ == self@,
        decreases self,
    {
        broadcast use group_value_models;

        match self {
            Value::Void => Value::Void,
            Value::Null => Value::Null,
            Value::True => Value::True,
            Value::False => Value::False,
            Value::Integer(i) => Value::Integer(*i),
            Value::Str(s) => Value::Str(s.clone()),
            Value::List(l) => {
                let mut items: Vec<Value> = Vec::new();
                let mut i: usize = 0;
                while i < l.items.len()
                    invariant
                        i <= l.items.len(),
                        items@.len() == i,
                        forall|k: int| 0 <= k < i ==> (#[trigger] items@[k])@ == l.items@[k]@,
                    decreases l.items.len() - i,
                {
                    let item = l.items[i].clone();
                    items.push(item);
                    i = i + 1;
                }
                let copy = List { items };
                assert(copy@ =~= l@);
                Value::List(copy)
            },
            Value::Dict(d) => {
                let mut entries: Vec<(String, Value)> = Vec::new();
                let mut i: usize = 0;
                while i < d.entries.len()
                    invariant
                        i <= d.entries.len(),
                        entries@.len() == i,
                        forall|k: int|
                            0 <= k < i ==> (#[trigger] entries@[k]).0@ == d.entries@[k].0@
                                && entries@[k].1@ == d.entries@[k].1@,
                    decreases d.entries.len() - i,
                {
                    let key = d.entries[i].0.clone();
                    let value = d.entries[i].1.clone();
                    entries.push((key, value));
                    i = i + 1;
                }
                let copy = Dict { entries };
                assert(copy@ =~= d@);
                Value::Dict(copy)
            },
            Value::Parselet(addr) => Value::Parselet(*addr),
        }
    }
}

/// The index of the first entry at or after `from` whose key is `key`, or the
/// number of entries where there is none.
pub open spec fn key_from(entries: Seq<(Seq<char>, ValueModel)>, key: Seq<char>, from: int) -> int
    decreases entries.len() - from,
{
    if from < 0 || from >= entries.len() {
        entries.len() as int
    } else if entries[from].0 == key {
        from
    } else {
        key_from(entries, key, from + 1)
    }
}

/// The value under `key`, if the dictionary has the key.
pub open spec fn dict_get(entries: Seq<(Seq<char>, ValueModel)>, key: Seq<char>) -> Option<
    ValueModel,
> {
    let i = key_from(entries, key, 0);
    if i < entries.len() {
        Some(entries[i].1)
    } else {
        None
    }
}

/// The dictionary with `value` under `key`: in the place of the key's entry
/// where it has one, else at the end.
pub open spec fn dict_insert(
    entries: Seq<(Seq<char>, ValueModel)>,
    key: Seq<char>,
    value: ValueModel,
) -> Seq<(Seq<char>, ValueModel)> {
    let i = key_from(entries, key, 0);
    if i < entries.len() {
        entries.update(i, (key, value))
    } else {
        entries.push((key, value))
    }
}

/// The dictionary without the entry of `key`.
pub open spec fn dict_remove(entries: Seq<(Seq<char>, ValueModel)>, key: Seq<char>) -> Seq<
    (Seq<char>, ValueModel),
> {
    let i = key_from(entries, key, 0);
    if i < entries.len() {
        entries.remove(i)
    } else {
        entries
    }
}

/// No key occurs twice.
pub open spec fn distinct_keys(entries: Seq<(Seq<char>, ValueModel)>) -> bool {
    forall|i: int, j: int| 0 <= i < j < entries.len() ==> entries[i].0 != entries[j].0
}

/// `key_from` finds the first entry with the key, and reaches the end only
/// where no entry from `from` on has it.
pub proof fn lemma_key_from(entries: Seq<(Seq<char>, ValueModel)>, key: Seq<char>, from: int)
    requires
        0 <= from,
    ensures
        from <= key_from(entries, key, from) || key_from(entries, key, from) == entries.len(),
        key_from(entries, key, from) <= entries.len(),
        key_from(entries, key, from) < entries.len() ==> entries[key_from(entries, key, from)].0
            == key,
        forall|k: int| from <= k < key_from(entries, key, from) ==> (#[trigger] entries[k]).0 != key,
    decreases entries.len() - from,
{
    if from < entries.len() && entries[from].0 != key {
        lemma_key_from(entries, key, from + 1);
    }
}

/// Inserting keeps the keys distinct.
pub proof fn lemma_insert_distinct(
    entries: Seq<(Seq<char>, ValueModel)>,
    key: Seq<char>,
    value: ValueModel,
)
    requires
        distinct_keys(entries),
    ensures
        distinct_keys(dict_insert(entries, key, value)),
        dict_get(dict_insert(entries, key, value), key) == Some(value),
{
    lemma_key_from(entries, key, 0);
    let after = dict_insert(entries, key, value);
    lemma_key_from(after, key, 0);
    let i = key_from(entries, key, 0);
    if i < entries.len() {
        assert(after[i].0 == key);
    } else {
        assert(after[entries.len() as int].0 == key);
    }
}

impl List {
    /// The empty list.
    pub fn new() -> (list: List)
        ensures
            list@ == Seq::<ValueModel>::empty(),
    {
        let list = List { items: Vec::new() };
        assert(list@ =~= Seq::<ValueModel>::empty());
        list
    }

    /// The list that a value stands for: a list is itself, any other value
    /// the list of this one item.
    pub fn from_value(value: Value) -> (list: List)
        ensures
            list@ == (match value@ {
                ValueModel::List(items) => items,
                other => seq![other],
            }),
    {
        broadcast use group_value_models;

        match value {
            Value::List(list) => list,
            other => {
                let mut items: Vec<Value> = Vec::new();
                items.push(other);
                let list = List { items };
                assert(list@ =~= seq![other@]);
                list
            },
        }
    }

    /// The number of items.
    pub fn len(&self) -> (n: usize)
        ensures
            n == self@.len(),
    {
        self.items.len()
    }

    /// Appends `item`.
    pub fn push(&mut self, item: Value)
        ensures
            final(self)@ == old(self)@.push(item@),
    {
        self.items.push(item);
        assert(self@ =~= old(self)@.push(item@));
    }

    /// Removes every item.
    pub fn clear(&mut self)
        ensures
            final(self)@ == Seq::<ValueModel>::empty(),
    {
        self.items.clear();
        assert(self@ =~= Seq::<ValueModel>::empty());
    }

    /// The list as it is written in source text: the items between round
    /// brackets, with a comma after a single item.
    pub fn repr(&self) -> (text: String)
        ensures
            text@ == repr_of(ValueModel::List(self@)),
    {
        let mut text = String::new();
        write_list(&self.items, &mut text);
        assert(text@ =~= repr_of(ValueModel::List(self@)));
        text
    }
}

impl Dict {
    /// The empty dictionary.
    pub fn new() -> (dict: Dict)
        ensures
            dict@ == Seq::<(Seq<char>, ValueModel)>::empty(),
    {
        let dict = Dict { entries: Vec::new() };
        assert(dict@ =~= Seq::<(Seq<char>, ValueModel)>::empty());
        dict
    }

    /// The number of entries.
    pub fn len(&self) -> (n: usize)
        ensures
            n == self@.len(),
    {
        self.entries.len()
    }

    fn find(&self, key: &str) -> (i: usize)
        ensures
            i == key_from(self@, key@, 0),
            i <= self.entries.len(),
    {
        let mut i: usize = 0;
        while i < self.entries.len()
            invariant
                i <= self.entries.len(),
                key_from(self@, key@, 0) == key_from(self@, key@, i as int),
            decreases self.entries.len() - i,
        {
            if str_eq(self.entries[i].0.as_str(), key) {
                return i;
            }
            i = i + 1;
        }
        i
    }

    /// The value under `key`.
    pub fn get(&self, key: &str) -> (value: Option<&Value>)
        ensures
            match value {
                Some(v) => dict_get(self@, key@) == Some(v@),
                None => dict_get(self@, key@) is None,
            },
    {
        let i = self.find(key);
        if i < self.entries.len() {
            Some(&self.entries[i].1)
        } else {
            None
        }
    }

    /// Puts `value` under `key`, in the place of an earlier value of that key.
    pub fn insert(&mut self, key: String, value: Value)
        ensures
            final(self)@ == dict_insert(old(self)@, key@, value@),
            distinct_keys(old(self)@) ==> distinct_keys(final(self)@),
    {
        let i = self.find(key.as_str());
        proof {
            if distinct_keys(self@) {
                lemma_insert_distinct(self@, key@, value@);
            }
        }
        if i < self.entries.len() {
            self.entries.set(i, (key, value));
        } else {
            self.entries.push((key, value));
        }
        assert(self@ =~= dict_insert(old(self)@, key@, value@));
    }

    /// Takes the entry of `key` out and returns its value.
    pub fn remove(&mut self, key: &str) -> (value: Option<Value>)
        ensures
            final(self)@ == dict_remove(old(self)@, key@),
            match value {
                Some(v) => dict_get(old(self)@, key@) == Some(v@),
                None => dict_get(old(self)@, key@) is None,
            },
    {
        let i = self.find(key);
        if i < self.entries.len() {
            let entry = self.entries.remove(i);
            assert(self@ =~= dict_remove(old(self)@, key@));
            Some(entry.1)
        } else {
            None
        }
    }
}

/// Whether two strings hold the same characters.
pub fn str_eq(a: &str, b: &str) -> (same: bool)
    ensures
        same == (a@ == b@),
{
    let x = String::from_str(a);
    let y = String::from_str(b);
    x == y
}

/// Whether a value counts as true: void, null, false, zero and what is empty do not.
pub open spec fn truth_of(v: ValueModel) -> bool {
    match v {
        ValueModel::Void | ValueModel::Null | ValueModel::False => false,
        ValueModel::True => true,
        ValueModel::Integer(i) => i != 0,
        ValueModel::Str(s) => s.len() > 0,
        ValueModel::List(l) => l.len() > 0,
        ValueModel::Dict(d) => d.len() > 0,
        ValueModel::Parselet(_) => true,
    }
}

/// A value as an integer: an integer is itself, true is 1, a string that
/// is a numeral the integer it stands for, a parselet its address where that
/// fits, anything else 0.
pub open spec fn int_of(v: ValueModel) -> i64 {
    match v {
        ValueModel::True => 1,
        ValueModel::Integer(i) => i,
        ValueModel::Str(s) => match integer_of(s) {
            Some(i) => i,
            None => 0,
        },
        ValueModel::Parselet(addr) => if addr <= i64::MAX {
            addr as i64
        } else {
            0
        },
        _ => 0,
    }
}

/// A value as an index: `int_of` where that is an index, else 0.
pub open spec fn index_of(v: ValueModel) -> usize {
    match v {
        ValueModel::Parselet(addr) => addr,
        _ => if 0 <= int_of(v) <= usize::MAX {
            int_of(v) as usize
        } else {
            0
        },
    }
}

/// A string with a backslash before each backslash and each double quote.
pub open spec fn escaped(s: Seq<char>) -> Seq<char>
    decreases s.len(),
{
    if s.len() == 0 {
        Seq::empty()
    } else if s.last() == '"' || s.last() == '\\' {
        escaped(s.drop_last()).push('\\').push(s.last())
    } else {
        escaped(s.drop_last()).push(s.last())
    }
}

/// A value as it is written in source text.
pub open spec fn repr_of(v: ValueModel) -> Seq<char>
    decreases v,
{
    match v {
        ValueModel::Void => "void"@,
        ValueModel::Null => "null"@,
        ValueModel::True => "true"@,
        ValueModel::False => "false"@,
        ValueModel::Integer(i) => decimal_of(i as int),
        ValueModel::Str(s) => "\""@ + escaped(s) + "\""@,
        ValueModel::List(items) => "("@ + repr_items(items, items.len()) + (if items.len() == 1 {
            ", "@
        } else {
            Seq::empty()
        }) + ")"@,
        ValueModel::Dict(entries) => "("@ + repr_entries(entries, entries.len()) + ")"@,
        ValueModel::Parselet(addr) => "<parselet "@ + digits_of(addr as nat) + ">"@,
    }
}

/// The first `n` items as they are written, with a comma and a space between two.
pub open spec fn repr_items(items: Seq<ValueModel>, n: nat) -> Seq<char>
    decreases items, n,
{
    if n == 0 || n > items.len() {
        Seq::empty()
    } else {
        repr_items(items, (n - 1) as nat) + (if n > 1 {
            ", "@
        } else {
            Seq::empty()
        }) + repr_of(items[n - 1])
    }
}

/// The first `n` entries as they are written: key, arrow, value, with a comma
/// and a space between two.
pub open spec fn repr_entries(entries: Seq<(Seq<char>, ValueModel)>, n: nat) -> Seq<char>
    decreases entries, n,
{
    if n == 0 || n > entries.len() {
        Seq::empty()
    } else {
        repr_entries(entries, (n - 1) as nat) + (if n > 1 {
            ", "@
        } else {
            Seq::empty()
        }) + entries[n - 1].0 + " => "@ + repr_of(entries[n - 1].1)
    }
}

/// A value as text: a string is its characters, anything else as it is written.
pub open spec fn text_of(v: ValueModel) -> Seq<char> {
    match v {
        ValueModel::Str(s) => s,
        _ => repr_of(v),
    }
}

fn write_escaped(s: &str, out: &mut String)
    ensures
        final(out)@ == old(out)@ + escaped(s@),
{
    let n = s.unicode_len();
    let mut i: usize = 0;
    while i < n
        invariant
            n == s@.len(),
            i <= n,
            out@ == old(out)@ + escaped(s@.take(i as int)),
        decreases n - i,
    {
        let ch = s.get_char(i);
        proof {
            reveal_strlit("\\");
            let next = s@.take(i + 1);
            assert(next.drop_last() =~= s@.take(i as int));
            assert(next.last() == ch);
        }
        if ch == '"' || ch == '\\' {
            out.append("\\");
        }
        out.append(s.substring_char(i, i + 1));
        assert(s@.subrange(i as int, i + 1) =~= seq![ch]);
        assert(out@ =~= old(out)@ + escaped(s@.take(i + 1)));
        i = i + 1;
    }
    assert(s@.take(n as int) =~= s@);
}

#[verifier::loop_isolation(false)]
fn write_list(items: &Vec<Value>, out: &mut String)
    ensures
        final(out)@ == old(out)@ + repr_of(ValueModel::List(models(items@))),
    decreases items,
{
    let ghost ms = models(items@);
    out.append("(");
    let mut i: usize = 0;
    while i < items.len()
        invariant
            i <= items.len(),
            out@ == old(out)@ + "("@ + repr_items(ms, i as nat),
        decreases items.len() - i,
    {
        if i > 0 {
            out.append(", ");
        }
        write_repr(&items[i], out);
        i = i + 1;
        assert(out@ =~= old(out)@ + "("@ + repr_items(ms, i as nat));
    }
    if items.len() == 1 {
        out.append(", ");
    }
    out.append(")");
    assert(out@ =~= old(out)@ + repr_of(ValueModel::List(ms)));
}

#[verifier::loop_isolation(false)]
fn write_dict(entries: &Vec<(String, Value)>, out: &mut String)
    ensures
        final(out)@ == old(out)@ + repr_of(ValueModel::Dict(entry_models(entries@))),
    decreases entries,
{
    let ghost ms = entry_models(entries@);
    out.append("(");
    let mut i: usize = 0;
    while i < entries.len()
        invariant
            i <= entries.len(),
            out@ == old(out)@ + "("@ + repr_entries(ms, i as nat),
        decreases entries.len() - i,
    {
        if i > 0 {
            out.append(", ");
        }
        out.append(entries[i].0.as_str());
        out.append(" => ");
        write_repr(&entries[i].1, out);
        i = i + 1;
        assert(out@ =~= old(out)@ + "("@ + repr_entries(ms, i as nat));
    }
    out.append(")");
    assert(out@ =~= old(out)@ + repr_of(ValueModel::Dict(ms)));
}

/// Appends to `out` the value as it is written in source text.
pub fn write_repr(value: &Value, out: &mut String)
    ensures
        final(out)@ == old(out)@ + repr_of(value@),
    decreases value,
{
    broadcast use group_value_models;

    match value {
        Value::Void => {
            out.append("void");
        },
        Value::Null => {
            out.append("null");
        },
        Value::True => {
            out.append("true");
        },
        Value::False => {
            out.append("false");
        },
        Value::Integer(i) => {
            push_decimal(out, *i);
        },
        Value::Str(s) => {
            out.append("\"");
            write_escaped(s.as_str(), out);
            out.append("\"");
            assert(out@ =~= old(out)@ + repr_of(value@));
        },
        Value::List(l) => {
            write_list(&l.items, out);
        },
        Value::Dict(d) => {
            write_dict(&d.entries, out);
        },
        Value::Parselet(addr) => {
            out.append("<parselet ");
            push_digits(out, *addr as u64);
            out.append(">");
            assert(out@ =~= old(out)@ + repr_of(value@));
        },
    }
}

/// The four operations of arithmetic.
#[derive(Clone, Copy, Debug, PartialEq, Eq, Structural)]
pub enum Arith {
    Add,
    Sub,
    Mul,
    Div,
}

/// The result of an operation of arithmetic on two values, where it has one.
///
/// Adding where one side is a string joins the two as text. Everything else
/// works on the two values as integers, and has no result where that of the
/// integers does not fit or where the divisor is 0.
pub open spec fn arith_of(op: Arith, a: ValueModel, b: ValueModel) -> Option<ValueModel> {
    if op == Arith::Add && (a is Str || b is Str) {
        Some(ValueModel::Str(text_of(a) + text_of(b)))
    } else {
        let number = match op {
            Arith::Add => int_of(a).checked_add(int_of(b)),
            Arith::Sub => int_of(a).checked_sub(int_of(b)),
            Arith::Mul => int_of(a).checked_mul(int_of(b)),
            Arith::Div => int_of(a).checked_div(int_of(b)),
        };
        match number {
            Some(i) => Some(ValueModel::Integer(i)),
            None => None,
        }
    }
}

impl Value {
    /// A string value of the characters of `text`.
    pub fn from_str(text: &str) -> (value: Value)
        ensures
            value@ == ValueModel::Str(text@),
    {
        Value::Str(String::from_str(text))
    }

    /// Whether the value is void.
    pub fn is_void(&self) -> (void: bool)
        ensures
            void == (self@ is Void),
    {
        match self {
            Value::Void => true,
            _ => false,
        }
    }

    /// Whether the value counts as true.
    pub fn is_true(&self) -> (truth: bool)
        ensures
            truth == truth_of(self@),
    {
        broadcast use group_value_models;

        match self {
            Value::Void | Value::Null | Value::False => false,
            Value::True => true,
            Value::Integer(i) => *i != 0,
            Value::Str(s) => s.as_str().unicode_len() > 0,
            Value::List(l) => l.len() > 0,
            Value::Dict(d) => d.len() > 0,
            Value::Parselet(_) => true,
        }
    }

    /// The value as an integer.
    pub fn to_i64(&self) -> (i: i64)
        ensures
            i == int_of(self@),
    {
        broadcast use group_value_models;

        match self {
            Value::True => 1,
            Value::Integer(i) => *i,
            Value::Str(s) => match parse_integer(s.as_str()) {
                Some(i) => i,
                None => 0,
            },
            Value::Parselet(addr) => if *addr as u64 <= i64::MAX as u64 {
                *addr as i64
            } else {
                0
            },
            _ => 0,
        }
    }

    /// The value as an index.
    pub fn to_usize(&self) -> (i: usize)
        ensures
            i == index_of(self@),
    {
        broadcast use group_value_models;

        match self {
            Value::Parselet(addr) => *addr,
            _ => {
                let i = self.to_i64();
                if i >= 0 && i as u64 <= usize::MAX as u64 {
                    i as usize
                } else {
                    0
                }
            },
        }
    }

    /// The value as it is written in source text.
    pub fn repr(&self) -> (text: String)
        ensures
            text@ == repr_of(self@),
    {
        let mut text = String::new();
        write_repr(self, &mut text);
        assert(text@ =~= repr_of(self@));
        text
    }

    /// The value as text: a string gives its characters, anything else is
    /// written as in source text.
    pub fn to_string(&self) -> (text: String)
        ensures
            text@ == text_of(self@),
    {
        match self {
            Value::Str(s) => s.clone(),
            _ => self.repr(),
        }
    }

    /// Whether the value can be called. Only a reference to a parselet can;
    /// whether it takes arguments is known to the program that holds it.
    pub fn is_callable(&self, with_arguments: bool) -> (callable: bool)
        ensures
            callable == (self@ is Parselet),
    {
        match self {
            Value::Parselet(_) => true,
            _ => false,
        }
    }

    /// Whether two values are the same: of the same kind, with the same
    /// content, lists and dictionaries item by item in their order.
    #[verifier::loop_isolation(false)]
    pub fn same(&self, other: &Value) -> (same: bool)
        ensures
            same == (self@ == other@),
        decreases self,
    {
        broadcast use group_value_models;

        match (self, other) {
            (Value::Void, Value::Void) => true,
            (Value::Null, Value::Null) => true,
            (Value::True, Value::True) => true,
            (Value::False, Value::False) => true,
            (Value::Integer(a), Value::Integer(b)) => *a == *b,
            (Value::Str(a), Value::Str(b)) => str_eq(a.as_str(), b.as_str()),
            (Value::Parselet(a), Value::Parselet(b)) => *a == *b,
            (Value::List(a), Value::List(b)) => {
                if a.items.len() != b.items.len() {
                    assert(a@.len() != b@.len());
                    return false;
                }
                let mut i: usize = 0;
                while i < a.items.len()
                    invariant
                        i <= a.items.len(),
                        a.items.len() == b.items.len(),
                        forall|k: int| 0 <= k < i ==> (#[trigger] a.items@[k])@ == b.items@[k]@,
                    decreases a.items.len() - i,
                {
                    if !a.items[i].same(&b.items[i]) {
                        assert(a@[i as int] != b@[i as int]);
                        return false;
                    }
                    i = i + 1;
                }
                assert(a@ =~= b@);
                true
            },
            (Value::Dict(a), Value::Dict(b)) => {
                if a.entries.len() != b.entries.len() {
                    assert(a@.len() != b@.len());
                    return false;
                }
                let mut i: usize = 0;
                while i < a.entries.len()
                    invariant
                        i <= a.entries.len(),
                        a.entries.len() == b.entries.len(),
                        forall|k: int|
                            0 <= k < i ==> (#[trigger] a.entries@[k]).0@ == b.entries@[k].0@
                                && a.entries@[k].1@ == b.entries@[k].1@,
                    decreases a.entries.len() - i,
                {
                    if !str_eq(a.entries[i].0.as_str(), b.entries[i].0.as_str()) {
                        assert(a@[i as int] != b@[i as int]);
                        return false;
                    }
                    if !a.entries[i].1.same(&b.entries[i].1) {
                        assert(a@[i as int] != b@[i as int]);
                        return false;
                    }
                    i = i + 1;
                }
                assert(a@ =~= b@);
                true
            },
            _ => false,
        }
    }

    /// The result of an operation of arithmetic on two values.
    pub fn arith(op: Arith, a: &Value, b: &Value) -> (result: Option<Value>)
        ensures
            crate::capture::option_model(result) == arith_of(op, a@, b@),
    {
        broadcast use group_value_models;

        let textual = match op {
            Arith::Add => match a {
                Value::Str(_) => true,
                _ => match b {
                    Value::Str(_) => true,
                    _ => false,
                },
            },
            _ => false,
        };
        if textual {
            let mut text = a.to_string();
            let other = b.to_string();
            text.append(other.as_str());
            Some(Value::Str(text))
        } else {
            let x = a.to_i64();
            let y = b.to_i64();
            let number = match op {
                Arith::Add => x.checked_add(y),
                Arith::Sub => x.checked_sub(y),
                Arith::Mul => x.checked_mul(y),
                Arith::Div => x.checked_div(y),
            };
            match number {
                Some(i) => Some(Value::Integer(i)),
                None => None,
            }
        }
    }
}

} // verus!
