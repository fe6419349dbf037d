//! Shaping captures into one: the captures of a frame become a single capture,
//! a list of the most severe ones, or a dictionary of the named ones.

use vstd::prelude::*;

use crate::capture::{value_of, CaptureModel};

use crate::text::digits_of;
use crate::value::{dict_get, dict_insert, key_from, lemma_key_from, ValueModel};

verus! {

/// The captures that are no placeholders, in their order.
pub open spec fn present(caps: Seq<CaptureModel>) -> Seq<CaptureModel>
    decreases caps.len(),
{
    if caps.len() == 0 {
        Seq::empty()
    } else if caps.last() is Empty {
        present(caps.drop_last())
    } else {
        present(caps.drop_last()).push(caps.last())
    }
}

/// The severity of a span or a value; a placeholder and a named capture have none.
pub open spec fn severity_of(capture: CaptureModel) -> Option<u8> {
    match capture {
        CaptureModel::Range(_, severity) => Some(severity),
        CaptureModel::Value(_, severity) => Some(severity),
        _ => None,
    }
}

/// The highest severity among the spans and values, 0 where there are none.
pub open spec fn max_severity(caps: Seq<CaptureModel>) -> u8
    decreases caps.len(),
{
    if caps.len() == 0 {
        0
    } else {
        let rest = max_severity(caps.drop_last());
        match severity_of(caps.last()) {
            Some(severity) => if severity > rest {
                severity
            } else {
                rest
            },
            None => rest,
        }
    }
}

/// The values of the spans and values of exactly this severity, in their order.
pub open spec fn positional(caps: Seq<CaptureModel>, severity: u8, input: Seq<char>) -> Seq<
    ValueModel,
>
    decreases caps.len(),
{
    if caps.len() == 0 {
        Seq::empty()
    } else if severity_of(caps.last()) == Some(severity) {
        positional(caps.drop_last(), severity, input).push(value_of(caps.last(), input))
    } else {
        positional(caps.drop_last(), severity, input)
    }
}

/// The dictionary of the named captures: each name with the value of what it
/// names, a later capture of a name in the place of an earlier one.
pub open spec fn named(caps: Seq<CaptureModel>, input: Seq<char>) -> Seq<(Seq<char>, ValueModel)>
    decreases caps.len(),
{
    if caps.len() == 0 {
        Seq::empty()
    } else {
        match caps.last() {
            CaptureModel::Named(inner, name) => dict_insert(
                named(caps.drop_last(), input),
                name,
                value_of(*inner, input),
            ),
            _ => named(caps.drop_last(), input),
        }
    }
}

/// The dictionary with the first `n` values of `list` under their indices as keys.
pub open spec fn numbered(
    dict: Seq<(Seq<char>, ValueModel)>,
    list: Seq<ValueModel>,
    n: nat,
) -> Seq<(Seq<char>, ValueModel)>
    decreases n,
{
    if n == 0 || n > list.len() {
        dict
    } else {
        dict_insert(numbered(dict, list, (n - 1) as nat), digits_of((n - 1) as nat), list[n - 1])
    }
}

/// The capture made of the positional values and the dictionary of named ones.
/// It has severity 5.
pub open spec fn assembled(list: Seq<ValueModel>, dict: Seq<(Seq<char>, ValueModel)>) -> Option<
    CaptureModel,
> {
    if dict.len() == 0 {
        if list.len() > 1 {
            Some(CaptureModel::Value(ValueModel::List(list), 5))
        } else if list.len() == 1 {
            Some(CaptureModel::Value(list[0], 5))
        } else {
            None
        }
    } else {
        let full = numbered(dict, list, list.len());
        if full.len() == 1 {
            Some(CaptureModel::Value(full[0].1, 5))
        } else {
            Some(CaptureModel::Value(ValueModel::Dict(full), 5))
        }
    }
}

/// What a run of captures collects to.
///
/// Placeholders are passed over. Nothing left gives nothing. With `single`, one
/// capture that is not named is handed on as it is. Otherwise the spans and
/// values of the highest severity make a list, the named captures a dictionary,
/// and the two are assembled.
pub open spec fn collected(caps: Seq<CaptureModel>, input: Seq<char>, single: bool) -> Option<
    CaptureModel,
> {
    let items = present(caps);
    if items.len() == 0 {
        None
    } else if single && items.len() == 1 && !(items[0] is Named) {
        Some(items[0])
    } else {
        assembled(positional(items, max_severity(items), input), named(items, input))
    }
}

/// The part of a stack from `start` on.
pub open spec fn tail_from(stack: Seq<CaptureModel>, start: usize) -> Seq<CaptureModel> {
    if start <= stack.len() {
        stack.subrange(start as int, stack.len() as int)
    } else {
        Seq::empty()
    }
}

/// The part of a stack before `start`.
pub open spec fn cut_to(stack: Seq<CaptureModel>, start: usize) -> Seq<CaptureModel> {
    if start <= stack.len() {
        stack.subrange(0, start as int)
    } else {
        stack
    }
}

/// No span or value is more severe than `max_severity`.
pub proof fn lemma_max_severity(caps: Seq<CaptureModel>, i: int)
    requires
        0 <= i < caps.len(),
    ensures
        severity_of(caps[i]) matches Some(severity) ==> severity <= max_severity(caps),
    decreases caps.len(),
{
    if i < caps.len() - 1 {
        lemma_max_severity(caps.drop_last(), i);
    }
}

/// No span or value has a severity above the highest one.
pub proof fn lemma_positional_above(caps: Seq<CaptureModel>, severity: u8, input: Seq<char>)
    requires
        severity > max_severity(caps),
    ensures
        positional(caps, severity, input) == Seq::<ValueModel>::empty(),
    decreases caps.len(),
{
    if caps.len() > 0 {
        lemma_positional_above(caps.drop_last(), severity, input);
    }
}

/// Severity rules the list: every span or value that is left out of the list
/// is strictly less severe than the ones in it, and where there is a span or
/// value at all, the list is not empty.
pub proof fn lemma_kept_most_severe(caps: Seq<CaptureModel>, input: Seq<char>, i: int)
    requires
        0 <= i < caps.len(),
        severity_of(caps[i]) is Some,
    ensures
        severity_of(caps[i])->0 <= max_severity(caps),
        positional(caps, max_severity(caps), input).len() > 0,
        severity_of(caps[i])->0 == max_severity(caps) ==> positional(
            caps,
            max_severity(caps),
            input,
        ).contains(value_of(caps[i], input)),
    decreases caps.len(),
{
    lemma_max_severity(caps, i);
    let top = max_severity(caps);
    let rest = caps.drop_last();
    let kept = positional(caps, top, input);
    if i < caps.len() - 1 {
        lemma_kept_most_severe(rest, input, i);
        if severity_of(caps.last()) == Some(top) {
            if top > max_severity(rest) {
                lemma_positional_above(rest, top, input);
            } else {
                let before = positional(rest, top, input);
                if severity_of(caps[i])->0 == top {
                    let k = choose|k: int| 0 <= k < before.len() && before[k] == value_of(caps[i], input);
                    assert(kept[k] == value_of(caps[i], input));
                }
            }
            assert(kept.last() == value_of(caps.last(), input));
        } else {
            assert(top == max_severity(rest));
        }
    } else {
        if severity_of(caps[i])->0 == top {
            assert(kept.last() == value_of(caps[i], input));
        } else {
            lemma_some_at_top(rest, input);
        }
    }
}

/// Where the highest severity is above 0, a span or value has it.
pub proof fn lemma_some_at_top(caps: Seq<CaptureModel>, input: Seq<char>)
    requires
        max_severity(caps) > 0,
    ensures
        positional(caps, max_severity(caps), input).len() > 0,
    decreases caps.len(),
{
    if caps.len() > 0 {
        let rest = caps.drop_last();
        if severity_of(caps.last()) == Some(max_severity(caps)) {
        } else {
            lemma_some_at_top(rest, input);
        }
    }
}

/// One capture that is neither a placeholder nor named collects to itself
/// where a single capture is asked for, whatever placeholders stand around it.
pub proof fn lemma_collect_single(caps: Seq<CaptureModel>, input: Seq<char>, capture: CaptureModel)
    requires
        present(caps) == seq![capture],
        !(capture is Named),
    ensures
        collected(caps, input, true) == Some(capture),
{
}

/// Captures that are all placeholders collect to nothing.
pub proof fn lemma_collect_placeholders(caps: Seq<CaptureModel>, input: Seq<char>, single: bool)
    requires
        forall|i: int| 0 <= i < caps.len() ==> caps[i] is Empty,
    ensures
        collected(caps, input, single) is None,
    decreases caps.len(),
{
    lemma_present_placeholders(caps);
}

proof fn lemma_present_placeholders(caps: Seq<CaptureModel>)
    requires
        forall|i: int| 0 <= i < caps.len() ==> caps[i] is Empty,
    ensures
        present(caps).len() == 0,
    decreases caps.len(),
{
    if caps.len() > 0 {
        lemma_present_placeholders(caps.drop_last());
    }
}

/// Whether `key` is the numeral of an index below `n`.
pub open spec fn is_index_key(key: Seq<char>, n: nat) -> bool {
    exists|i: nat| i < n && digits_of(i) == key
}

/// Numbering the positional values leaves alone the keys that are no index.
pub proof fn lemma_numbered_keeps(
    dict: Seq<(Seq<char>, ValueModel)>,
    list: Seq<ValueModel>,
    n: nat,
    key: Seq<char>,
)
    requires
        n <= list.len(),
        !is_index_key(key, n),
    ensures
        dict_get(numbered(dict, list, n), key) == dict_get(dict, key),
    decreases n,
{
    if n > 0 {
        assert(!is_index_key(key, (n - 1) as nat)) by {
            if is_index_key(key, (n - 1) as nat) {
                let i = choose|i: nat| i < (n - 1) as nat && digits_of(i) == key;
                assert(i < n && digits_of(i) == key);
            }
        }
        lemma_numbered_keeps(dict, list, (n - 1) as nat, key);
        let before = numbered(dict, list, (n - 1) as nat);
        let index_key = digits_of((n - 1) as nat);
        assert(index_key != key) by {
            if index_key == key {
                let last: nat = (n - 1) as nat;
                assert(last < n && digits_of(last) == key);
            }
        }
        lemma_insert_other(before, index_key, list[n - 1], key);
    }
}

/// Inserting under one key does not change what stands under another.
pub proof fn lemma_insert_other(
    dict: Seq<(Seq<char>, ValueModel)>,
    key: Seq<char>,
    value: ValueModel,
    other: Seq<char>,
)
    requires
        key != other,
    ensures
        dict_get(dict_insert(dict, key, value), other) == dict_get(dict, other),
{
    let after = dict_insert(dict, key, value);
    lemma_key_from(dict, key, 0);
    lemma_key_from(dict, other, 0);
    lemma_key_from(after, other, 0);
    let i = key_from(dict, other, 0);
    let j = key_from(after, other, 0);
    if i < dict.len() {
        assert(after[i].0 == other);
        if j < i {
            assert(dict[j].0 == after[j].0);
        }
    } else {
        if j < after.len() {
            if j < dict.len() {
                assert(dict[j].0 == after[j].0);
            }
        }
    }
}

/// Inserting under a key puts the value there.
pub proof fn lemma_insert_same(dict: Seq<(Seq<char>, ValueModel)>, key: Seq<char>, value: ValueModel)
    ensures
        dict_get(dict_insert(dict, key, value), key) == Some(value),
{
    let after = dict_insert(dict, key, value);
    lemma_key_from(dict, key, 0);
    lemma_key_from(after, key, 0);
    let i = key_from(dict, key, 0);
    if i < dict.len() {
        assert(after[i].0 == key);
    } else {
        assert(after[dict.len() as int].0 == key);
    }
}

/// A named capture is found in the dictionary under its name, with the value
/// of what it names, unless a later capture has the same name.
pub proof fn lemma_named_kept(caps: Seq<CaptureModel>, input: Seq<char>, i: int)
    requires
        0 <= i < caps.len(),
        caps[i] is Named,
        forall|j: int| i < j < caps.len() && caps[j] is Named ==> caps[j]->Named_1 != caps[i]->Named_1,
    ensures
        dict_get(named(caps, input), caps[i]->Named_1) == Some(value_of(*caps[i]->Named_0, input)),
    decreases caps.len(),
{
    let rest = caps.drop_last();
    if i == caps.len() - 1 {
        lemma_insert_same(named(rest, input), caps[i]->Named_1, value_of(*caps[i]->Named_0, input));
    } else {
        lemma_named_kept(rest, input, i);
        match caps.last() {
            CaptureModel::Named(inner, name) => {
                lemma_insert_other(named(rest, input), name, value_of(*inner, input), caps[i]->Named_1);
            },
            _ => {},
        }
    }
}

/// A named capture is found in what the captures collect to: where no later
/// capture has its name and its name is the numeral of no position of the
/// list, the collected dictionary holds under the name the value of what is
/// named; and where the dictionary would have this one entry only, that
/// value is the result.
pub proof fn lemma_collect_named(items: Seq<CaptureModel>, input: Seq<char>, i: int)
    requires
        0 <= i < items.len(),
        items[i] is Named,
        forall|j: int|
            i < j < items.len() && items[j] is Named ==> items[j]->Named_1 != items[i]->Named_1,
        !is_index_key(
            items[i]->Named_1,
            positional(items, max_severity(items), input).len(),
        ),
    ensures
        ({
            let list = positional(items, max_severity(items), input);
            let full = numbered(named(items, input), list, list.len());
            let value = value_of(*items[i]->Named_0, input);
            &&& dict_get(full, items[i]->Named_1) == Some(value)
            &&& full.len() > 0
            &&& assembled(list, named(items, input)) == Some(
                if full.len() == 1 {
                    CaptureModel::Value(value, 5)
                } else {
                    CaptureModel::Value(ValueModel::Dict(full), 5)
                },
            )
        }),
{
    let list = positional(items, max_severity(items), input);
    let dict = named(items, input);
    let full = numbered(dict, list, list.len());
    let name = items[i]->Named_1;
    lemma_named_kept(items, input, i);
    lemma_numbered_keeps(dict, list, list.len(), name);
    lemma_key_from(dict, name, 0);
    lemma_key_from(full, name, 0);
    if full.len() == 1 {
        assert(full[0].0 == name);
    }
}

} // verus!
