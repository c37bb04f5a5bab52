//! Lists of entries: keys, each with a value.
use vstd::prelude::*;

use crate::text::same_text;

verus! {

/// No two entries have the same key.
pub open spec fn distinct_keys<V>(entries: Seq<(Seq<char>, V)>) -> bool {
    forall|i: int, j: int| 0 <= i < j < entries.len() ==> entries[i].0 != entries[j].0
}

/// The value that the first entry with this key has.
pub open spec fn value_of<V>(entries: Seq<(Seq<char>, V)>, key: Seq<char>) -> Option<V>
    decreases entries.len(),
{
    if entries.len() == 0 {
        None
    } else if entries[0].0 == key {
        Some(entries[0].1)
    } else {
        value_of(entries.drop_first(), key)
    }
}

/// The entries without the first one that has this key.
pub open spec fn without_key<V>(entries: Seq<(Seq<char>, V)>, key: Seq<char>) -> Seq<
    (Seq<char>, V),
>
    decreases entries.len(),
{
    if entries.len() == 0 {
        entries
    } else if entries[0].0 == key {
        entries.drop_first()
    } else {
        seq![entries[0]] + without_key(entries.drop_first(), key)
    }
}

/// The entries with `value` as the value of this key: in place of the value that the first entry
/// with the key has, or else in a new entry at the end.
pub open spec fn with_value<V>(entries: Seq<(Seq<char>, V)>, key: Seq<char>, value: V) -> Seq<
    (Seq<char>, V),
>
    decreases entries.len(),
{
    if entries.len() == 0 {
        seq![(key, value)]
    } else if entries[0].0 == key {
        seq![(key, value)] + entries.drop_first()
    } else {
        seq![entries[0]] + with_value(entries.drop_first(), key, value)
    }
}

/// `at` is where the first entry with this key stands.
pub open spec fn first_with_key<V>(entries: Seq<(Seq<char>, V)>, key: Seq<char>, at: int) -> bool {
    &&& 0 <= at < entries.len()
    &&& entries[at].0 == key
    &&& forall|j: int| 0 <= j < at ==> (#[trigger] entries[j]).0 != key
}

/// Finds the first entry with this key.
pub fn position_of<V>(entries: &Vec<(String, V)>, key: &str) -> (found: Option<usize>)
    ensures
        match found {
            Some(at) => {
                &&& at < entries.len()
                &&& entries@[at as int].0@ == key@
                &&& forall|j: int| 0 <= j < at ==> (#[trigger] entries@[j]).0@ != key@
            },
            None => forall|j: int| 0 <= j < entries.len() ==> (#[trigger] entries@[j]).0@ != key@,
        },
{
    let mut at: usize = 0;
    while at < entries.len()
        invariant
            at <= entries.len(),
            forall|j: int| 0 <= j < at ==> (#[trigger] entries@[j]).0@ != key@,
        decreases entries.len() - at,
    {
        if same_text(entries[at].0.as_str(), key) {
            return Some(at);
        }
        at = at + 1;
    }
    None
}

/// The entry that is found first gives the value, and is the one that is left out.
pub proof fn lemma_first_with_key<V>(entries: Seq<(Seq<char>, V)>, key: Seq<char>, at: int)
    requires
        first_with_key(entries, key, at),
    ensures
        value_of(entries, key) == Some(entries[at].1),
        without_key(entries, key) == entries.remove(at),
    decreases entries.len(),
{
    if at == 0 {
        assert(entries.remove(0) =~= entries.drop_first());
    } else {
        let rest = entries.drop_first();
        assert forall|j: int| 0 <= j < at - 1 implies (#[trigger] rest[j]).0 != key by {
            assert(rest[j] == entries[j + 1]);
        }
        assert(entries[0].0 != key);
        assert(rest[at - 1] == entries[at]);
        lemma_first_with_key(rest, key, at - 1);
        assert(seq![entries[0]] + rest.remove(at - 1) =~= entries.remove(at));
    }
}

/// A key that no entry has gives no value, and leaves nothing out.
pub proof fn lemma_no_such_key<V>(entries: Seq<(Seq<char>, V)>, key: Seq<char>)
    requires
        forall|j: int| 0 <= j < entries.len() ==> (#[trigger] entries[j]).0 != key,
    ensures
        value_of(entries, key) is None,
        without_key(entries, key) == entries,
    decreases entries.len(),
{
    if entries.len() > 0 {
        let rest = entries.drop_first();
        assert forall|j: int| 0 <= j < rest.len() implies (#[trigger] rest[j]).0 != key by {
            assert(rest[j] == entries[j + 1]);
        }
        assert(entries[0].0 != key);
        lemma_no_such_key(rest, key);
        assert(seq![entries[0]] + rest =~= entries);
    }
}

/// Where keys are distinct, each entry's value is what its key gives.
pub proof fn lemma_value_of_distinct<V>(entries: Seq<(Seq<char>, V)>, j: int)
    requires
        distinct_keys(entries),
        0 <= j < entries.len(),
    ensures
        value_of(entries, entries[j].0) == Some(entries[j].1),
{
    assert forall|i: int| 0 <= i < j implies (#[trigger] entries[i]).0 != entries[j].0 by {}
    lemma_first_with_key(entries, entries[j].0, j);
}

/// A value that a key gives is that of the first entry with the key.
pub proof fn lemma_value_of_found<V>(entries: Seq<(Seq<char>, V)>, key: Seq<char>) -> (j: int)
    requires
        value_of(entries, key) is Some,
    ensures
        first_with_key(entries, key, j),
        value_of(entries, key) == Some(entries[j].1),
    decreases entries.len(),
{
    if entries[0].0 == key {
        0
    } else {
        let rest = entries.drop_first();
        let k = lemma_value_of_found(rest, key);
        assert(rest[k] == entries[k + 1]);
        assert forall|j: int| 0 <= j < k + 1 implies (#[trigger] entries[j]).0 != key by {
            if j > 0 {
                assert(rest[j - 1] == entries[j]);
            }
        }
        k + 1
    }
}

/// Leaving a key out takes away its value and no other, where keys are distinct.
pub proof fn lemma_value_of_without_key<V>(
    entries: Seq<(Seq<char>, V)>,
    left_out: Seq<char>,
    key: Seq<char>,
)
    requires
        distinct_keys(entries),
    ensures
        value_of(without_key(entries, left_out), key) == if key == left_out {
            None
        } else {
            value_of(entries, key)
        },
    decreases entries.len(),
{
    if entries.len() > 0 {
        let rest = entries.drop_first();
        assert forall|a: int, b: int| 0 <= a < b < rest.len() implies rest[a].0 != rest[b].0 by {
            assert(rest[a] == entries[a + 1] && rest[b] == entries[b + 1]);
        }
        if entries[0].0 == left_out {
            assert forall|j: int| 0 <= j < rest.len() implies (#[trigger] rest[j]).0
                != left_out by {
                assert(rest[j] == entries[j + 1]);
            }
            lemma_no_such_key(rest, left_out);
        } else {
            lemma_value_of_without_key(rest, left_out, key);
            let kept = without_key(entries, left_out);
            assert(kept.drop_first() =~= without_key(rest, left_out));
        }
    }
}

/// A key that gives no value is the key of no entry.
pub proof fn lemma_no_value<V>(entries: Seq<(Seq<char>, V)>, key: Seq<char>, j: int)
    requires
        value_of(entries, key) is None,
        0 <= j < entries.len(),
    ensures
        entries[j].0 != key,
    decreases entries.len(),
{
    if j > 0 {
        lemma_no_value(entries.drop_first(), key, j - 1);
        assert(entries.drop_first()[j - 1] == entries[j]);
    }
}

/// An entry with a new key at the end adds that key's value and changes no other.
pub proof fn lemma_value_of_push<V>(
    entries: Seq<(Seq<char>, V)>,
    new: (Seq<char>, V),
    key: Seq<char>,
)
    requires
        value_of(entries, new.0) is None,
    ensures
        value_of(entries.push(new), key) == if key == new.0 {
            Some(new.1)
        } else {
            value_of(entries, key)
        },
    decreases entries.len(),
{
    let longer = entries.push(new);
    if entries.len() == 0 {
        assert(longer.drop_first() =~= Seq::empty());
        assert(value_of(longer.drop_first(), key) is None);
    } else {
        assert(longer.drop_first() =~= entries.drop_first().push(new));
        lemma_value_of_push(entries.drop_first(), new, key);
    }
}

/// Setting the value of a key changes the first entry with the key.
pub proof fn lemma_with_value_found<V>(
    entries: Seq<(Seq<char>, V)>,
    key: Seq<char>,
    value: V,
    at: int,
)
    requires
        first_with_key(entries, key, at),
    ensures
        with_value(entries, key, value) == entries.update(at, (key, value)),
    decreases entries.len(),
{
    if at == 0 {
        assert(with_value(entries, key, value) =~= entries.update(0, (key, value)));
    } else {
        let rest = entries.drop_first();
        assert forall|j: int| 0 <= j < at - 1 implies (#[trigger] rest[j]).0 != key by {
            assert(rest[j] == entries[j + 1]);
        }
        assert(entries[0].0 != key);
        assert(rest[at - 1] == entries[at]);
        lemma_with_value_found(rest, key, value, at - 1);
        assert(with_value(entries, key, value) =~= entries.update(at, (key, value)));
    }
}

/// Setting the value of a key that no entry has adds an entry at the end.
pub proof fn lemma_with_value_new<V>(entries: Seq<(Seq<char>, V)>, key: Seq<char>, value: V)
    requires
        forall|j: int| 0 <= j < entries.len() ==> (#[trigger] entries[j]).0 != key,
    ensures
        with_value(entries, key, value) == entries.push((key, value)),
    decreases entries.len(),
{
    if entries.len() > 0 {
        let rest = entries.drop_first();
        assert forall|j: int| 0 <= j < rest.len() implies (#[trigger] rest[j]).0 != key by {
            assert(rest[j] == entries[j + 1]);
        }
        assert(entries[0].0 != key);
        lemma_with_value_new(rest, key, value);
    }
    assert(with_value(entries, key, value) =~= entries.push((key, value)));
}

/// Setting the value of a key gives the key that value and changes no other.
pub proof fn lemma_value_of_with_value<V>(
    entries: Seq<(Seq<char>, V)>,
    set: Seq<char>,
    value: V,
    key: Seq<char>,
)
    ensures
        value_of(with_value(entries, set, value), key) == if key == set {
            Some(value)
        } else {
            value_of(entries, key)
        },
    decreases entries.len(),
{
    let changed = with_value(entries, set, value);
    if entries.len() == 0 {
        assert(changed.drop_first() =~= Seq::empty());
        assert(value_of(changed.drop_first(), key) is None);
    } else if entries[0].0 == set {
        assert(changed.drop_first() =~= entries.drop_first());
    } else {
        lemma_value_of_with_value(entries.drop_first(), set, value, key);
        assert(changed.drop_first() =~= with_value(entries.drop_first(), set, value));
    }
}

/// What [`position_of`] finds decides what the key's value is.
pub proof fn lemma_position_decides<V>(
    entries: Seq<(Seq<char>, V)>,
    key: Seq<char>,
    found: Option<usize>,
)
    requires
        match found {
            Some(at) => first_with_key(entries, key, at as int),
            None => forall|j: int| 0 <= j < entries.len() ==> (#[trigger] entries[j]).0 != key,
        },
    ensures
        value_of(entries, key) == match found {
            Some(at) => Some(entries[at as int].1),
            None => None,
        },
{
    match found {
        Some(at) => lemma_first_with_key(entries, key, at as int),
        None => lemma_no_such_key(entries, key),
    }
}

/// What a key's value is: that of the first entry with the key, and none if there is no such entry.
pub proof fn law_first_entry_with_the_key_gives_its_value<V>(
    entries: Seq<(Seq<char>, V)>,
    key: Seq<char>,
    at: int,
)
    ensures
        0 <= at < entries.len() && entries[at].0 == key && (forall|j: int|
            0 <= j < at ==> (#[trigger] entries[j]).0 != key) ==> value_of(entries, key) == Some(
            entries[at].1,
        ),
        (forall|j: int| 0 <= j < entries.len() ==> (#[trigger] entries[j]).0 != key)
            <==> value_of(entries, key) is None,
{
    if 0 <= at < entries.len() && entries[at].0 == key && (forall|j: int|
        0 <= j < at ==> (#[trigger] entries[j]).0 != key) {
        lemma_first_with_key(entries, key, at);
    }
    if forall|j: int| 0 <= j < entries.len() ==> (#[trigger] entries[j]).0 != key {
        lemma_no_such_key(entries, key);
    }
    if value_of(entries, key) is None {
        assert forall|j: int| 0 <= j < entries.len() implies (#[trigger] entries[j]).0 != key by {
            lemma_no_value(entries, key, j);
        }
    }
}

} // verus!
