//! Flattening a TOML document into dotted-path entries.
use vstd::prelude::*;

use crate::entries::{distinct_keys, lemma_value_of_distinct, lemma_value_of_found, value_of};
use crate::text::{dot_pieces, dotted, join_dots, law_split_undoes_join, texts};
use crate::toml_value::{entries_view, lemma_table_view, TomlModel, TomlValue};

verus! {

/// The values below `value` that are not tables, each with the path that leads to it from a
/// place with the path `path`. They come in the order of the tables that hold them.
pub open spec fn leaves(value: TomlModel, path: Seq<Seq<char>>) -> Seq<
    (Seq<Seq<char>>, TomlModel),
>
    decreases value, 0nat,
{
    match value {
        TomlModel::Table(entries) => leaves_of_entries(entries, path),
        leaf => seq![(path, leaf)],
    }
}

/// The leaves below the entries of a table with the path `path`.
pub open spec fn leaves_of_entries(
    entries: Seq<(Seq<char>, TomlModel)>,
    path: Seq<Seq<char>>,
) -> Seq<(Seq<Seq<char>>, TomlModel)>
    decreases entries, entries.len(),
{
    if entries.len() == 0 {
        Seq::empty()
    } else {
        leaves_of_entries(entries.drop_last(), path) + leaves(
            entries.last().1,
            path.push(entries.last().0),
        )
    }
}

/// Leaves with their paths written with dots.
pub open spec fn dotted_leaves(found: Seq<(Seq<Seq<char>>, TomlModel)>) -> Seq<
    (Seq<char>, TomlModel),
> {
    found.map_values(|leaf: (Seq<Seq<char>>, TomlModel)| (dotted(leaf.0), leaf.1))
}

/// A document as dotted-path entries: one for each value that is not a table.
pub open spec fn flattened(value: TomlModel) -> Seq<(Seq<char>, TomlModel)> {
    dotted_leaves(leaves(value, Seq::empty()))
}

/// Flattens a parsed TOML document into dotted-path `(key, value)` pairs.
///
/// Tables only lend their keys to the paths; every other value, an array too, is an entry.
pub fn flatten_toml_table(value: &TomlValue) -> (entries: Vec<(String, TomlValue)>)
    ensures
        entries_view(entries@) == flattened(value@),
{
    let mut entries: Vec<(String, TomlValue)> = Vec::new();
    let mut path: Vec<String> = Vec::new();
    flatten_into(value, &mut path, &mut entries);
    proof {
        assert(texts(Seq::<String>::empty()) =~= Seq::empty());
        assert(entries_view(entries@) =~= flattened(value@));
    }
    entries
}

fn flatten_into(
    value: &TomlValue,
    path: &mut Vec<String>,
    entries: &mut Vec<(String, TomlValue)>,
)
    ensures
        final(path)@ == old(path)@,
        entries_view(final(entries)@) == entries_view(old(entries)@) + dotted_leaves(
            leaves(value@, texts(old(path)@)),
        ),
    decreases value,
{
    let ghost at_path = texts(path@);
    let ghost before = entries_view(entries@);
    match value {
        TomlValue::Table(table) => {
            let ghost whole = entries_view(table@);
            let ghost path_before = path@;
            let mut at: usize = 0;
            proof {
                assert(whole.take(0) =~= Seq::empty());
                let none = dotted_leaves(leaves_of_entries(whole.take(0), at_path));
                assert(before + none =~= before);
            }
            while at < table.len()
                invariant
                    *value == TomlValue::Table(*table),
                    whole == entries_view(table@),
                    at <= table.len(),
                    path@ == path_before,
                    texts(path_before) == at_path,
                    entries_view(entries@) == before + dotted_leaves(
                        leaves_of_entries(whole.take(at as int), at_path),
                    ),
                decreases table.len() - at,
            {
                proof {
                    assert(decreases_to!(*value => value->Table_0));
                    assert(decreases_to!(table@ => table@[at as int]));
                }
                path.push(table[at].0.clone());
                proof {
                    assert(texts(path@) =~= at_path.push(whole[at as int].0));
                }
                flatten_into(&table[at].1, path, entries);
                path.pop();
                proof {
                    assert(path@ =~= path_before);
                    let longer = whole.take(at + 1);
                    assert(longer.drop_last() =~= whole.take(at as int));
                    assert(longer.last() == whole[at as int]);
                    assert(dotted_leaves(leaves_of_entries(longer, at_path)) =~= dotted_leaves(
                        leaves_of_entries(whole.take(at as int), at_path),
                    ) + dotted_leaves(
                        leaves(whole[at as int].1, at_path.push(whole[at as int].0)),
                    ));
                }
                at = at + 1;
            }
            proof {
                assert(whole.take(table.len() as int) =~= whole);
                lemma_table_view(*table);
            }
        },
        leaf => {
            entries.push((join_dots(path), leaf.clone()));
            proof {
                assert(entries_view(entries@) =~= before.push((dotted(at_path), value@)));
                assert(dotted_leaves(leaves(value@, at_path)) =~= seq![(dotted(at_path), value@)]);
            }
        },
    }
}

/// A leaf below a list of entries is a leaf below one of them.
proof fn lemma_leaf_of_some_entry(
    entries: Seq<(Seq<char>, TomlModel)>,
    base: Seq<Seq<char>>,
    leaf: (Seq<Seq<char>>, TomlModel),
) -> (j: int)
    requires
        leaves_of_entries(entries, base).contains(leaf),
    ensures
        0 <= j < entries.len(),
        leaves(entries[j].1, base.push(entries[j].0)).contains(leaf),
    decreases entries.len(),
{
    let first = leaves_of_entries(entries.drop_last(), base);
    let last = leaves(entries.last().1, base.push(entries.last().0));
    let all = leaves_of_entries(entries, base);
    let i = choose|i: int| 0 <= i < all.len() && all[i] == leaf;
    if i < first.len() {
        assert(first[i] == leaf);
        let j = lemma_leaf_of_some_entry(entries.drop_last(), base, leaf);
        assert(entries.drop_last()[j] == entries[j]);
        j
    } else {
        assert(last[i - first.len()] == leaf);
        entries.len() - 1
    }
}

/// A leaf below one entry is a leaf below the list.
proof fn lemma_leaf_of_entry_counts(
    entries: Seq<(Seq<char>, TomlModel)>,
    base: Seq<Seq<char>>,
    j: int,
    leaf: (Seq<Seq<char>>, TomlModel),
)
    requires
        0 <= j < entries.len(),
        leaves(entries[j].1, base.push(entries[j].0)).contains(leaf),
    ensures
        leaves_of_entries(entries, base).contains(leaf),
    decreases entries.len(),
{
    let first = leaves_of_entries(entries.drop_last(), base);
    let last = leaves(entries.last().1, base.push(entries.last().0));
    let all = leaves_of_entries(entries, base);
    if j == entries.len() - 1 {
        let i = choose|i: int| 0 <= i < last.len() && last[i] == leaf;
        assert(all[first.len() + i] == leaf);
    } else {
        assert(entries.drop_last()[j] == entries[j]);
        lemma_leaf_of_entry_counts(entries.drop_last(), base, j, leaf);
        let i = choose|i: int| 0 <= i < first.len() && first[i] == leaf;
        assert(all[i] == leaf);
    }
}

proof fn lemma_leaf_is_reached(
    value: TomlModel,
    base: Seq<Seq<char>>,
    leaf: (Seq<Seq<char>>, TomlModel),
)
    requires
        value.well_formed(),
        leaves(value, base).contains(leaf),
    ensures
        base.len() <= leaf.0.len(),
        leaf.0.take(base.len() as int) == base,
        value.at_path(leaf.0.skip(base.len() as int)) == Some(leaf.1),
        !(leaf.1 is Table),
    decreases value,
{
    match value {
        TomlModel::Table(entries) => {
            let j = lemma_leaf_of_some_entry(entries, base, leaf);
            let key = entries[j].0;
            assert(decreases_to!(value => value->Table_0));
            assert(decreases_to!(entries => entries[j]));
            lemma_leaf_is_reached(entries[j].1, base.push(key), leaf);
            lemma_value_of_distinct(entries, j);
            let down = leaf.0.skip(base.len() as int);
            assert(leaf.0.take(base.len() as int + 1)[base.len() as int] == key);
            assert(down[0] == key);
            assert(down.drop_first() =~= leaf.0.skip(base.len() as int + 1));
            assert(leaf.0.take(base.len() as int) =~= leaf.0.take(base.len() as int + 1).take(
                base.len() as int,
            ));
            assert(base.push(key).take(base.len() as int) =~= base);
        },
        _ => {
            let all = leaves(value, base);
            let i = choose|i: int| 0 <= i < all.len() && all[i] == leaf;
            assert(leaf == (base, value));
            assert(leaf.0.take(base.len() as int) =~= base);
            assert(leaf.0.skip(base.len() as int) =~= Seq::empty());
        },
    }
}

proof fn lemma_reached_is_leaf(
    value: TomlModel,
    base: Seq<Seq<char>>,
    path: Seq<Seq<char>>,
    found: TomlModel,
)
    requires
        value.at_path(path) == Some(found),
        !(found is Table),
    ensures
        leaves(value, base).contains((base + path, found)),
    decreases path.len(),
{
    if path.len() == 0 {
        assert(base + path =~= base);
        assert(leaves(value, base)[0] == (base, found));
    } else {
        let entries = value->Table_0;
        let j = lemma_value_of_found(entries, path[0]);
        lemma_reached_is_leaf(entries[j].1, base.push(path[0]), path.drop_first(), found);
        assert(base.push(path[0]) + path.drop_first() =~= base + path);
        lemma_leaf_of_entry_counts(entries, base, j, (base + path, found));
    }
}

/// The leaves of a document are exactly the values, other than tables, that paths lead to: a
/// path and a value are among them if and only if the path leads to that value.
pub proof fn law_leaves_are_what_paths_reach(
    value: TomlModel,
    path: Seq<Seq<char>>,
    found: TomlModel,
)
    requires
        value.well_formed(),
    ensures
        leaves(value, Seq::empty()).contains((path, found)) <==> value.at_path(path) == Some(found)
            && !(found is Table),
{
    if leaves(value, Seq::empty()).contains((path, found)) {
        lemma_leaf_is_reached(value, Seq::empty(), (path, found));
        assert(path.skip(0) =~= path);
    }
    if value.at_path(path) == Some(found) && !(found is Table) {
        lemma_reached_is_leaf(value, Seq::empty(), path, found);
        assert(Seq::<Seq<char>>::empty() + path =~= path);
    }
}

proof fn lemma_leaf_paths_differ(value: TomlModel, base: Seq<Seq<char>>, i: int, j: int)
    requires
        value.well_formed(),
        0 <= i < j < leaves(value, base).len(),
    ensures
        leaves(value, base)[i].0 != leaves(value, base)[j].0,
    decreases value, 0nat,
{
    if let TomlModel::Table(entries) = value {
        assert(decreases_to!(value => value->Table_0));
        lemma_entry_leaf_paths_differ(entries, base, i, j);
    }
}

proof fn lemma_entry_leaf_paths_differ(
    entries: Seq<(Seq<char>, TomlModel)>,
    base: Seq<Seq<char>>,
    i: int,
    j: int,
)
    requires
        distinct_keys(entries),
        forall|k: int| 0 <= k < entries.len() ==> (#[trigger] entries[k]).1.well_formed(),
        0 <= i < j < leaves_of_entries(entries, base).len(),
    ensures
        leaves_of_entries(entries, base)[i].0 != leaves_of_entries(entries, base)[j].0,
    decreases entries, entries.len(),
{
    let init = entries.drop_last();
    let key = entries.last().0;
    let first = leaves_of_entries(init, base);
    let last = leaves(entries.last().1, base.push(key));
    let all = leaves_of_entries(entries, base);
    assert(entries[entries.len() - 1].1.well_formed());
    assert forall|k: int| 0 <= k < init.len() implies (#[trigger] init[k]).1.well_formed() by {
        assert(init[k] == entries[k]);
    }
    if j < first.len() {
        lemma_entry_leaf_paths_differ(init, base, i, j);
    } else if i >= first.len() {
        assert(decreases_to!(entries => entries[entries.len() - 1]));
        lemma_leaf_paths_differ(entries.last().1, base.push(key), i - first.len(), j - first.len());
    } else {
        let n = base.len() as int;
        assert(first.contains(first[i]));
        let k = lemma_leaf_of_some_entry(init, base, first[i]);
        assert(init[k] == entries[k]);
        lemma_leaf_is_reached(init[k].1, base.push(init[k].0), first[i]);
        assert(last.contains(last[j - first.len()]));
        lemma_leaf_is_reached(entries.last().1, base.push(key), last[j - first.len()]);
        assert(all[i].0.take(n + 1)[n] == init[k].0);
        assert(all[j].0.take(n + 1)[n] == key);
    }
}

/// No two leaves of a document have the same path.
pub proof fn law_each_leaf_has_its_own_path(value: TomlModel, i: int, j: int)
    requires
        value.well_formed(),
        0 <= i < j < leaves(value, Seq::empty()).len(),
    ensures
        leaves(value, Seq::empty())[i].0 != leaves(value, Seq::empty())[j].0,
{
    lemma_leaf_paths_differ(value, Seq::empty(), i, j);
}

/// The keys on a path through a document without dots in its keys hold no dot.
pub proof fn lemma_path_is_dotless(value: TomlModel, path: Seq<Seq<char>>, k: int)
    requires
        value.dotless_keys(),
        value.at_path(path) is Some,
        0 <= k < path.len(),
    ensures
        !path[k].contains('.'),
    decreases path.len(),
{
    let entries = value->Table_0;
    let j = lemma_value_of_found(entries, path[0]);
    assert(!entries[j].0.contains('.'));
    if k > 0 {
        lemma_path_is_dotless(entries[j].1, path.drop_first(), k - 1);
        assert(path.drop_first()[k - 1] == path[k]);
    }
}

/// The key of an entry, split at its dots, is the path that leads to the entry's value, where no
/// key of the document holds a dot.
pub proof fn law_split_key_leads_to_value(value: TomlModel, i: int)
    requires
        value is Table,
        value.well_formed(),
        value.dotless_keys(),
        0 <= i < flattened(value).len(),
    ensures
        dot_pieces(flattened(value)[i].0) == leaves(value, Seq::empty())[i].0,
        value.at_path(dot_pieces(flattened(value)[i].0)) == Some(flattened(value)[i].1),
        !(flattened(value)[i].1 is Table),
{
    let all = leaves(value, Seq::empty());
    let leaf = all[i];
    assert(all.contains(leaf));
    assert(leaf == (leaf.0, leaf.1));
    law_leaves_are_what_paths_reach(value, leaf.0, leaf.1);
    assert forall|k: int| 0 <= k < leaf.0.len() implies !(#[trigger] leaf.0[k]).contains('.') by {
        lemma_path_is_dotless(value, leaf.0, k);
    }
    law_split_undoes_join(leaf.0);
}

/// No two entries of a flattened document have the same key, where no key of the document holds
/// a dot.
pub proof fn law_flattened_keys_differ(value: TomlModel)
    requires
        value is Table,
        value.well_formed(),
        value.dotless_keys(),
    ensures
        distinct_keys(flattened(value)),
{
    assert forall|i: int, j: int| 0 <= i < j < flattened(value).len() implies flattened(value)[i].0
        != flattened(value)[j].0 by {
        law_split_key_leads_to_value(value, i);
        law_split_key_leads_to_value(value, j);
        law_each_leaf_has_its_own_path(value, i, j);
    }
}

/// One of two dotted keys leads through the other: they are the same, or one is a path into the
/// table that the other names.
pub open spec fn on_one_path(a: Seq<char>, b: Seq<char>) -> bool {
    dot_pieces(a).is_prefix_of(dot_pieces(b)) || dot_pieces(b).is_prefix_of(dot_pieces(a))
}

proof fn lemma_nothing_below_a_leaf(
    value: TomlModel,
    path: Seq<Seq<char>>,
    longer: Seq<Seq<char>>,
)
    requires
        value.at_path(path) matches Some(found) && !(found is Table),
        path.is_prefix_of(longer),
        path != longer,
    ensures
        value.at_path(longer) is None,
    decreases path.len(),
{
    assert(path.len() < longer.len()) by {
        if path.len() == longer.len() {
            assert(path =~= longer);
        }
    }
    if path.len() > 0 {
        assert(path[0] == longer[0]);
        let nested = value_of(value->Table_0, path[0])->0;
        let rest = path.drop_first();
        let longer_rest = longer.drop_first();
        assert(rest =~= longer_rest.subrange(0, rest.len() as int));
        assert(rest.len() < longer_rest.len());
        lemma_nothing_below_a_leaf(nested, rest, longer_rest);
    }
}

/// No key of a flattened document leads through another, where no key of the document holds a dot.
pub proof fn law_no_key_leads_through_another(value: TomlModel, i: int, j: int)
    requires
        value is Table,
        value.well_formed(),
        value.dotless_keys(),
        0 <= i < flattened(value).len(),
        0 <= j < flattened(value).len(),
        i != j,
    ensures
        !on_one_path(flattened(value)[i].0, flattened(value)[j].0),
{
    law_split_key_leads_to_value(value, i);
    law_split_key_leads_to_value(value, j);
    if i < j {
        law_each_leaf_has_its_own_path(value, i, j);
    } else {
        law_each_leaf_has_its_own_path(value, j, i);
    }
    let a = dot_pieces(flattened(value)[i].0);
    let b = dot_pieces(flattened(value)[j].0);
    assert(a != b);
    if a.is_prefix_of(b) {
        lemma_nothing_below_a_leaf(value, a, b);
    }
    if b.is_prefix_of(a) {
        lemma_nothing_below_a_leaf(value, b, a);
    }
}

/// Every value that is not a table has an entry, under its path written with dots.
pub proof fn law_every_leaf_has_an_entry(value: TomlModel, path: Seq<Seq<char>>)
    requires
        value.at_path(path) matches Some(found) && !(found is Table),
    ensures
        flattened(value).contains((dotted(path), value.at_path(path)->0)),
{
    let found = value.at_path(path)->0;
    lemma_reached_is_leaf(value, Seq::empty(), path, found);
    let all = leaves(value, Seq::empty());
    assert(Seq::<Seq<char>>::empty() + path =~= path);
    let i = choose|i: int| 0 <= i < all.len() && all[i] == (path, found);
    assert(flattened(value)[i] == (dotted(path), found));
}

proof fn lemma_leaves_of_joined_entries(
    first: Seq<(Seq<char>, TomlModel)>,
    second: Seq<(Seq<char>, TomlModel)>,
    base: Seq<Seq<char>>,
)
    ensures
        leaves_of_entries(first + second, base) == leaves_of_entries(first, base)
            + leaves_of_entries(second, base),
    decreases second.len(),
{
    if second.len() == 0 {
        assert(first + second =~= first);
    } else {
        lemma_leaves_of_joined_entries(first, second.drop_last(), base);
        assert((first + second).drop_last() =~= first + second.drop_last());
        assert((first + second).last() == second.last());
    }
    assert(leaves_of_entries(first + second, base) =~= leaves_of_entries(first, base)
        + leaves_of_entries(second, base));
}

proof fn lemma_leaves_from_elsewhere(value: TomlModel, base: Seq<Seq<char>>)
    ensures
        leaves(value, base).len() == leaves(value, Seq::empty()).len(),
        forall|i: int|
            0 <= i < leaves(value, base).len() ==> #[trigger] leaves(value, base)[i] == (
                base + leaves(value, Seq::empty())[i].0,
                leaves(value, Seq::empty())[i].1,
            ),
    decreases value, 0nat,
{
    match value {
        TomlModel::Table(entries) => {
            assert(decreases_to!(value => value->Table_0));
            lemma_entry_leaves_from_elsewhere(entries, base);
        },
        _ => {
            assert(base + Seq::<Seq<char>>::empty() =~= base);
        },
    }
}

proof fn lemma_entry_leaves_from_elsewhere(
    entries: Seq<(Seq<char>, TomlModel)>,
    base: Seq<Seq<char>>,
)
    ensures
        leaves_of_entries(entries, base).len() == leaves_of_entries(entries, Seq::empty()).len(),
        forall|i: int|
            0 <= i < leaves_of_entries(entries, base).len() ==> #[trigger] leaves_of_entries(
                entries,
                base,
            )[i] == (
                base + leaves_of_entries(entries, Seq::empty())[i].0,
                leaves_of_entries(entries, Seq::empty())[i].1,
            ),
    decreases entries, entries.len(),
{
    if entries.len() > 0 {
        let none = Seq::<Seq<char>>::empty();
        let init = entries.drop_last();
        let key = entries.last().0;
        let nested = entries.last().1;
        lemma_entry_leaves_from_elsewhere(init, base);
        assert(decreases_to!(entries => entries[entries.len() - 1]));
        lemma_leaves_from_elsewhere(nested, base.push(key));
        lemma_leaves_from_elsewhere(nested, none.push(key));
        let all = leaves_of_entries(entries, base);
        let here = leaves_of_entries(entries, none);
        let n = leaves_of_entries(init, base).len();
        assert forall|i: int| 0 <= i < all.len() implies #[trigger] all[i] == (
            base + here[i].0,
            here[i].1,
        ) by {
            if i < n {
                assert(all[i] == leaves_of_entries(init, base)[i]);
                assert(here[i] == leaves_of_entries(init, none)[i]);
            } else {
                let deep = leaves(nested, none)[i - n];
                assert(all[i] == leaves(nested, base.push(key))[i - n]);
                assert(here[i] == leaves(nested, none.push(key))[i - n]);
                assert(base.push(key) + deep.0 =~= base + (none.push(key) + deep.0));
            }
        }
    }
}

proof fn lemma_leaves_are_inside(entries: Seq<(Seq<char>, TomlModel)>, i: int)
    requires
        0 <= i < leaves_of_entries(entries, Seq::empty()).len(),
    ensures
        leaves_of_entries(entries, Seq::empty())[i].0.len() > 0,
    decreases entries.len(),
{
    let none = Seq::<Seq<char>>::empty();
    let init = entries.drop_last();
    let n = leaves_of_entries(init, none).len();
    if i < n {
        lemma_leaves_are_inside(init, i);
        assert(leaves_of_entries(entries, none)[i] == leaves_of_entries(init, none)[i]);
    } else {
        lemma_leaves_from_elsewhere(entries.last().1, none.push(entries.last().0));
        assert(leaves_of_entries(entries, none)[i] == leaves(
            entries.last().1,
            none.push(entries.last().0),
        )[i - n]);
    }
}

proof fn lemma_dotted_behind_a_key(key: Seq<char>, path: Seq<Seq<char>>)
    requires
        path.len() > 0,
    ensures
        dotted(seq![key] + path) == key + seq!['.'] + dotted(path),
    decreases path.len(),
{
    let whole = seq![key] + path;
    assert(whole.drop_last() =~= seq![key] + path.drop_last());
    assert(whole.last() == path.last());
    if path.len() == 1 {
        assert(whole.drop_last() =~= seq![key]);
        assert(dotted(seq![key]) == key);
        assert(dotted(whole) =~= key + seq!['.'] + dotted(path));
    } else {
        lemma_dotted_behind_a_key(key, path.drop_last());
        assert(dotted(whole) =~= key + seq!['.'] + dotted(path));
    }
}

/// A table is flattened part by part: its entries come in its own order, each on its own.
pub proof fn law_tables_are_flattened_part_by_part(
    first: Seq<(Seq<char>, TomlModel)>,
    second: Seq<(Seq<char>, TomlModel)>,
)
    ensures
        flattened(TomlModel::Table(Seq::empty())) == Seq::<(Seq<char>, TomlModel)>::empty(),
        flattened(TomlModel::Table(first + second)) == flattened(TomlModel::Table(first))
            + flattened(TomlModel::Table(second)),
{
    lemma_leaves_of_joined_entries(first, second, Seq::empty());
    assert(flattened(TomlModel::Table(first + second)) =~= flattened(TomlModel::Table(first))
        + flattened(TomlModel::Table(second)));
    assert(flattened(TomlModel::Table(Seq::empty())) =~= Seq::empty());
}

/// A value that is no table is one entry under its key. A table under a key is the same entries as
/// that table by itself, each key behind the table's key and a dot.
pub proof fn law_nested_entries_go_behind_their_key(key: Seq<char>, value: TomlModel)
    ensures
        !(value is Table) ==> flattened(TomlModel::Table(seq![(key, value)])) == seq![
            (key, value),
        ],
        value is Table ==> {
            let nested = flattened(value);
            let outer = flattened(TomlModel::Table(seq![(key, value)]));
            &&& outer.len() == nested.len()
            &&& forall|i: int|
                0 <= i < outer.len() ==> #[trigger] outer[i] == (
                    key + seq!['.'] + nested[i].0,
                    nested[i].1,
                )
        },
{
    let none = Seq::<Seq<char>>::empty();
    let entries = seq![(key, value)];
    let table = TomlModel::Table(entries);
    assert(entries.drop_last() =~= Seq::empty());
    assert(entries.last() == (key, value));
    assert(leaves_of_entries(entries.drop_last(), none) =~= Seq::empty());
    assert(leaves(table, none) =~= leaves(value, none.push(key)));
    if value is Table {
        lemma_leaves_from_elsewhere(value, none.push(key));
        let nested = flattened(value);
        let outer = flattened(table);
        assert forall|i: int| 0 <= i < outer.len() implies #[trigger] outer[i] == (
            key + seq!['.'] + nested[i].0,
            nested[i].1,
        ) by {
            let deep = leaves(value, none)[i];
            lemma_leaves_are_inside(value->Table_0, i);
            assert(leaves(table, none)[i] == leaves(value, none.push(key))[i]);
            assert(none.push(key) + deep.0 =~= seq![key] + deep.0);
            lemma_dotted_behind_a_key(key, deep.0);
        }
    } else {
        assert(leaves(value, none.push(key)) =~= seq![(none.push(key), value)]);
        assert(none.push(key) =~= seq![key]);
        assert(flattened(table) =~= seq![(key, value)]);
    }
}

/// The entries of a flattened document are its leaves: a key and a value are an entry if and only
/// if a path leads to that value, it is no table, and the key is the path written with dots.
pub proof fn law_entries_are_the_leaves(value: TomlModel, key: Seq<char>, found: TomlModel)
    requires
        value.well_formed(),
    ensures
        flattened(value).contains((key, found)) <==> exists|path: Seq<Seq<char>>|
            #[trigger] value.at_path(path) == Some(found) && !(found is Table) && dotted(path)
                == key,
{
    let all = leaves(value, Seq::empty());
    if flattened(value).contains((key, found)) {
        let i = choose|i: int|
            0 <= i < flattened(value).len() && flattened(value)[i] == (key, found);
        let path = all[i].0;
        assert(all[i] == (path, found));
        assert(all.contains((path, found)));
        law_leaves_are_what_paths_reach(value, path, found);
        assert(value.at_path(path) == Some(found));
    }
    if exists|path: Seq<Seq<char>>|
        #[trigger] value.at_path(path) == Some(found) && !(found is Table) && dotted(path) == key {
        let path = choose|path: Seq<Seq<char>>|
            #[trigger] value.at_path(path) == Some(found) && !(found is Table) && dotted(path)
                == key;
        law_every_leaf_has_an_entry(value, path);
    }
}

/// A flattened document has one entry for each leaf: its entries can be numbered with the paths to
/// the leaves so that every such path has one number.
pub proof fn law_one_entry_for_each_leaf(value: TomlModel)
    requires
        value.well_formed(),
    ensures
        exists|paths: Seq<Seq<Seq<char>>>|
            {
                &&& #[trigger] paths.no_duplicates()
                &&& paths.len() == flattened(value).len()
                &&& forall|i: int|
                    0 <= i < paths.len() ==> value.at_path(#[trigger] paths[i]) == Some(
                        flattened(value)[i].1,
                    ) && flattened(value)[i].0 == dotted(paths[i])
                &&& forall|path: Seq<Seq<char>>|
                    (#[trigger] value.at_path(path) matches Some(found) && !(found is Table))
                        ==> paths.contains(path)
            },
{
    let all = leaves(value, Seq::empty());
    let paths = Seq::new(all.len(), |i: int| all[i].0);
    assert forall|i: int, j: int|
        0 <= i < paths.len() && 0 <= j < paths.len() && i != j implies paths[i] != paths[j] by {
        if i < j {
            law_each_leaf_has_its_own_path(value, i, j);
        } else {
            law_each_leaf_has_its_own_path(value, j, i);
        }
    }
    assert(paths.no_duplicates());
    assert forall|i: int| 0 <= i < paths.len() implies value.at_path(#[trigger] paths[i]) == Some(
        flattened(value)[i].1,
    ) && flattened(value)[i].0 == dotted(paths[i]) by {
        assert(all.contains(all[i]));
        assert(all[i] == (all[i].0, all[i].1));
        law_leaves_are_what_paths_reach(value, all[i].0, all[i].1);
    }
    assert forall|path: Seq<Seq<char>>|
        (#[trigger] value.at_path(path) matches Some(found) && !(found is Table)) implies
        paths.contains(path) by {
        let found = value.at_path(path)->0;
        law_leaves_are_what_paths_reach(value, path, found);
        let i = choose|i: int| 0 <= i < all.len() && all[i] == (path, found);
        assert(paths[i] == path);
    }
}

/// A value that is no table is flattened to one entry without a key.
pub proof fn law_lone_value_is_one_entry(value: TomlModel)
    requires
        !(value is Table),
    ensures
        flattened(value) == seq![(Seq::<char>::empty(), value)],
{
    assert(flattened(value) =~= seq![(Seq::<char>::empty(), value)]);
}

} // verus!
