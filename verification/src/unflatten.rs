//! Building a TOML document from dotted-path entries.
use vstd::prelude::*;

use crate::entries::{
    first_with_key, lemma_no_value, lemma_position_decides, lemma_value_of_found,
    lemma_value_of_with_value, lemma_with_value_found, lemma_with_value_new, position_of, value_of,
    with_value,
};
use crate::flatten::{
    flattened, law_every_leaf_has_an_entry, law_no_key_leads_through_another,
    law_split_key_leads_to_value, lemma_path_is_dotless, on_one_path,
};
use crate::text::{
    dot_pieces, dotted, law_split_undoes_join, lemma_dot_pieces_nonempty, split_dots, texts,
};
use crate::toml_value::{entries_view, lemma_table_view, TomlModel, TomlValue};

verus! {

/// The entries of a table. A value that is no table has none.
pub open spec fn entries_of(value: TomlModel) -> Seq<(Seq<char>, TomlModel)> {
    match value {
        TomlModel::Table(entries) => entries,
        _ => Seq::empty(),
    }
}

/// What stands under `key` in a table: an empty table, if nothing does.
pub open spec fn nested_in(entries: Seq<(Seq<char>, TomlModel)>, key: Seq<char>) -> TomlModel {
    match value_of(entries, key) {
        Some(nested) => nested,
        None => TomlModel::Table(Seq::empty()),
    }
}

/// `tree` with `value` at `path`. What is on the way and is no table gives way to one.
pub open spec fn set_at(tree: TomlModel, path: Seq<Seq<char>>, value: TomlModel) -> TomlModel
    decreases path.len(),
{
    if path.len() == 0 {
        value
    } else {
        let entries = entries_of(tree);
        TomlModel::Table(
            with_value(
                entries,
                path[0],
                set_at(nested_in(entries, path[0]), path.drop_first(), value),
            ),
        )
    }
}

/// The document that entries build: one after the other, each sets its value at the path that its
/// key is when split at its dots.
pub open spec fn built(entries: Seq<(Seq<char>, TomlModel)>) -> TomlModel
    decreases entries.len(),
{
    if entries.len() == 0 {
        TomlModel::Table(Seq::empty())
    } else {
        set_at(built(entries.drop_last()), dot_pieces(entries.last().0), entries.last().1)
    }
}

/// Sets `value` at what is left of `path` from `from` on.
fn set_value(tree: TomlValue, path: &Vec<String>, from: usize, value: TomlValue) -> (result:
    TomlValue)
    requires
        from <= path.len(),
    ensures
        result@ == set_at(tree@, texts(path@).skip(from as int), value@),
    decreases path.len() - from,
{
    let ghost rest = texts(path@).skip(from as int);
    if from == path.len() {
        return value;
    }
    let ghost model = tree@;
    let mut entries: Vec<(String, TomlValue)> = match tree {
        TomlValue::Table(entries) => {
            proof {
                lemma_table_view(entries);
            }
            entries
        },
        _ => Vec::new(),
    };
    let ghost before = entries_view(entries@);
    proof {
        assert(rest[0] == path@[from as int]@);
        assert(rest.drop_first() =~= texts(path@).skip(from + 1));
        assert(before =~= entries_of(model));
        assert forall|j: int| 0 <= j < before.len() implies (#[trigger] before[j]).0
            == entries@[j].0@ by {}
    }
    let found = position_of(&entries, path[from].as_str());
    proof {
        lemma_position_decides(before, rest[0], found);
    }
    match found {
        Some(at) => {
            let (key, nested) = entries.remove(at);
            let changed = set_value(nested, path, from + 1, value);
            let ghost new = changed@;
            entries.insert(at, (key, changed));
            proof {
                assert(first_with_key(before, rest[0], at as int));
                lemma_with_value_found(before, rest[0], new, at as int);
                assert(entries_view(entries@) =~= before.update(at as int, (rest[0], new)));
            }
        },
        None => {
            let nested = TomlValue::Table(Vec::new());
            proof {
                lemma_table_view(nested->Table_0);
                assert(entries_view(nested->Table_0@) =~= Seq::empty());
            }
            let changed = set_value(nested, path, from + 1, value);
            let ghost new = changed@;
            entries.push((path[from].clone(), changed));
            proof {
                lemma_with_value_new(before, rest[0], new);
                assert(entries_view(entries@) =~= before.push((rest[0], new)));
            }
        },
    }
    proof {
        lemma_table_view(entries);
    }
    TomlValue::Table(entries)
}

/// Builds the document that dotted-path entries stand for.
pub fn build_cli_overrides_layer(entries: &Vec<(String, TomlValue)>) -> (document: TomlValue)
    ensures
        document@ == built(entries_view(entries@)),
{
    let ghost all = entries_view(entries@);
    let mut document = TomlValue::Table(Vec::new());
    let mut at: usize = 0;
    proof {
        lemma_table_view(document->Table_0);
        assert(entries_view(document->Table_0@) =~= Seq::empty());
        assert(all.take(0) =~= Seq::empty());
    }
    while at < entries.len()
        invariant
            at <= entries.len(),
            all == entries_view(entries@),
            document@ == built(all.take(at as int)),
        decreases entries.len() - at,
    {
        let path = split_dots(entries[at].0.as_str());
        let value = entries[at].1.clone();
        proof {
            assert(all.take(at + 1).drop_last() =~= all.take(at as int));
            assert(all.take(at + 1).last() == all[at as int]);
            assert(texts(path@).skip(0) =~= texts(path@));
        }
        document = set_value(document, &path, 0, value);
        at = at + 1;
    }
    proof {
        assert(all.take(at as int) =~= all);
    }
    document
}

/// The value at the end of a path, if there is one and it is no table.
pub open spec fn leaf_at(value: TomlModel, path: Seq<Seq<char>>) -> Option<TomlModel> {
    match value.at_path(path) {
        Some(found) => if found is Table {
            None
        } else {
            Some(found)
        },
        None => None,
    }
}

/// A leaf stands somewhere below a path.
pub open spec fn leaf_below(value: TomlModel, path: Seq<Seq<char>>) -> bool {
    exists|below: Seq<Seq<char>>|
        below.len() > 0 && #[trigger] leaf_at(value, path + below) is Some
}

/// Neither this value nor one inside it is a table without entries.
spec fn solid(value: TomlModel) -> bool
    decreases value,
{
    match value {
        TomlModel::Table(entries) => {
            &&& entries.len() > 0
            &&& forall|i: int| 0 <= i < entries.len() ==> solid((#[trigger] entries[i]).1)
        },
        _ => true,
    }
}

/// No value inside this one is a table without entries.
spec fn solid_inside(value: TomlModel) -> bool {
    forall|i: int| 0 <= i < entries_of(value).len() ==> solid((#[trigger] entries_of(value)[i]).1)
}

proof fn lemma_set_at_is_solid(tree: TomlModel, path: Seq<Seq<char>>, value: TomlModel)
    requires
        solid_inside(tree),
        !(value is Table),
        path.len() > 0,
    ensures
        set_at(tree, path, value) is Table,
        solid(set_at(tree, path, value)),
    decreases path.len(),
{
    let entries = entries_of(tree);
    let key = path[0];
    let nested = nested_in(entries, key);
    let new = set_at(nested, path.drop_first(), value);
    if value_of(entries, key) is Some {
        let at = lemma_value_of_found(entries, key);
        assert(solid(entries[at].1));
        assert(solid_inside(nested));
        if path.len() > 1 {
            lemma_set_at_is_solid(nested, path.drop_first(), value);
        }
        lemma_with_value_found(entries, key, new, at);
    } else {
        if path.len() > 1 {
            lemma_set_at_is_solid(nested, path.drop_first(), value);
        }
        assert forall|j: int| 0 <= j < entries.len() implies (#[trigger] entries[j]).0 != key by {
            lemma_no_value(entries, key, j);
        }
        lemma_with_value_new(entries, key, new);
    }
}

proof fn lemma_solid_has_leaf(value: TomlModel) -> (path: Seq<Seq<char>>)
    requires
        solid(value),
    ensures
        leaf_at(value, path) is Some,
    decreases value,
{
    match value {
        TomlModel::Table(entries) => {
            assert(decreases_to!(value => value->Table_0));
            assert(decreases_to!(entries => entries[0]));
            assert(solid(entries[0].1));
            let rest = lemma_solid_has_leaf(entries[0].1);
            let path = seq![entries[0].0] + rest;
            assert(path.drop_first() =~= rest);
            path
        },
        _ => Seq::empty(),
    }
}

proof fn lemma_reached_is_solid(value: TomlModel, path: Seq<Seq<char>>)
    requires
        solid_inside(value),
        path.len() > 0,
        value.at_path(path) is Some,
    ensures
        solid(value.at_path(path)->0),
    decreases path.len(),
{
    let entries = value->Table_0;
    let at = lemma_value_of_found(entries, path[0]);
    assert(solid(entries_of(value)[at].1));
    let nested = entries[at].1;
    if path.len() > 1 {
        assert(solid_inside(nested));
        lemma_reached_is_solid(nested, path.drop_first());
    }
}

proof fn lemma_path_in_two(value: TomlModel, path: Seq<Seq<char>>, below: Seq<Seq<char>>)
    ensures
        value.at_path(path + below) == match value.at_path(path) {
            Some(found) => found.at_path(below),
            None => None,
        },
    decreases path.len(),
{
    if path.len() == 0 {
        assert(path + below =~= below);
    } else {
        assert((path + below).drop_first() =~= path.drop_first() + below);
        assert((path + below)[0] == path[0]);
        if let TomlModel::Table(entries) = value {
            if let Some(nested) = value_of(entries, path[0]) {
                lemma_path_in_two(nested, path.drop_first(), below);
            }
        }
    }
}

/// A value that is set where there is room for it changes no other leaf.
proof fn lemma_set_at_adds_a_leaf(
    tree: TomlModel,
    path: Seq<Seq<char>>,
    value: TomlModel,
    other: Seq<Seq<char>>,
)
    requires
        tree is Table,
        path.len() > 0,
        !(value is Table),
        tree.at_path(path) is None,
        forall|k: int| 0 <= k <= path.len() ==> leaf_at(tree, #[trigger] path.take(k)) is None,
    ensures
        leaf_at(set_at(tree, path, value), other) == if other == path {
            Some(value)
        } else {
            leaf_at(tree, other)
        },
    decreases path.len(),
{
    let entries = tree->Table_0;
    let key = path[0];
    let rest = path.drop_first();
    let nested = nested_in(entries, key);
    let new = set_at(nested, rest, value);
    let changed = set_at(tree, path, value);
    assert(changed == TomlModel::Table(with_value(entries, key, new)));
    if other.len() > 0 {
        lemma_value_of_with_value(entries, key, new, other[0]);
        let other_rest = other.drop_first();
        if other[0] == key {
            assert(other == path <==> other_rest == rest) by {
                if other_rest == rest {
                    assert(other =~= seq![key] + other_rest);
                    assert(path =~= seq![key] + rest);
                }
            }
            if path.len() == 1 {
                assert(rest =~= Seq::empty());
                assert(new == value);
                if value_of(entries, key) is Some {
                    assert(nested.at_path(rest) == Some(nested));
                    assert(tree.at_path(path) == Some(nested));
                }
                assert(value_of(entries, key) is None);
                assert(tree.at_path(other) is None);
                assert(changed.at_path(other) == value.at_path(other_rest));
                if other_rest.len() == 0 {
                    assert(other_rest =~= rest);
                }
            } else {
                if value_of(entries, key) is Some {
                    let start = path.take(1);
                    assert(start[0] == key && start.drop_first() =~= Seq::empty());
                    assert(leaf_at(tree, start) is None);
                    assert(nested.at_path(start.drop_first()) == Some(nested));
                    assert(tree.at_path(start) == Some(nested));
                    assert forall|k: int| 0 <= k <= rest.len() implies leaf_at(
                        nested,
                        #[trigger] rest.take(k),
                    ) is None by {
                        let longer = path.take(k + 1);
                        assert(longer[0] == key && longer.drop_first() =~= rest.take(k));
                        assert(leaf_at(tree, longer) is None);
                    }
                } else {
                    assert forall|k: int| 0 <= k <= rest.len() implies leaf_at(
                        nested,
                        #[trigger] rest.take(k),
                    ) is None by {}
                }
                lemma_set_at_adds_a_leaf(nested, rest, value, other_rest);
                assert(changed.at_path(other) == new.at_path(other_rest));
                if value_of(entries, key) is None {
                    assert(leaf_at(nested, other_rest) is None);
                    assert(tree.at_path(other) is None);
                } else {
                    assert(tree.at_path(other) == nested.at_path(other_rest));
                }
            }
        }
    }
}

/// The value that the last entry with this path has.
spec fn listed(entries: Seq<(Seq<char>, TomlModel)>, path: Seq<Seq<char>>) -> Option<TomlModel>
    decreases entries.len(),
{
    if entries.len() == 0 {
        None
    } else if dot_pieces(entries.last().0) == path {
        Some(entries.last().1)
    } else {
        listed(entries.drop_last(), path)
    }
}

proof fn lemma_listed_by_an_entry(
    entries: Seq<(Seq<char>, TomlModel)>,
    path: Seq<Seq<char>>,
) -> (i: int)
    requires
        listed(entries, path) is Some,
    ensures
        0 <= i < entries.len(),
        dot_pieces(entries[i].0) == path,
        listed(entries, path) == Some(entries[i].1),
    decreases entries.len(),
{
    if dot_pieces(entries.last().0) == path {
        entries.len() - 1
    } else {
        let i = lemma_listed_by_an_entry(entries.drop_last(), path);
        assert(entries.drop_last()[i] == entries[i]);
        i
    }
}

proof fn lemma_entry_is_listed(entries: Seq<(Seq<char>, TomlModel)>, i: int)
    requires
        0 <= i < entries.len(),
    ensures
        listed(entries, dot_pieces(entries[i].0)) is Some,
    decreases entries.len(),
{
    if i < entries.len() - 1 {
        assert(entries.drop_last()[i] == entries[i]);
        lemma_entry_is_listed(entries.drop_last(), i);
    }
}

/// No key leads through another, and no value is a table.
spec fn apart(entries: Seq<(Seq<char>, TomlModel)>) -> bool {
    &&& forall|i: int, j: int|
        0 <= i < j < entries.len() ==> !on_one_path(
            (#[trigger] entries[i]).0,
            (#[trigger] entries[j]).0,
        )
    &&& forall|i: int| 0 <= i < entries.len() ==> !((#[trigger] entries[i]).1 is Table)
}

/// Entries that are apart build a document with just their values as its leaves.
proof fn lemma_built_leaves(entries: Seq<(Seq<char>, TomlModel)>)
    requires
        apart(entries),
    ensures
        built(entries) is Table,
        solid_inside(built(entries)),
        forall|path: Seq<Seq<char>>| #[trigger]
            leaf_at(built(entries), path) == listed(entries, path),
    decreases entries.len(),
{
    if entries.len() > 0 {
        let init = entries.drop_last();
        let key = entries.last().0;
        let value = entries.last().1;
        let path = dot_pieces(key);
        let tree = built(init);
        assert(entries[entries.len() - 1] == (key, value));
        assert forall|i: int, j: int| 0 <= i < j < init.len() implies !on_one_path(
            (#[trigger] init[i]).0,
            (#[trigger] init[j]).0,
        ) by {
            assert(init[i] == entries[i] && init[j] == entries[j]);
        }
        assert forall|i: int| 0 <= i < init.len() implies !((#[trigger] init[i]).1 is Table) by {
            assert(init[i] == entries[i]);
        }
        lemma_built_leaves(init);
        lemma_dot_pieces_nonempty(key);
        assert forall|found: Seq<Seq<char>>|
            found.is_prefix_of(path) || path.is_prefix_of(found) implies #[trigger] leaf_at(
            tree,
            found,
        ) is None by {
            if leaf_at(tree, found) is Some {
                let i = lemma_listed_by_an_entry(init, found);
                assert(init[i] == entries[i]);
                assert(!on_one_path(entries[i].0, entries[entries.len() - 1].0));
            }
        }
        assert forall|k: int| 0 <= k <= path.len() implies leaf_at(
            tree,
            #[trigger] path.take(k),
        ) is None by {
            assert(path.take(k) =~= path.subrange(0, k));
            assert(path.take(k).is_prefix_of(path));
        }
        if tree.at_path(path) is Some {
            lemma_reached_is_solid(tree, path);
            let below = lemma_solid_has_leaf(tree.at_path(path)->0);
            lemma_path_in_two(tree, path, below);
            assert(path =~= (path + below).subrange(0, path.len() as int));
            assert(path.is_prefix_of(path + below));
            assert(leaf_at(tree, path + below) is Some);
            assert(false);
        }
        lemma_set_at_is_solid(tree, path, value);
        assert forall|other: Seq<Seq<char>>| #[trigger]
            leaf_at(built(entries), other) == listed(entries, other) by {
            lemma_set_at_adds_a_leaf(tree, path, value, other);
        }
    } else {
        assert forall|path: Seq<Seq<char>>| #[trigger]
            leaf_at(built(entries), path) == listed(entries, path) by {}
    }
}

/// The entries of a flattened document, in whatever order they are set, rebuild it, where no key of
/// the document holds a dot: the same leaves stand at the same paths, and a table stands where a
/// leaf is below it. Only tables without leaves are lost.
pub proof fn law_entries_rebuild_the_document(
    document: TomlModel,
    order: Seq<(Seq<char>, TomlModel)>,
    path: Seq<Seq<char>>,
)
    requires
        document is Table,
        document.well_formed(),
        document.dotless_keys(),
        order.to_multiset() == flattened(document).to_multiset(),
    ensures
        built(order) is Table,
        leaf_at(built(order), path) == leaf_at(document, path),
        path.len() > 0 ==> ((built(order).at_path(path) matches Some(TomlModel::Table(_)))
            <==> leaf_below(document, path)),
{
    let flat = flattened(document);
    assert forall|i: int, j: int|
        0 <= i < flat.len() && 0 <= j < flat.len() && i != j implies flat[i] != flat[j] by {
        law_no_key_leads_through_another(document, i, j);
        assert(dot_pieces(flat[i].0).is_prefix_of(dot_pieces(flat[i].0)));
    }
    flat.lemma_multiset_has_no_duplicates();
    order.lemma_multiset_has_no_duplicates_conv();
    assert forall|entry: (Seq<char>, TomlModel)|
        #[trigger] order.contains(entry) <==> flat.contains(entry) by {
        order.to_multiset_ensures();
        flat.to_multiset_ensures();
        assert(order.contains(entry) <==> order.to_multiset().count(entry) > 0);
        assert(flat.contains(entry) <==> flat.to_multiset().count(entry) > 0);
    }
    assert forall|i: int, j: int| 0 <= i < j < order.len() implies !on_one_path(
        (#[trigger] order[i]).0,
        (#[trigger] order[j]).0,
    ) by {
        assert(order.contains(order[i]) && order.contains(order[j]));
        let a = choose|a: int| 0 <= a < flat.len() && flat[a] == order[i];
        let b = choose|b: int| 0 <= b < flat.len() && flat[b] == order[j];
        assert(a != b);
        law_no_key_leads_through_another(document, a, b);
    }
    assert forall|i: int| 0 <= i < order.len() implies !((#[trigger] order[i]).1 is Table) by {
        assert(order.contains(order[i]));
        let a = choose|a: int| 0 <= a < flat.len() && flat[a] == order[i];
        law_split_key_leads_to_value(document, a);
    }
    lemma_built_leaves(order);
    assert forall|found: Seq<Seq<char>>| #[trigger]
        leaf_at(built(order), found) == leaf_at(document, found) by {
        if listed(order, found) is Some {
            let i = lemma_listed_by_an_entry(order, found);
            assert(order.contains(order[i]));
            let a = choose|a: int| 0 <= a < flat.len() && flat[a] == order[i];
            law_split_key_leads_to_value(document, a);
        }
        if leaf_at(document, found) is Some {
            law_every_leaf_has_an_entry(document, found);
            let entry = (dotted(found), document.at_path(found)->0);
            assert(order.contains(entry));
            let i = choose|i: int| 0 <= i < order.len() && order[i] == entry;
            assert forall|k: int| 0 <= k < found.len() implies !(
            #[trigger] found[k]).contains('.') by {
                lemma_path_is_dotless(document, found, k);
            }
            law_split_undoes_join(found);
            lemma_entry_is_listed(order, i);
        }
    }
    let tree = built(order);
    if path.len() > 0 {
        if tree.at_path(path) matches Some(TomlModel::Table(_)) {
            lemma_reached_is_solid(tree, path);
            let found = tree.at_path(path)->0;
            let below = lemma_solid_has_leaf(found);
            lemma_path_in_two(tree, path, below);
            assert(leaf_at(tree, path + below) is Some);
            assert(leaf_at(document, path + below) is Some);
            assert(below.len() > 0);
        }
        if leaf_below(document, path) {
            let below = choose|below: Seq<Seq<char>>|
                below.len() > 0 && #[trigger] leaf_at(document, path + below) is Some;
            assert(leaf_at(tree, path + below) is Some);
            lemma_path_in_two(tree, path, below);
        }
    }
}

/// What was set at a path is found there, and below the path what is below the value.
pub proof fn law_what_was_set_is_found(
    tree: TomlModel,
    path: Seq<Seq<char>>,
    value: TomlModel,
    below: Seq<Seq<char>>,
)
    ensures
        set_at(tree, path, value).at_path(path) == Some(value),
        set_at(tree, path, value).at_path(path + below) == value.at_path(below),
    decreases path.len(),
{
    if path.len() > 0 {
        let entries = entries_of(tree);
        let nested = nested_in(entries, path[0]);
        let new = set_at(nested, path.drop_first(), value);
        law_what_was_set_is_found(nested, path.drop_first(), value, below);
        lemma_value_of_with_value(entries, path[0], new, path[0]);
        assert((path + below)[0] == path[0]);
        assert((path + below).drop_first() =~= path.drop_first() + below);
    } else {
        assert(path + below =~= below);
    }
}

/// Setting a value at a path changes nothing at a path that branches off from it, where tables led
/// to the branch. Where none did, the way there is new, and nothing is on the other path.
pub proof fn law_what_branches_off_is_kept(
    tree: TomlModel,
    path: Seq<Seq<char>>,
    value: TomlModel,
    other: Seq<Seq<char>>,
    k: int,
)
    requires
        0 <= k < path.len(),
        k < other.len(),
        other.take(k) == path.take(k),
        other[k] != path[k],
    ensures
        set_at(tree, path, value).at_path(other) == if tree.at_path(path.take(k)) matches Some(
            TomlModel::Table(_),
        ) {
            tree.at_path(other)
        } else {
            None
        },
    decreases path.len(),
{
    let entries = entries_of(tree);
    let key = path[0];
    let nested = nested_in(entries, key);
    let new = set_at(nested, path.drop_first(), value);
    lemma_value_of_with_value(entries, key, new, other[0]);
    if k == 0 {
        assert(path.take(0) =~= Seq::empty());
        assert(value_of(Seq::<(Seq<char>, TomlModel)>::empty(), other[0]) is None);
    } else {
        assert(other.take(k)[0] == path.take(k)[0]);
        let rest = path.drop_first();
        let other_rest = other.drop_first();
        assert(rest.take(k - 1) =~= path.take(k).drop_first());
        assert(other_rest.take(k - 1) =~= other.take(k).drop_first());
        law_what_branches_off_is_kept(nested, rest, value, other_rest, k - 1);
        if !(tree is Table) || value_of(entries, key) is None {
            assert(value_of(Seq::<(Seq<char>, TomlModel)>::empty(), key) is None);
            assert(tree.at_path(path.take(k)) is None);
            if k > 1 {
                assert(value_of(Seq::<(Seq<char>, TomlModel)>::empty(), rest[0]) is None);
                assert(nested.at_path(rest.take(k - 1)) is None);
            } else {
                assert(rest.take(0) =~= Seq::empty());
                assert(value_of(Seq::<(Seq<char>, TomlModel)>::empty(), other_rest[0]) is None);
                assert(nested.at_path(other_rest) is None);
            }
        }
    }
}

/// After a value has been set at a path, tables lead to it.
pub proof fn law_tables_lead_to_what_was_set(
    tree: TomlModel,
    path: Seq<Seq<char>>,
    value: TomlModel,
    k: int,
)
    requires
        0 <= k < path.len(),
    ensures
        set_at(tree, path, value).at_path(path.take(k)) matches Some(TomlModel::Table(_)),
    decreases path.len(),
{
    let entries = entries_of(tree);
    let nested = nested_in(entries, path[0]);
    let new = set_at(nested, path.drop_first(), value);
    if k > 0 {
        law_tables_lead_to_what_was_set(nested, path.drop_first(), value, k - 1);
        lemma_value_of_with_value(entries, path[0], new, path[0]);
        assert(path.take(k)[0] == path[0]);
        assert(path.take(k).drop_first() =~= path.drop_first().take(k - 1));
    }
}

/// Entries are set one after the other, each at the pieces of its key, starting from an empty
/// table.
pub proof fn law_entries_are_set_one_after_the_other(
    entries: Seq<(Seq<char>, TomlModel)>,
    key: Seq<char>,
    value: TomlModel,
)
    ensures
        built(Seq::empty()) == TomlModel::Table(Seq::empty()),
        built(entries.push((key, value))) == set_at(built(entries), dot_pieces(key), value),
        built(entries.push((key, value))).at_path(dot_pieces(key)) == Some(value),
{
    assert(entries.push((key, value)).drop_last() =~= entries);
    law_what_was_set_is_found(built(entries), dot_pieces(key), value, Seq::empty());
}

/// The leaf at a path is the value there, unless that is a table.
pub proof fn law_leaf_is_a_value_that_is_no_table(
    value: TomlModel,
    path: Seq<Seq<char>>,
    found: TomlModel,
)
    ensures
        leaf_at(value, path) == Some(found) <==> value.at_path(path) == Some(found) && !(
        found is Table),
{
}

/// A key of a table is set in place if the table has it, at the first entry with the key, and else
/// in a new entry at the end.
pub proof fn law_keys_are_set_in_place(
    entries: Seq<(Seq<char>, TomlModel)>,
    key: Seq<char>,
    value: TomlModel,
    at: int,
)
    ensures
        0 <= at < entries.len() && entries[at].0 == key && (forall|j: int|
            0 <= j < at ==> (#[trigger] entries[j]).0 != key) ==> set_at(
            TomlModel::Table(entries),
            seq![key],
            value,
        ) == TomlModel::Table(entries.update(at, (key, value))),
        (forall|j: int| 0 <= j < entries.len() ==> (#[trigger] entries[j]).0 != key) ==> set_at(
            TomlModel::Table(entries),
            seq![key],
            value,
        ) == TomlModel::Table(entries.push((key, value))),
{
    let path = seq![key];
    assert(path.drop_first() =~= Seq::empty());
    assert(set_at(nested_in(entries, key), path.drop_first(), value) == value);
    if 0 <= at < entries.len() && entries[at].0 == key && (forall|j: int|
        0 <= j < at ==> (#[trigger] entries[j]).0 != key) {
        lemma_with_value_found(entries, key, value, at);
    }
    if forall|j: int| 0 <= j < entries.len() ==> (#[trigger] entries[j]).0 != key {
        lemma_with_value_new(entries, key, value);
    }
}

/// To set a value deeper down is to set it in what stands under the first key, or in an empty table
/// if nothing does, and then to set that under the key. A value that is no table counts as an empty
/// one.
pub proof fn law_deeper_values_are_set_step_by_step(
    tree: TomlModel,
    key: Seq<char>,
    rest: Seq<Seq<char>>,
    value: TomlModel,
)
    ensures
        tree.at_path(seq![key]) matches Some(nested) ==> set_at(tree, seq![key] + rest, value)
            == set_at(tree, seq![key], set_at(nested, rest, value)),
        tree.at_path(seq![key]) is None ==> set_at(tree, seq![key] + rest, value) == set_at(
            tree,
            seq![key],
            set_at(TomlModel::Table(Seq::empty()), rest, value),
        ),
        !(tree is Table) ==> set_at(tree, seq![key], value) == TomlModel::Table(
            seq![(key, value)],
        ),
{
    let path = seq![key] + rest;
    let step = seq![key];
    assert(path.drop_first() =~= rest);
    assert(step.drop_first() =~= Seq::empty());
    let nested = nested_in(entries_of(tree), key);
    let new = set_at(nested, rest, value);
    assert(set_at(nested, step.drop_first(), new) == new);
    assert(set_at(nested, step.drop_first(), value) == value);
    assert(value_of(Seq::<(Seq<char>, TomlModel)>::empty(), key) is None);
    assert(nested.at_path(step.drop_first()) == Some(nested));
    if !(tree is Table) {
        assert(with_value(entries_of(tree), key, value) =~= seq![(key, value)]);
    }
}

} // verus!
