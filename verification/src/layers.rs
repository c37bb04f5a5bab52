//! The layers that a config is made of, and where the server's layers go among them.
use vstd::prelude::*;

use crate::entries::{
    law_first_entry_with_the_key_gives_its_value, lemma_position_decides, position_of, value_of,
};
use crate::error::AdAgentConfigError;
use crate::fetch::{OverridesModel, ServerConfigOverrides};
use crate::flatten::flattened;
use crate::text::{dot_pieces, lemma_dot_pieces_nonempty, split_dots, texts};
use crate::toml_value::{entries_view, lemma_table_view, TomlModel, TomlValue};
use crate::unflatten::{
    build_cli_overrides_layer, built, law_entries_rebuild_the_document, leaf_at,
};

verus! {

/// Where a config layer comes from.
#[derive(Debug, PartialEq, Eq)]
pub enum ConfigLayerSource {
    /// What the server suggests.
    ServerDefaults,
    /// The user's own config file.
    User { file: String, profile: Option<String> },
    /// What was asked for on the command line.
    SessionFlags,
    /// What the server enforces.
    ServerConfig,
}

impl ConfigLayerSource {
    /// How strong a layer from this source is: the server's defaults come just below the user's
    /// own config, and what it enforces comes above everything local.
    pub open spec fn rank(&self) -> int {
        match self {
            ConfigLayerSource::ServerDefaults => 0,
            ConfigLayerSource::User { .. } => 1,
            ConfigLayerSource::SessionFlags => 2,
            ConfigLayerSource::ServerConfig => 3,
        }
    }

    /// Neither of the two sources on the server.
    pub open spec fn is_local(&self) -> bool {
        self is User || self is SessionFlags
    }

    /// How strong a layer from this source is.
    pub fn precedence(&self) -> (rank: u8)
        ensures
            rank == self.rank(),
    {
        match self {
            ConfigLayerSource::ServerDefaults => 0,
            ConfigLayerSource::User { .. } => 1,
            ConfigLayerSource::SessionFlags => 2,
            ConfigLayerSource::ServerConfig => 3,
        }
    }
}

/// A config layer: a TOML document from one source.
#[derive(Debug)]
pub struct ConfigLayerEntry {
    pub source: ConfigLayerSource,
    pub config: TomlValue,
}

/// What a [`ConfigLayerEntry`] holds.
#[verifier::ext_equal]
pub struct LayerModel {
    pub source: ConfigLayerSource,
    pub config: TomlModel,
}

impl View for ConfigLayerEntry {
    type V = LayerModel;

    open spec fn view(&self) -> LayerModel {
        LayerModel { source: self.source, config: self.config@ }
    }
}

impl ConfigLayerEntry {
    /// A layer with this document.
    pub fn new(source: ConfigLayerSource, config: TomlValue) -> (layer: Self)
        ensures
            layer@ == (LayerModel { source, config: config@ }),
    {
        ConfigLayerEntry { source, config }
    }
}

/// The layers of a config, from the weakest to the strongest.
#[derive(Debug)]
pub struct ConfigLayerStack {
    layers: Vec<ConfigLayerEntry>,
}

/// The layers stand in the order of their strength.
pub open spec fn in_order(layers: Seq<LayerModel>) -> bool {
    forall|i: int, j: int|
        0 <= i < j < layers.len() ==> (#[trigger] layers[i]).source.rank() <= (
        #[trigger] layers[j]).source.rank()
}

/// How many of the layers, from the weakest on, stay below a new layer of this strength: a new
/// layer goes above those that are as strong as itself.
pub open spec fn insertion_point(layers: Seq<LayerModel>, rank: int) -> int
    decreases layers.len(),
{
    if layers.len() == 0 {
        0
    } else if layers.last().source.rank() <= rank {
        layers.len() as int
    } else {
        insertion_point(layers.drop_last(), rank)
    }
}

/// The layers with one more, at its place.
pub open spec fn with_layer(layers: Seq<LayerModel>, layer: LayerModel) -> Seq<LayerModel> {
    layers.insert(insertion_point(layers, layer.source.rank()), layer)
}

/// The layers with one more from this source, with the document that the entries build, unless
/// there are no entries.
pub open spec fn with_entries(
    layers: Seq<LayerModel>,
    source: ConfigLayerSource,
    entries: Seq<(Seq<char>, TomlModel)>,
) -> Seq<LayerModel> {
    if entries.len() == 0 {
        layers
    } else {
        with_layer(layers, LayerModel { source, config: built(entries) })
    }
}

/// The layers with those of the server among them.
pub open spec fn with_overrides(
    layers: Seq<LayerModel>,
    overrides: OverridesModel,
) -> Seq<LayerModel> {
    with_entries(
        with_entries(layers, ConfigLayerSource::ServerDefaults, overrides.defaults),
        ConfigLayerSource::ServerConfig,
        overrides.enforced,
    )
}

/// What a document says of a path, if it says anything. Where the path ends in a value that is no
/// table, it says that value. Where it ends in a table, or goes on behind a value that is no table,
/// it says that there is no value.
pub open spec fn said_at(config: TomlModel, path: Seq<Seq<char>>) -> Option<Option<TomlModel>>
    decreases path.len(),
{
    if path.len() == 0 {
        match config {
            TomlModel::Table(_) => Some(None),
            leaf => Some(Some(leaf)),
        }
    } else {
        match config {
            TomlModel::Table(entries) => match value_of(entries, path[0]) {
                Some(nested) => said_at(nested, path.drop_first()),
                None => None,
            },
            _ => Some(None),
        }
    }
}

/// What the document that entries build says of a dotted key, if it says anything.
pub open spec fn said_by_entries(entries: Seq<(Seq<char>, TomlModel)>, key: Seq<char>) -> Option<
    Option<TomlModel>,
> {
    said_at(built(entries), dot_pieces(key))
}

/// What the strongest layer that says anything of a dotted key says of it.
pub open spec fn said_by_layers(layers: Seq<LayerModel>, key: Seq<char>) -> Option<
    Option<TomlModel>,
>
    decreases layers.len(),
{
    if layers.len() == 0 {
        None
    } else {
        or_else(
            said_at(layers.last().config, dot_pieces(key)),
            said_by_layers(layers.drop_last(), key),
        )
    }
}

/// The value that applies for a dotted key, if it has one.
pub open spec fn effective(layers: Seq<LayerModel>, key: Seq<char>) -> Option<TomlModel> {
    match said_by_layers(layers, key) {
        Some(value) => value,
        None => None,
    }
}

/// What the first of two says, if it says anything, and else what the second says.
pub open spec fn or_else(
    first: Option<Option<TomlModel>>,
    second: Option<Option<TomlModel>>,
) -> Option<Option<TomlModel>> {
    match first {
        Some(value) => Some(value),
        None => second,
    }
}

/// What a list of layers holds.
pub open spec fn layers_view(layers: Seq<ConfigLayerEntry>) -> Seq<LayerModel> {
    layers.map_values(|layer: ConfigLayerEntry| layer@)
}

proof fn lemma_insertion_point(layers: Seq<LayerModel>, rank: int)
    requires
        in_order(layers),
    ensures
        0 <= insertion_point(layers, rank) <= layers.len(),
        forall|i: int|
            0 <= i < insertion_point(layers, rank) ==> (#[trigger] layers[i]).source.rank() <= rank,
        forall|i: int|
            insertion_point(layers, rank) <= i < layers.len() ==> (
            #[trigger] layers[i]).source.rank() > rank,
    decreases layers.len(),
{
    if layers.len() > 0 {
        let shorter = layers.drop_last();
        if layers.last().source.rank() > rank {
            assert(in_order(shorter));
            lemma_insertion_point(shorter, rank);
            assert forall|i: int|
                0 <= i < insertion_point(layers, rank) implies (#[trigger] layers[i]).source.rank()
                <= rank by {
                assert(shorter[i] == layers[i]);
            }
            assert forall|i: int|
                insertion_point(layers, rank) <= i < layers.len() implies (
            #[trigger] layers[i]).source.rank() > rank by {
                if i < shorter.len() {
                    assert(shorter[i] == layers[i]);
                }
            }
        } else {
            assert forall|i: int|
                0 <= i < layers.len() implies (#[trigger] layers[i]).source.rank() <= rank by {
                assert(layers[layers.len() - 1].source.rank() <= rank);
            }
        }
    }
}

proof fn lemma_with_layer_in_order(layers: Seq<LayerModel>, layer: LayerModel)
    requires
        in_order(layers),
    ensures
        in_order(with_layer(layers, layer)),
{
    lemma_insertion_point(layers, layer.source.rank());
    let at = insertion_point(layers, layer.source.rank());
    let longer = with_layer(layers, layer);
    assert forall|i: int, j: int| 0 <= i < j < longer.len() implies (
    #[trigger] longer[i]).source.rank() <= (#[trigger] longer[j]).source.rank() by {
        let a = if i < at { i } else { i - 1 };
        let b = if j < at { j } else { j - 1 };
        if i != at {
            assert(longer[i] == layers[a]);
        }
        if j != at {
            assert(longer[j] == layers[b]);
        }
    }
}

impl ConfigLayerStack {
    /// The layers of this stack.
    pub closed spec fn view(&self) -> Seq<LayerModel> {
        layers_view(self.layers@)
    }

    #[verifier::type_invariant]
    spec fn ordered(self) -> bool {
        in_order(layers_view(self.layers@))
    }

    /// A stack without layers.
    pub fn new() -> (stack: Self)
        ensures
            stack@ == Seq::<LayerModel>::empty(),
    {
        let layers: Vec<ConfigLayerEntry> = Vec::new();
        proof {
            assert(layers_view(layers@) =~= Seq::empty());
        }
        ConfigLayerStack { layers }
    }

    /// The layers of a stack are always in order.
    pub fn layers(&self) -> (layers: &Vec<ConfigLayerEntry>)
        ensures
            layers_view(layers@) == self@,
            in_order(self@),
    {
        proof {
            use_type_invariant(self);
        }
        &self.layers
    }

    /// The stack with one more layer, above the layers that are not stronger.
    pub fn with_layer_inserted_by_precedence(self, layer: ConfigLayerEntry) -> (stack: Self)
        ensures
            stack@ == with_layer(self@, layer@),
            in_order(stack@),
    {
        proof {
            use_type_invariant(&self);
            lemma_with_layer_in_order(self@, layer@);
        }
        let rank = layer.source.precedence();
        let ghost before = self@;
        let ConfigLayerStack { mut layers } = self;
        let mut at = layers.len();
        proof {
            assert(before.take(at as int) =~= before);
        }
        while at > 0 && layers[at - 1].source.precedence() > rank
            invariant
                at <= layers.len(),
                before == layers_view(layers@),
                rank == layer.source.rank(),
                insertion_point(before, rank as int) == insertion_point(
                    before.take(at as int),
                    rank as int,
                ),
            decreases at,
        {
            proof {
                assert(before.take(at as int).last() == before[at - 1]);
                assert(before.take(at as int).drop_last() =~= before.take(at - 1));
            }
            at = at - 1;
        }
        proof {
            if at > 0 {
                assert(before.take(at as int).last() == before[at - 1]);
            }
        }
        let ghost added = layer@;
        layers.insert(at, layer);
        proof {
            assert(layers_view(layers@) =~= with_layer(before, added));
        }
        ConfigLayerStack { layers }
    }

    /// The value that applies for a dotted key.
    pub fn effective_value(&self, key: &str) -> (found: Option<&TomlValue>)
        ensures
            match found {
                Some(value) => effective(self@, key@) == Some(value@),
                None => effective(self@, key@) is None,
            },
    {
        let ghost all = self@;
        let pieces = split_dots(key);
        let mut at = self.layers.len();
        proof {
            assert(all.take(at as int) =~= all);
        }
        while at > 0
            invariant
                at <= self.layers.len(),
                all == layers_view(self.layers@),
                texts(pieces@) == dot_pieces(key@),
                said_by_layers(all, key@) == said_by_layers(all.take(at as int), key@),
            decreases at,
        {
            proof {
                assert(all.take(at as int).last() == all[at - 1]);
                assert(all.take(at as int).drop_last() =~= all.take(at - 1));
            }
            at = at - 1;
            match look_up(&self.layers[at].config, &pieces) {
                Some(value) => {
                    return value;
                },
                None => {},
            }
        }
        None
    }
}

/// Says what a document says of the path with these pieces.
fn look_up<'a>(config: &'a TomlValue, pieces: &Vec<String>) -> (said: Option<
    Option<&'a TomlValue>,
>)
    ensures
        match said {
            Some(Some(value)) => said_at(config@, texts(pieces@)) == Some(Some(value@)),
            Some(None) => said_at(config@, texts(pieces@)) == Some(None::<TomlModel>),
            None => said_at(config@, texts(pieces@)) is None,
        },
{
    let ghost path = texts(pieces@);
    let mut here: &TomlValue = config;
    let mut at: usize = 0;
    proof {
        assert(path.skip(0) =~= path);
    }
    while at < pieces.len()
        invariant
            at <= pieces.len(),
            path == texts(pieces@),
            said_at(config@, path) == said_at(here@, path.skip(at as int)),
        decreases pieces.len() - at,
    {
        match here {
            TomlValue::Table(entries) => {
                let found = position_of(entries, pieces[at].as_str());
                proof {
                    let view = entries_view(entries@);
                    lemma_table_view(*entries);
                    assert(path.skip(at as int)[0] == pieces@[at as int]@);
                    assert(path.skip(at as int).drop_first() =~= path.skip(at + 1));
                    assert forall|j: int| 0 <= j < view.len() implies (#[trigger] view[j]).0
                        == entries@[j].0@ by {}
                    lemma_position_decides(view, pieces@[at as int]@, found);
                }
                match found {
                    Some(place) => {
                        here = &entries[place].1;
                    },
                    None => {
                        return None;
                    },
                }
            },
            _ => {
                return Some(None);
            },
        }
        at = at + 1;
    }
    match here {
        TomlValue::Table(_) => Some(None),
        _ => Some(Some(here)),
    }
}

impl Default for ConfigLayerStack {
    /// A stack without layers.
    fn default() -> (stack: Self)
        ensures
            stack@ == Seq::<LayerModel>::empty(),
    {
        ConfigLayerStack::new()
    }
}

fn with_entries_inserted(
    stack: ConfigLayerStack,
    source: ConfigLayerSource,
    entries: &Vec<(String, TomlValue)>,
) -> (result: ConfigLayerStack)
    ensures
        result@ == with_entries(stack@, source, entries_view(entries@)),
{
    if entries.len() == 0 {
        stack
    } else {
        stack.with_layer_inserted_by_precedence(
            ConfigLayerEntry::new(source, build_cli_overrides_layer(entries)),
        )
    }
}

/// The stack with up to two layers more: [`ConfigLayerSource::ServerDefaults`] for the defaults
/// and [`ConfigLayerSource::ServerConfig`] for the enforced entries. Empty parts add no layer.
pub fn with_server_config_layers(
    stack: ConfigLayerStack,
    overrides: &ServerConfigOverrides,
) -> (result: ConfigLayerStack)
    ensures
        result@ == with_overrides(stack@, overrides@),
{
    let stack = with_entries_inserted(
        stack,
        ConfigLayerSource::ServerDefaults,
        &overrides.defaults,
    );
    with_entries_inserted(stack, ConfigLayerSource::ServerConfig, &overrides.enforced)
}

/// The stack after a fetch: with the server's layers if it succeeded, unchanged if it failed.
pub fn with_fetched_layers(
    stack: ConfigLayerStack,
    fetched: &Result<ServerConfigOverrides, AdAgentConfigError>,
) -> (result: ConfigLayerStack)
    ensures
        match fetched {
            Ok(overrides) => result@ == with_overrides(stack@, overrides@),
            Err(_) => result == stack,
        },
{
    match fetched {
        Ok(overrides) => with_server_config_layers(stack, overrides),
        Err(_) => stack,
    }
}

proof fn lemma_said_concat(lower: Seq<LayerModel>, upper: Seq<LayerModel>, key: Seq<char>)
    ensures
        said_by_layers(lower + upper, key) == or_else(
            said_by_layers(upper, key),
            said_by_layers(lower, key),
        ),
    decreases upper.len(),
{
    if upper.len() == 0 {
        assert(lower + upper =~= lower);
    } else {
        lemma_said_concat(lower, upper.drop_last(), key);
        assert((lower + upper).drop_last() =~= lower + upper.drop_last());
        assert((lower + upper).last() == upper.last());
    }
}

proof fn lemma_said_with_entries(
    layers: Seq<LayerModel>,
    source: ConfigLayerSource,
    entries: Seq<(Seq<char>, TomlModel)>,
    key: Seq<char>,
)
    requires
        in_order(layers),
    ensures
        in_order(with_entries(layers, source, entries)),
        said_by_layers(with_entries(layers, source, entries), key) == ({
            let at = insertion_point(layers, source.rank());
            or_else(
                said_by_layers(layers.skip(at), key),
                or_else(said_by_entries(entries, key), said_by_layers(layers.take(at), key)),
            )
        }),
{
    let at = insertion_point(layers, source.rank());
    lemma_insertion_point(layers, source.rank());
    if entries.len() == 0 {
        lemma_dot_pieces_nonempty(key);
        assert(value_of(Seq::<(Seq<char>, TomlModel)>::empty(), dot_pieces(key)[0]) is None);
        assert(layers.take(at) + layers.skip(at) =~= layers);
        lemma_said_concat(layers.take(at), layers.skip(at), key);
    } else {
        let layer = LayerModel { source, config: built(entries) };
        lemma_with_layer_in_order(layers, layer);
        let lower = layers.take(at).push(layer);
        assert(with_layer(layers, layer) =~= lower + layers.skip(at));
        lemma_said_concat(lower, layers.skip(at), key);
        assert(lower.drop_last() =~= layers.take(at));
    }
}

proof fn lemma_enforced_on_top(
    layers: Seq<LayerModel>,
    entries: Seq<(Seq<char>, TomlModel)>,
    key: Seq<char>,
)
    requires
        in_order(layers),
    ensures
        said_by_layers(with_entries(layers, ConfigLayerSource::ServerConfig, entries), key)
            == or_else(said_by_entries(entries, key), said_by_layers(layers, key)),
{
    lemma_said_with_entries(layers, ConfigLayerSource::ServerConfig, entries, key);
    lemma_insertion_point(layers, 3);
    let at = insertion_point(layers, 3);
    if at < layers.len() {
        assert(layers[at].source.rank() > 3);
    }
    assert(layers.take(at) =~= layers);
    assert(layers.skip(at) =~= Seq::empty());
}

/// Where the enforced entries say anything of a key, that applies, whatever the layers say.
pub proof fn law_enforced_entries_outrank_every_layer(
    layers: Seq<LayerModel>,
    overrides: OverridesModel,
    key: Seq<char>,
)
    requires
        in_order(layers),
        said_by_entries(overrides.enforced, key) is Some,
    ensures
        effective(with_overrides(layers, overrides), key) == said_by_entries(
            overrides.enforced,
            key,
        )->0,
{
    lemma_said_with_entries(layers, ConfigLayerSource::ServerDefaults, overrides.defaults, key);
    lemma_enforced_on_top(
        with_entries(layers, ConfigLayerSource::ServerDefaults, overrides.defaults),
        overrides.enforced,
        key,
    );
}

/// Among local layers, for every key: what the enforced entries say of it applies; if they say
/// nothing, what the local layers say; and only if those say nothing either, what the server's
/// defaults say.
pub proof fn law_local_choice_beats_defaults_only(
    layers: Seq<LayerModel>,
    overrides: OverridesModel,
    key: Seq<char>,
)
    requires
        in_order(layers),
        forall|i: int| 0 <= i < layers.len() ==> (#[trigger] layers[i]).source.is_local(),
    ensures
        said_by_layers(with_overrides(layers, overrides), key) == or_else(
            said_by_entries(overrides.enforced, key),
            or_else(said_by_layers(layers, key), said_by_entries(overrides.defaults, key)),
        ),
{
    lemma_said_with_entries(layers, ConfigLayerSource::ServerDefaults, overrides.defaults, key);
    lemma_insertion_point(layers, 0);
    let at = insertion_point(layers, 0);
    if at > 0 {
        assert(layers[0].source.is_local());
        assert(layers[0].source.rank() <= 0);
    }
    assert(layers.skip(0) =~= layers);
    assert(layers.take(0) =~= Seq::empty());
    lemma_enforced_on_top(
        with_entries(layers, ConfigLayerSource::ServerDefaults, overrides.defaults),
        overrides.enforced,
        key,
    );
}

/// A config without entries changes nothing.
pub proof fn law_empty_config_adds_no_layer(layers: Seq<LayerModel>)
    ensures
        with_overrides(
            layers,
            OverridesModel { enforced: Seq::empty(), defaults: Seq::empty() },
        ) == layers,
{
}

/// The layers stay in order.
pub proof fn law_layers_stay_in_order(layers: Seq<LayerModel>, overrides: OverridesModel)
    requires
        in_order(layers),
    ensures
        in_order(with_overrides(layers, overrides)),
{
    let below = with_entries(layers, ConfigLayerSource::ServerDefaults, overrides.defaults);
    lemma_said_with_entries(
        layers,
        ConfigLayerSource::ServerDefaults,
        overrides.defaults,
        Seq::empty(),
    );
    lemma_said_with_entries(
        below,
        ConfigLayerSource::ServerConfig,
        overrides.enforced,
        Seq::empty(),
    );
}

proof fn lemma_said_value_is_a_leaf(config: TomlModel, path: Seq<Seq<char>>, value: TomlModel)
    ensures
        said_at(config, path) == Some(Some(value)) <==> leaf_at(config, path) == Some(value),
    decreases path.len(),
{
    if path.len() > 0 {
        if let TomlModel::Table(entries) = config {
            if let Some(nested) = value_of(entries, path[0]) {
                lemma_said_value_is_a_leaf(nested, path.drop_first(), value);
            }
        }
    }
}

/// A document, as a layer, sets a path to a value if and only if the path leads to that value, and
/// it is no table.
pub proof fn law_document_sets_its_leaves(
    document: TomlModel,
    path: Seq<Seq<char>>,
    value: TomlModel,
)
    ensures
        said_at(document, path) == Some(Some(value)) <==> document.at_path(path) == Some(value)
            && !(value is Table),
{
    lemma_said_value_is_a_leaf(document, path, value);
}

/// A flattened document sets a dotted key to a value if and only if the key's pieces lead to that
/// value in the document, and it is no table, where no key of the document holds a dot.
pub proof fn law_flattened_document_sets_its_leaves(
    document: TomlModel,
    key: Seq<char>,
    value: TomlModel,
)
    requires
        document is Table,
        document.well_formed(),
        document.dotless_keys(),
    ensures
        said_by_entries(flattened(document), key) == Some(Some(value)) <==> document.at_path(
            dot_pieces(key),
        ) == Some(value) && !(value is Table),
{
    law_entries_rebuild_the_document(document, flattened(document), dot_pieces(key));
    lemma_said_value_is_a_leaf(built(flattened(document)), dot_pieces(key), value);
}

/// A document is silent on a path: it has nothing there, and no value that is no table on the way
/// there.
pub open spec fn silent_on(config: TomlModel, path: Seq<Seq<char>>) -> bool {
    &&& config.at_path(path) is None
    &&& forall|k: int| 0 <= k <= path.len() ==> leaf_at(config, #[trigger] path.take(k)) is None
}

proof fn lemma_what_is_said(config: TomlModel, path: Seq<Seq<char>>)
    ensures
        said_at(config, path) is None <==> silent_on(config, path),
        said_at(config, path) matches Some(value) ==> value == leaf_at(config, path),
    decreases path.len(),
{
    assert(path.take(0) =~= Seq::empty());
    if path.len() > 0 {
        if let TomlModel::Table(entries) = config {
            let rest = path.drop_first();
            assert forall|k: int| 1 <= k <= path.len() implies #[trigger] config.at_path(
                path.take(k),
            ) == match value_of(entries, path[0]) {
                Some(nested) => nested.at_path(rest.take(k - 1)),
                None => None,
            } by {
                assert(path.take(k)[0] == path[0]);
                assert(path.take(k).drop_first() =~= rest.take(k - 1));
            }
            if let Some(nested) = value_of(entries, path[0]) {
                lemma_what_is_said(nested, rest);
                if silent_on(nested, rest) {
                    assert forall|k: int| 0 <= k <= path.len() implies leaf_at(
                        config,
                        #[trigger] path.take(k),
                    ) is None by {
                        if k > 0 {
                            assert(config.at_path(path.take(k)) == nested.at_path(
                                rest.take(k - 1),
                            ));
                            assert(leaf_at(nested, rest.take(k - 1)) is None);
                        }
                    }
                }
                if silent_on(config, path) {
                    assert forall|k: int| 0 <= k <= rest.len() implies leaf_at(
                        nested,
                        #[trigger] rest.take(k),
                    ) is None by {
                        assert(config.at_path(path.take(k + 1)) == nested.at_path(
                            rest.take(k + 1 - 1),
                        ));
                        assert(leaf_at(config, path.take(k + 1)) is None);
                    }
                }
            } else {
                assert forall|k: int| 0 <= k <= path.len() implies leaf_at(
                    config,
                    #[trigger] path.take(k),
                ) is None by {
                    if k > 0 {
                        assert(config.at_path(path.take(k)) is None);
                    }
                }
            }
        } else {
            assert(leaf_at(config, path.take(0)) is Some);
        }
    } else {
        if !(config is Table) {
            assert(leaf_at(config, path.take(0)) is Some);
        }
        assert(path =~= Seq::empty());
        assert(config.at_path(path) == Some(config));
    }
}

/// A document is silent on a path just if following the path comes to a table that has no entry
/// with the next key.
pub proof fn law_silence_is_a_missing_key(config: TomlModel, path: Seq<Seq<char>>)
    ensures
        silent_on(config, path) <==> exists|k: int|
            0 <= k < path.len() && (#[trigger] config.at_path(path.take(k)) matches Some(
                TomlModel::Table(entries),
            ) && forall|j: int| 0 <= j < entries.len() ==> (#[trigger] entries[j]).0 != path[k]),
    decreases path.len(),
{
    lemma_what_is_said(config, path);
    assert(path.take(0) =~= Seq::empty());
    assert(config.at_path(path.take(0)) == Some(config));
    if path.len() > 0 {
        if let TomlModel::Table(entries) = config {
            law_first_entry_with_the_key_gives_its_value(entries, path[0], 0);
            let rest = path.drop_first();
            assert forall|k: int| 1 <= k <= path.len() implies #[trigger] config.at_path(
                path.take(k),
            ) == match value_of(entries, path[0]) {
                Some(nested) => nested.at_path(rest.take(k - 1)),
                None => None,
            } by {
                assert(path.take(k)[0] == path[0]);
                assert(path.take(k).drop_first() =~= rest.take(k - 1));
            }
            if let Some(nested) = value_of(entries, path[0]) {
                lemma_what_is_said(nested, rest);
                law_silence_is_a_missing_key(nested, rest);
                if silent_on(config, path) {
                    let k = choose|k: int|
                        0 <= k < rest.len() && (#[trigger] nested.at_path(
                            rest.take(k),
                        ) matches Some(TomlModel::Table(found)) && forall|j: int|
                            0 <= j < found.len() ==> (#[trigger] found[j]).0 != rest[k]);
                    assert(config.at_path(path.take(k + 1)) == nested.at_path(
                        rest.take(k + 1 - 1),
                    ));
                    assert(path[k + 1] == rest[k]);
                }
                if exists|k: int|
                    0 <= k < path.len() && (#[trigger] config.at_path(path.take(k)) matches Some(
                        TomlModel::Table(found),
                    ) && forall|j: int|
                        0 <= j < found.len() ==> (#[trigger] found[j]).0 != path[k]) {
                    let k = choose|k: int|
                        0 <= k < path.len() && (#[trigger] config.at_path(
                            path.take(k),
                        ) matches Some(TomlModel::Table(found)) && forall|j: int|
                            0 <= j < found.len() ==> (#[trigger] found[j]).0 != path[k]);
                    if k > 0 {
                        assert(config.at_path(path.take(k)) == nested.at_path(rest.take(k - 1)));
                        assert(path[k] == rest[k - 1]);
                    }
                }
            }
        } else {
            assert forall|k: int| 1 <= k < path.len() implies #[trigger] config.at_path(
                path.take(k),
            ) is None by {}
        }
    }
}

/// The strongest layer that is not silent on a key decides: its leaf under the key is the value
/// that applies, and without such a leaf there is none.
pub proof fn law_strongest_layer_that_speaks_decides(
    layers: Seq<LayerModel>,
    key: Seq<char>,
    i: int,
)
    requires
        0 <= i < layers.len(),
        !silent_on(layers[i].config, dot_pieces(key)),
        forall|j: int|
            i < j < layers.len() ==> silent_on((#[trigger] layers[j]).config, dot_pieces(key)),
    ensures
        effective(layers, key) == leaf_at(layers[i].config, dot_pieces(key)),
{
    lemma_strongest_layer_that_speaks(layers, key, i);
    lemma_what_is_said(layers[i].config, dot_pieces(key));
}

proof fn lemma_strongest_layer_that_speaks(layers: Seq<LayerModel>, key: Seq<char>, i: int)
    requires
        0 <= i < layers.len(),
        !silent_on(layers[i].config, dot_pieces(key)),
        forall|j: int|
            i < j < layers.len() ==> silent_on((#[trigger] layers[j]).config, dot_pieces(key)),
    ensures
        said_by_layers(layers, key) == said_at(layers[i].config, dot_pieces(key)),
    decreases layers.len(),
{
    let last = layers.len() - 1;
    lemma_what_is_said(layers[last].config, dot_pieces(key));
    if i < last {
        let shorter = layers.drop_last();
        assert(silent_on(layers[last].config, dot_pieces(key)));
        assert forall|j: int| i < j < shorter.len() implies silent_on(
            (#[trigger] shorter[j]).config,
            dot_pieces(key),
        ) by {
            assert(shorter[j] == layers[j]);
        }
        assert(shorter[i] == layers[i]);
        lemma_strongest_layer_that_speaks(shorter, key, i);
    }
}

/// A key on which every layer is silent has no value.
pub proof fn law_silent_layers_give_no_value(layers: Seq<LayerModel>, key: Seq<char>)
    requires
        forall|j: int|
            0 <= j < layers.len() ==> silent_on((#[trigger] layers[j]).config, dot_pieces(key)),
    ensures
        effective(layers, key) is None,
{
    lemma_silent_layers_say_nothing(layers, key);
}

proof fn lemma_silent_layers_say_nothing(layers: Seq<LayerModel>, key: Seq<char>)
    requires
        forall|j: int|
            0 <= j < layers.len() ==> silent_on((#[trigger] layers[j]).config, dot_pieces(key)),
    ensures
        said_by_layers(layers, key) is None,
    decreases layers.len(),
{
    if layers.len() > 0 {
        let shorter = layers.drop_last();
        assert(silent_on(layers[layers.len() - 1].config, dot_pieces(key)));
        lemma_what_is_said(layers.last().config, dot_pieces(key));
        assert forall|j: int| 0 <= j < shorter.len() implies silent_on(
            (#[trigger] shorter[j]).config,
            dot_pieces(key),
        ) by {
            assert(shorter[j] == layers[j]);
        }
        lemma_silent_layers_say_nothing(shorter, key);
    }
}

/// The sources in the order of their strength: the server's defaults, the user's config, the
/// session's flags, and what the server enforces. Those between are the local ones.
pub proof fn law_sources_in_the_order_of_their_strength(
    file: String,
    profile: Option<String>,
    source: ConfigLayerSource,
)
    ensures
        ConfigLayerSource::ServerDefaults.rank() < (ConfigLayerSource::User {
            file,
            profile,
        }).rank(),
        (ConfigLayerSource::User { file, profile }).rank()
            < ConfigLayerSource::SessionFlags.rank(),
        ConfigLayerSource::SessionFlags.rank() < ConfigLayerSource::ServerConfig.rank(),
        source.is_local() <==> ConfigLayerSource::ServerDefaults.rank() < source.rank()
            < ConfigLayerSource::ServerConfig.rank(),
        source is User || source is SessionFlags <==> source.is_local(),
{
}

/// A new layer goes in at one place, above all that are not stronger and below all that are.
pub proof fn law_new_layer_goes_above_its_equals(
    lower: Seq<LayerModel>,
    upper: Seq<LayerModel>,
    layer: LayerModel,
)
    requires
        in_order(lower + upper),
        forall|i: int|
            0 <= i < lower.len() ==> (#[trigger] lower[i]).source.rank() <= layer.source.rank(),
        forall|i: int|
            0 <= i < upper.len() ==> (#[trigger] upper[i]).source.rank() > layer.source.rank(),
    ensures
        with_layer(lower + upper, layer) == lower.push(layer) + upper,
{
    let layers = lower + upper;
    let rank = layer.source.rank();
    lemma_insertion_point(layers, rank);
    let at = insertion_point(layers, rank);
    if at < lower.len() {
        assert(layers[at] == lower[at]);
    }
    if at > lower.len() {
        assert(layers[lower.len() as int] == upper[0]);
    }
    assert(with_layer(layers, layer) =~= lower.push(layer) + upper);
}

/// Where the server's layers go: its defaults right below the local layers, above older defaults,
/// and what it enforces on top of everything. Each is the document that its entries build, and is
/// left out if there are none. Nothing else changes.
pub proof fn law_server_layers_enclose_the_local_ones(
    lower: Seq<LayerModel>,
    local: Seq<LayerModel>,
    upper: Seq<LayerModel>,
    overrides: OverridesModel,
)
    requires
        in_order(lower + (local + upper)),
        forall|i: int| 0 <= i < lower.len() ==> (#[trigger] lower[i]).source is ServerDefaults,
        forall|i: int|
            0 <= i < local.len() ==> (#[trigger] local[i]).source is User
                || local[i].source is SessionFlags,
        forall|i: int| 0 <= i < upper.len() ==> (#[trigger] upper[i]).source is ServerConfig,
    ensures
        with_overrides(lower + (local + upper), overrides) == lower + (
        if overrides.defaults.len() == 0 {
            Seq::empty()
        } else {
            seq![
                LayerModel {
                    source: ConfigLayerSource::ServerDefaults,
                    config: built(overrides.defaults),
                },
            ]
        }) + (local + upper) + (if overrides.enforced.len() == 0 {
            Seq::empty()
        } else {
            seq![
                LayerModel {
                    source: ConfigLayerSource::ServerConfig,
                    config: built(overrides.enforced),
                },
            ]
        }),
{
    let layers = lower + (local + upper);
    let rest = local + upper;
    let none = Seq::<LayerModel>::empty();
    let defaults = LayerModel {
        source: ConfigLayerSource::ServerDefaults,
        config: built(overrides.defaults),
    };
    let enforced = LayerModel {
        source: ConfigLayerSource::ServerConfig,
        config: built(overrides.enforced),
    };
    let added = if overrides.defaults.len() == 0 {
        none
    } else {
        seq![defaults]
    };
    let below = with_entries(layers, ConfigLayerSource::ServerDefaults, overrides.defaults);
    assert(below =~= lower + added + rest) by {
        if overrides.defaults.len() > 0 {
            assert forall|i: int| 0 <= i < rest.len() implies (
            #[trigger] rest[i]).source.rank() > 0 by {
                if i < local.len() {
                    assert(rest[i] == local[i]);
                } else {
                    assert(rest[i] == upper[i - local.len()]);
                }
            }
            law_new_layer_goes_above_its_equals(lower, rest, defaults);
            lemma_with_layer_in_order(layers, defaults);
        }
    }
    if overrides.defaults.len() > 0 {
        lemma_with_layer_in_order(layers, defaults);
    }
    if overrides.enforced.len() > 0 {
        assert(below + none =~= below);
        law_new_layer_goes_above_its_equals(below, none, enforced);
        assert(below.push(enforced) + none =~= lower + added + rest + seq![enforced]);
    } else {
        assert(lower + added + rest + none =~= lower + added + rest);
    }
}

/// Where the document of the enforced entries is not silent on a key, its leaf under the key is
/// what applies, whatever the layers and the defaults are.
pub proof fn law_what_is_enforced_applies(
    layers: Seq<LayerModel>,
    overrides: OverridesModel,
    key: Seq<char>,
)
    requires
        in_order(layers),
        !silent_on(built(overrides.enforced), dot_pieces(key)),
    ensures
        effective(with_overrides(layers, overrides), key) == leaf_at(
            built(overrides.enforced),
            dot_pieces(key),
        ),
{
    lemma_what_is_said(built(overrides.enforced), dot_pieces(key));
    law_enforced_entries_outrank_every_layer(layers, overrides, key);
}

/// Where nothing is enforced of a key and a local layer is not silent on it, the value that applies
/// is the one that applies without the server: its defaults change nothing.
pub proof fn law_local_choice_survives_the_defaults(
    layers: Seq<LayerModel>,
    overrides: OverridesModel,
    key: Seq<char>,
    i: int,
)
    requires
        in_order(layers),
        forall|j: int| 0 <= j < layers.len() ==> (#[trigger] layers[j]).source.is_local(),
        silent_on(built(overrides.enforced), dot_pieces(key)),
        0 <= i < layers.len(),
        !silent_on(layers[i].config, dot_pieces(key)),
    ensures
        effective(with_overrides(layers, overrides), key) == effective(layers, key),
{
    lemma_what_is_said(built(overrides.enforced), dot_pieces(key));
    law_local_choice_beats_defaults_only(layers, overrides, key);
    lemma_some_layer_speaks(layers, key, i);
}

proof fn lemma_some_layer_speaks(layers: Seq<LayerModel>, key: Seq<char>, i: int)
    requires
        0 <= i < layers.len(),
        !silent_on(layers[i].config, dot_pieces(key)),
    ensures
        said_by_layers(layers, key) is Some,
    decreases layers.len(),
{
    lemma_what_is_said(layers.last().config, dot_pieces(key));
    if i < layers.len() - 1 {
        assert(layers.drop_last()[i] == layers[i]);
        lemma_some_layer_speaks(layers.drop_last(), key, i);
    }
}

/// The value of the strongest local layer that is not silent on a key applies, whatever the
/// server's defaults are, where nothing is enforced of the key.
pub proof fn law_users_value_applies(
    layers: Seq<LayerModel>,
    overrides: OverridesModel,
    key: Seq<char>,
    i: int,
    value: TomlModel,
)
    requires
        in_order(layers),
        forall|j: int| 0 <= j < layers.len() ==> (#[trigger] layers[j]).source.is_local(),
        silent_on(built(overrides.enforced), dot_pieces(key)),
        0 <= i < layers.len(),
        layers[i].config.at_path(dot_pieces(key)) == Some(value),
        !(value is Table),
        forall|j: int|
            i < j < layers.len() ==> silent_on((#[trigger] layers[j]).config, dot_pieces(key)),
    ensures
        effective(with_overrides(layers, overrides), key) == Some(value),
{
    law_local_choice_survives_the_defaults(layers, overrides, key, i);
    law_strongest_layer_that_speaks_decides(layers, key, i);
}

/// Where nothing is enforced of a key and every local layer is silent on it, the leaf of the
/// server's defaults applies.
pub proof fn law_defaults_apply_where_nobody_else_speaks(
    layers: Seq<LayerModel>,
    overrides: OverridesModel,
    key: Seq<char>,
)
    requires
        in_order(layers),
        forall|j: int| 0 <= j < layers.len() ==> (#[trigger] layers[j]).source.is_local(),
        silent_on(built(overrides.enforced), dot_pieces(key)),
        forall|j: int|
            0 <= j < layers.len() ==> silent_on((#[trigger] layers[j]).config, dot_pieces(key)),
    ensures
        effective(with_overrides(layers, overrides), key) == leaf_at(
            built(overrides.defaults),
            dot_pieces(key),
        ),
{
    lemma_what_is_said(built(overrides.enforced), dot_pieces(key));
    lemma_what_is_said(built(overrides.defaults), dot_pieces(key));
    law_local_choice_beats_defaults_only(layers, overrides, key);
    lemma_silent_layers_say_nothing(layers, key);
}

/// The model of a list of layers has the source and the document of each, in the same order.
pub proof fn law_layers_are_modelled_one_by_one(layers: Seq<ConfigLayerEntry>, i: int)
    requires
        0 <= i < layers.len(),
    ensures
        layers_view(layers).len() == layers.len(),
        layers_view(layers)[i].source == layers[i].source,
        layers_view(layers)[i].config == layers[i].config@,
{
}

} // verus!
