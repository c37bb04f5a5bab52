//! From the server's answer to the overrides that it asks for.
use vstd::prelude::*;

use crate::entries::{
    lemma_first_with_key, lemma_no_such_key, lemma_no_value, lemma_value_of_found,
    lemma_value_of_without_key, position_of, value_of, without_key,
};
use crate::error::AdAgentConfigError;
use crate::flatten::{
    flatten_toml_table, flattened, law_entries_are_the_leaves, law_leaves_are_what_paths_reach,
    law_nested_entries_go_behind_their_key, law_tables_are_flattened_part_by_part, leaves,
};
use crate::text::dotted;
use crate::toml_value::{
    entries_view, lemma_table_view, parse_toml, toml_document, toml_error_text, TomlModel,
    TomlValue,
};

verus! {

/// Name of the top-level table in the server config whose keys are defaults rather than
/// enforced values (see [`ServerConfigOverrides`]).
pub const DEFAULTS_TABLE: &'static str = "defaults";

/// The server config, flattened into dotted entries and split by how strongly each entry applies.
#[derive(Debug, PartialEq)]
pub struct ServerConfigOverrides {
    /// Everything outside `[defaults]`. Enforced: outranks every local config layer.
    pub enforced: Vec<(String, TomlValue)>,
    /// Keys under `[defaults]`, with the table prefix stripped. Used only when the user hasn't
    /// set the key locally (e.g. which model to use until the user picks one).
    pub defaults: Vec<(String, TomlValue)>,
}

/// What a [`ServerConfigOverrides`] holds.
#[verifier::ext_equal]
pub struct OverridesModel {
    pub enforced: Seq<(Seq<char>, TomlModel)>,
    pub defaults: Seq<(Seq<char>, TomlModel)>,
}

impl View for ServerConfigOverrides {
    type V = OverridesModel;

    open spec fn view(&self) -> OverridesModel {
        OverridesModel {
            enforced: entries_view(self.enforced@),
            defaults: entries_view(self.defaults@),
        }
    }
}

impl Default for ServerConfigOverrides {
    /// No overrides.
    fn default() -> (overrides: Self)
        ensures
            overrides@ == (OverridesModel { enforced: Seq::empty(), defaults: Seq::empty() }),
    {
        let overrides = ServerConfigOverrides { enforced: Vec::new(), defaults: Vec::new() };
        proof {
            assert(entries_view(overrides.enforced@) =~= Seq::empty());
            assert(entries_view(overrides.defaults@) =~= Seq::empty());
        }
        overrides
    }
}

/// The overrides in a server config, or why it is refused: the entries outside `[defaults]` are
/// enforced, those inside are defaults, and `defaults` can only be a table.
pub open spec fn overrides_in(document: Seq<(Seq<char>, TomlModel)>) -> Result<
    OverridesModel,
    Seq<char>,
> {
    let enforced = flattened(TomlModel::Table(without_key(document, DEFAULTS_TABLE@)));
    match value_of(document, DEFAULTS_TABLE@) {
        None => Ok(OverridesModel { enforced, defaults: Seq::empty() }),
        Some(TomlModel::Table(table)) => Ok(
            OverridesModel { enforced, defaults: flattened(TomlModel::Table(table)) },
        ),
        Some(_) => Err("`defaults` in server config must be a table"@),
    }
}

/// The overrides in the text of a server config, or why it is refused.
pub open spec fn overrides_in_text(text: Seq<char>) -> Result<OverridesModel, Seq<char>> {
    match toml_document(text) {
        Ok(document) => overrides_in(document),
        Err(err) => Err(toml_error_text(err)),
    }
}

/// A result that says what `model` says; a refusal is passed on as unavailable config.
pub open spec fn says(
    result: Result<ServerConfigOverrides, AdAgentConfigError>,
    model: Result<OverridesModel, Seq<char>>,
) -> bool {
    match model {
        Ok(overrides) => result matches Ok(found) && found@ == overrides,
        Err(reason) => result matches Err(AdAgentConfigError::Unavailable(message)) && message@
            == reason,
    }
}

/// Splits a server config into enforced entries and defaults.
pub fn split_server_config(document: Vec<(String, TomlValue)>) -> (result: Result<
    ServerConfigOverrides,
    AdAgentConfigError,
>)
    ensures
        says(result, overrides_in(entries_view(document@))),
        match result {
            Ok(overrides) => overrides_in(entries_view(document@)) == Ok::<
                OverridesModel,
                Seq<char>,
            >(
                OverridesModel {
                    enforced: entries_view(overrides.enforced@),
                    defaults: entries_view(overrides.defaults@),
                },
            ),
            Err(err) => err matches AdAgentConfigError::Unavailable(reason) && overrides_in(
                entries_view(document@),
            ) == Err::<OverridesModel, Seq<char>>(reason@),
        },
{
    let mut document = document;
    let ghost whole = entries_view(document@);
    let found = position_of(&document, DEFAULTS_TABLE);
    let defaults = match found {
        None => {
            proof {
                assert forall|j: int| 0 <= j < whole.len() implies (#[trigger] whole[j]).0
                    != DEFAULTS_TABLE@ by {
                    assert(whole[j].0 == document@[j].0@);
                }
                lemma_no_such_key(whole, DEFAULTS_TABLE@);
            }
            Vec::new()
        },
        Some(at) => {
            proof {
                assert forall|j: int| 0 <= j < at implies (#[trigger] whole[j]).0
                    != DEFAULTS_TABLE@ by {
                    assert(whole[j].0 == document@[j].0@);
                }
                lemma_first_with_key(whole, DEFAULTS_TABLE@, at as int);
            }
            let (_, defaults) = document.remove(at);
            proof {
                assert(entries_view(document@) =~= whole.remove(at as int));
            }
            match defaults {
                TomlValue::Table(table) => {
                    proof {
                        lemma_table_view(table);
                    }
                    flatten_toml_table(&TomlValue::Table(table))
                },
                _ => {
                    return Err(
                        AdAgentConfigError::Unavailable(
                            "`defaults` in server config must be a table".to_owned(),
                        ),
                    );
                },
            }
        },
    };
    proof {
        lemma_table_view(document);
        assert(entries_view(Seq::<(String, TomlValue)>::empty()) =~= Seq::empty());
    }
    Ok(
        ServerConfigOverrides {
            enforced: flatten_toml_table(&TomlValue::Table(document)),
            defaults,
        },
    )
}

/// Reads the overrides out of the body of the server's answer.
pub fn overrides_from_body(body: &str) -> (result: Result<
    ServerConfigOverrides,
    AdAgentConfigError,
>)
    ensures
        says(result, overrides_in_text(body@)),
        match result {
            Ok(overrides) => toml_document(body@) matches Ok(document) && overrides_in(document)
                == Ok::<OverridesModel, Seq<char>>(
                OverridesModel {
                    enforced: entries_view(overrides.enforced@),
                    defaults: entries_view(overrides.defaults@),
                },
            ),
            Err(AdAgentConfigError::Unavailable(reason)) => match toml_document(body@) {
                Ok(document) => overrides_in(document) == Err::<OverridesModel, Seq<char>>(
                    reason@,
                ),
                Err(err) => reason@ == toml_error_text(err),
            },
            Err(AdAgentConfigError::NotLoggedIn) => false,
        },
{
    match parse_toml(body) {
        Ok(document) => split_server_config(document),
        Err(message) => Err(AdAgentConfigError::Unavailable(message)),
    }
}

/// Where the model config is fetched from, unless the environment says otherwise.
pub const DEFAULT_CONFIG_ENDPOINT: &'static str = "https://quchenyang.com/agent/config";

/// The environment variable that says where to fetch the model config from.
pub const OVERRIDE_ENV: &'static str = "AD_AGENT_CONFIG_URL";

/// Where to fetch the model config from, given what [`OVERRIDE_ENV`] is set to, if it is.
pub fn config_endpoint(override_url: Option<String>) -> (url: String)
    ensures
        url@ == match override_url {
            Some(given) => given@,
            None => DEFAULT_CONFIG_ENDPOINT@,
        },
        override_url is None ==> url@ == "https://quchenyang.com/agent/config"@,
{
    match override_url {
        Some(given) => given,
        None => DEFAULT_CONFIG_ENDPOINT.to_owned(),
    }
}

/// What happened when an action of the fetch was taken.
#[derive(Debug)]
pub enum FetchEvent {
    /// Whether there is a login to take a token from.
    Auth { present: bool },
    /// The login's access token, if it can be read.
    Token(Option<String>),
    /// The status code of the server's response, or why there is none.
    Response(Result<u16, String>),
    /// Whether the response's status is a success, or else the complaint about it.
    StatusCheck(Result<(), String>),
    /// The response's body, or why it cannot be read.
    Body(Result<String, String>),
}

/// What to do next in a fetch. The first thing to do is to look for a login.
#[derive(Debug)]
pub enum FetchAction {
    /// Read the access token of the login.
    ReadToken,
    /// Send a GET request to the URL, with the token as its bearer authorization.
    Send { url: String, bearer_token: String },
    /// See whether the response's status is a success.
    CheckStatus,
    /// Read the response's body.
    ReadBody,
    /// The fetch has come to this.
    Finish(Result<ServerConfigOverrides, AdAgentConfigError>),
}

impl FetchEvent {
    /// How far the fetch has come with this event.
    pub open spec fn stage(&self) -> nat {
        match self {
            FetchEvent::Auth { .. } => 0,
            FetchEvent::Token(_) => 1,
            FetchEvent::Response(_) => 2,
            FetchEvent::StatusCheck(_) => 3,
            FetchEvent::Body(_) => 4,
        }
    }
}

impl FetchAction {
    /// How far the fetch has come when this action is taken.
    pub open spec fn stage(&self) -> nat {
        match self {
            FetchAction::ReadToken => 1,
            FetchAction::Send { .. } => 2,
            FetchAction::CheckStatus => 3,
            FetchAction::ReadBody => 4,
            FetchAction::Finish(_) => 5,
        }
    }
}

/// The fetch ends without a login.
pub open spec fn ends_not_logged_in(action: FetchAction) -> bool {
    action == FetchAction::Finish(Err(AdAgentConfigError::NotLoggedIn))
}

/// The fetch ends without a config, for this reason.
pub open spec fn ends_unavailable(action: FetchAction, reason: Seq<char>) -> bool {
    action matches FetchAction::Finish(Err(AdAgentConfigError::Unavailable(message))) && message@
        == reason
}

/// What the fetch from `url` does after `event`.
pub open spec fn follows(url: Seq<char>, event: FetchEvent, action: FetchAction) -> bool {
    match event {
        FetchEvent::Auth { present: false } => ends_not_logged_in(action),
        FetchEvent::Auth { present: true } => action == FetchAction::ReadToken,
        FetchEvent::Token(None) => ends_not_logged_in(action),
        FetchEvent::Token(Some(token)) => action matches FetchAction::Send {
            url: to,
            bearer_token,
        } && to@ == url && bearer_token@ == token@,
        FetchEvent::Response(Err(reason)) => ends_unavailable(action, reason@),
        FetchEvent::Response(Ok(status)) => if status == 401 {
            ends_not_logged_in(action)
        } else {
            action == FetchAction::CheckStatus
        },
        FetchEvent::StatusCheck(Err(reason)) => ends_unavailable(action, reason@),
        FetchEvent::StatusCheck(Ok(())) => action == FetchAction::ReadBody,
        FetchEvent::Body(Err(reason)) => ends_unavailable(action, reason@),
        FetchEvent::Body(Ok(body)) => action matches FetchAction::Finish(result) && says(
            result,
            overrides_in_text(body@),
        ),
    }
}

/// Decides what the fetch from `url` does next.
///
/// A missing login, an unreadable token and the status 401 all mean that the user is not logged
/// in. Whatever else goes wrong makes the config unavailable. Nothing is tried twice.
pub fn next_fetch_action(url: &str, event: FetchEvent) -> (action: FetchAction)
    ensures
        follows(url@, event, action),
{
    match event {
        FetchEvent::Auth { present } => {
            if present {
                FetchAction::ReadToken
            } else {
                FetchAction::Finish(Err(AdAgentConfigError::NotLoggedIn))
            }
        },
        FetchEvent::Token(None) => FetchAction::Finish(Err(AdAgentConfigError::NotLoggedIn)),
        FetchEvent::Token(Some(token)) => FetchAction::Send {
            url: url.to_owned(),
            bearer_token: token,
        },
        FetchEvent::Response(Err(reason)) => FetchAction::Finish(
            Err(AdAgentConfigError::Unavailable(reason)),
        ),
        FetchEvent::Response(Ok(status)) => {
            if status == 401 {
                FetchAction::Finish(Err(AdAgentConfigError::NotLoggedIn))
            } else {
                FetchAction::CheckStatus
            }
        },
        FetchEvent::StatusCheck(Err(reason)) => FetchAction::Finish(
            Err(AdAgentConfigError::Unavailable(reason)),
        ),
        FetchEvent::StatusCheck(Ok(())) => FetchAction::ReadBody,
        FetchEvent::Body(Err(reason)) => FetchAction::Finish(
            Err(AdAgentConfigError::Unavailable(reason)),
        ),
        FetchEvent::Body(Ok(body)) => FetchAction::Finish(overrides_from_body(body.as_str())),
    }
}

/// A fetch only goes forward: what follows an event comes later than the event, so that nothing
/// is done a second time and the fetch ends.
pub proof fn law_fetch_goes_forward(url: Seq<char>, event: FetchEvent, action: FetchAction)
    requires
        follows(url, event, action),
    ensures
        event.stage() < action.stage(),
        action.stage() == 5 || action.stage() == event.stage() + 1,
{
}

/// A fetch ends with overrides only on a body that it could read, and those are the ones that
/// the body holds.
pub proof fn law_overrides_come_from_the_body(
    url: Seq<char>,
    event: FetchEvent,
    overrides: ServerConfigOverrides,
)
    requires
        follows(url, event, FetchAction::Finish(Ok(overrides))),
    ensures
        event matches FetchEvent::Body(Ok(body)) && overrides_in_text(body@) == Ok::<
            OverridesModel,
            Seq<char>,
        >(overrides@),
{
}

/// `events` and `actions` are a fetch from `url`, up to some point: it starts with the look for a
/// login, each action follows its event, and each event but the first is what came of the action
/// before it.
pub open spec fn is_fetch(
    url: Seq<char>,
    events: Seq<FetchEvent>,
    actions: Seq<FetchAction>,
) -> bool {
    &&& events.len() == actions.len()
    &&& events.len() > 0
    &&& events[0] is Auth
    &&& forall|i: int| 0 <= i < events.len() ==> #[trigger] follows(url, events[i], actions[i])
    &&& forall|i: int|
        0 < i < events.len() ==> (#[trigger] events[i]).stage() == actions[i - 1].stage()
}

proof fn lemma_fetch_in_step(
    url: Seq<char>,
    events: Seq<FetchEvent>,
    actions: Seq<FetchAction>,
    i: int,
)
    requires
        is_fetch(url, events, actions),
        0 <= i < events.len(),
    ensures
        events[i].stage() == i,
    decreases i,
{
    assert(follows(url, events[i], actions[i]));
    if i > 0 {
        lemma_fetch_in_step(url, events, actions, i - 1);
        assert(follows(url, events[i - 1], actions[i - 1]));
        law_fetch_goes_forward(url, events[i - 1], actions[i - 1]);
    }
}

/// A fetch takes five steps at most.
pub proof fn law_fetch_is_short(
    url: Seq<char>,
    events: Seq<FetchEvent>,
    actions: Seq<FetchAction>,
)
    requires
        is_fetch(url, events, actions),
    ensures
        events.len() <= 5,
{
    lemma_fetch_in_step(url, events, actions, events.len() - 1);
}

/// A fetch sends one request at most.
pub proof fn law_fetch_sends_once(
    url: Seq<char>,
    events: Seq<FetchEvent>,
    actions: Seq<FetchAction>,
    i: int,
    j: int,
)
    requires
        is_fetch(url, events, actions),
        0 <= i < actions.len() && actions[i] is Send,
        0 <= j < actions.len() && actions[j] is Send,
    ensures
        i == j,
{
    lemma_fetch_in_step(url, events, actions, i);
    lemma_fetch_in_step(url, events, actions, j);
    assert(follows(url, events[i], actions[i]));
    assert(follows(url, events[j], actions[j]));
}

/// A fetch that ends with overrides had a login with a token, sent that token to `url`, got a
/// response other than 401 whose status was a success, and read the overrides from its body.
pub proof fn law_successful_fetch(
    url: Seq<char>,
    events: Seq<FetchEvent>,
    actions: Seq<FetchAction>,
    overrides: ServerConfigOverrides,
)
    requires
        is_fetch(url, events, actions),
        actions.last() == FetchAction::Finish(Ok(overrides)),
    ensures
        events.len() == 5,
        events[0] == (FetchEvent::Auth { present: true }),
        events[1] matches FetchEvent::Token(Some(token)) && actions[1] matches FetchAction::Send {
            url: to,
            bearer_token,
        } && to@ == url && bearer_token@ == token@,
        events[2] matches FetchEvent::Response(Ok(status)) && status != 401,
        events[3] == FetchEvent::StatusCheck(Ok(())),
        events[4] matches FetchEvent::Body(Ok(body)) && overrides_in_text(body@) == Ok::<
            OverridesModel,
            Seq<char>,
        >(overrides@),
{
    let last = events.len() - 1;
    assert(follows(url, events[last], actions[last]));
    law_overrides_come_from_the_body(url, events[last], overrides);
    lemma_fetch_in_step(url, events, actions, last);
    assert forall|i: int| 0 <= i < 4 implies (#[trigger] events[i]).stage() == i
        && actions[i].stage() == i + 1 && follows(url, events[i], actions[i]) by {
        lemma_fetch_in_step(url, events, actions, i);
        assert(follows(url, events[i], actions[i]));
        lemma_fetch_in_step(url, events, actions, i + 1);
        assert(events[i + 1].stage() == actions[i].stage());
    }
    assert(events[0].stage() == 0);
    assert(events[1].stage() == 1);
    assert(events[2].stage() == 2);
    assert(events[3].stage() == 3);
    if let FetchEvent::StatusCheck(Ok(nothing)) = events[3] {
        assert(nothing == ());
    }
}

proof fn lemma_without_key_well_formed(entries: Seq<(Seq<char>, TomlModel)>, key: Seq<char>)
    requires
        TomlModel::Table(entries).well_formed(),
    ensures
        TomlModel::Table(without_key(entries, key)).well_formed(),
{
    if value_of(entries, key) is Some {
        let at = lemma_value_of_found(entries, key);
        lemma_first_with_key(entries, key, at);
        let kept = entries.remove(at);
        assert forall|i: int| 0 <= i < kept.len() implies (#[trigger] kept[i]).1.well_formed() by {
            let j = if i < at { i } else { i + 1 };
            assert(kept[i] == entries[j]);
        }
        assert forall|i: int, j: int| 0 <= i < j < kept.len() implies kept[i].0 != kept[j].0 by {
            let a = if i < at { i } else { i + 1 };
            let b = if j < at { j } else { j + 1 };
            assert(kept[i] == entries[a] && kept[j] == entries[b]);
        }
    } else {
        assert forall|j: int| 0 <= j < entries.len() implies (#[trigger] entries[j]).0 != key by {
            lemma_no_value(entries, key, j);
        }
        lemma_no_such_key(entries, key);
    }
}

/// A leaf of a server config outside `[defaults]` is a leaf of what is enforced, under the same
/// path, and nothing else is.
pub proof fn law_enforced_is_all_but_defaults(
    document: Seq<(Seq<char>, TomlModel)>,
    path: Seq<Seq<char>>,
    value: TomlModel,
)
    requires
        TomlModel::Table(document).well_formed(),
    ensures
        leaves(TomlModel::Table(without_key(document, DEFAULTS_TABLE@)), Seq::empty()).contains(
            (path, value),
        ) <==> leaves(TomlModel::Table(document), Seq::empty()).contains((path, value)) && path[0]
            != DEFAULTS_TABLE@,
{
    let whole = TomlModel::Table(document);
    let kept = TomlModel::Table(without_key(document, DEFAULTS_TABLE@));
    lemma_without_key_well_formed(document, DEFAULTS_TABLE@);
    law_leaves_are_what_paths_reach(whole, path, value);
    law_leaves_are_what_paths_reach(kept, path, value);
    if path.len() > 0 {
        lemma_value_of_without_key(document, DEFAULTS_TABLE@, path[0]);
    }
}

/// A leaf of a server config inside `[defaults]` is a leaf of the defaults, under its path without
/// the table's name, and nothing else is.
pub proof fn law_defaults_lose_the_prefix(
    document: Seq<(Seq<char>, TomlModel)>,
    path: Seq<Seq<char>>,
    value: TomlModel,
)
    requires
        TomlModel::Table(document).well_formed(),
        value_of(document, DEFAULTS_TABLE@) is Some,
    ensures
        leaves(value_of(document, DEFAULTS_TABLE@)->0, Seq::empty()).contains((path, value))
            <==> leaves(TomlModel::Table(document), Seq::empty()).contains(
            (seq![DEFAULTS_TABLE@] + path, value),
        ),
{
    let whole = TomlModel::Table(document);
    let defaults = value_of(document, DEFAULTS_TABLE@)->0;
    let at = lemma_value_of_found(document, DEFAULTS_TABLE@);
    assert(document[at].1 == defaults);
    let long = seq![DEFAULTS_TABLE@] + path;
    law_leaves_are_what_paths_reach(whole, long, value);
    law_leaves_are_what_paths_reach(defaults, path, value);
    assert(long.drop_first() =~= path);
}

/// A server config without the key `defaults` is enforced as a whole.
pub proof fn law_config_without_defaults_is_enforced(document: Seq<(Seq<char>, TomlModel)>)
    requires
        forall|j: int| 0 <= j < document.len() ==> (#[trigger] document[j]).0 != "defaults"@,
    ensures
        overrides_in(document) == Ok::<OverridesModel, Seq<char>>(
            OverridesModel {
                enforced: flattened(TomlModel::Table(document)),
                defaults: Seq::empty(),
            },
        ),
{
    lemma_no_such_key(document, "defaults"@);
}

/// A table under the first key `defaults` of a server config is the defaults, and what stands
/// before and after it is enforced. Anything else under that key is refused.
pub proof fn law_config_is_split_at_its_defaults(
    before: Seq<(Seq<char>, TomlModel)>,
    defaults: TomlModel,
    after: Seq<(Seq<char>, TomlModel)>,
)
    requires
        forall|j: int| 0 <= j < before.len() ==> (#[trigger] before[j]).0 != "defaults"@,
    ensures
        defaults is Table ==> overrides_in(before + seq![("defaults"@, defaults)] + after) == Ok::<
            OverridesModel,
            Seq<char>,
        >(
            OverridesModel {
                enforced: flattened(TomlModel::Table(before)) + flattened(
                    TomlModel::Table(after),
                ),
                defaults: flattened(defaults),
            },
        ),
        !(defaults is Table) ==> overrides_in(before + seq![("defaults"@, defaults)] + after)
            == Err::<OverridesModel, Seq<char>>("`defaults` in server config must be a table"@),
{
    let document = before + seq![("defaults"@, defaults)] + after;
    let at = before.len() as int;
    assert forall|j: int| 0 <= j < at implies (#[trigger] document[j]).0 != "defaults"@ by {
        assert(document[j] == before[j]);
    }
    assert(document[at] == ("defaults"@, defaults));
    lemma_first_with_key(document, "defaults"@, at);
    assert(document.remove(at) =~= before + after);
    law_tables_are_flattened_part_by_part(before, after);
}

/// Of a server config whose `defaults` is missing or a table, an entry is enforced if and only if
/// it is a leaf of the config, under its path with dots, whose path does not start with `defaults`.
pub proof fn law_enforced_entries_are_the_leaves_outside_defaults(
    document: Seq<(Seq<char>, TomlModel)>,
    key: Seq<char>,
    value: TomlModel,
)
    requires
        TomlModel::Table(document).well_formed(),
        TomlModel::Table(document).at_path(seq!["defaults"@]) matches Some(found)
            ==> found is Table,
    ensures
        overrides_in(document) matches Ok(overrides) && (overrides.enforced.contains((key, value))
            <==> exists|path: Seq<Seq<char>>|
            #[trigger] TomlModel::Table(document).at_path(path) == Some(value) && !(value is Table)
                && dotted(path) == key && path[0] != "defaults"@),
{
    let whole = TomlModel::Table(document);
    let kept = TomlModel::Table(without_key(document, "defaults"@));
    lemma_defaults_under_their_key(document);
    lemma_without_key_well_formed(document, "defaults"@);
    law_entries_are_the_leaves(kept, key, value);
    assert forall|path: Seq<Seq<char>>|
        !(value is Table) implies (#[trigger] kept.at_path(path) == Some(value) <==> whole.at_path(
        path,
    ) == Some(value) && path[0] != "defaults"@) by {
        law_leaves_are_what_paths_reach(kept, path, value);
        law_leaves_are_what_paths_reach(whole, path, value);
        law_enforced_is_all_but_defaults(document, path, value);
    }
    let enforced = flattened(kept);
    if enforced.contains((key, value)) {
        let path = choose|path: Seq<Seq<char>>|
            #[trigger] kept.at_path(path) == Some(value) && !(value is Table) && dotted(path)
                == key;
        assert(whole.at_path(path) == Some(value) && path[0] != "defaults"@);
    }
    if exists|path: Seq<Seq<char>>|
        #[trigger] whole.at_path(path) == Some(value) && !(value is Table) && dotted(path) == key
            && path[0] != "defaults"@ {
        let path = choose|path: Seq<Seq<char>>|
            #[trigger] whole.at_path(path) == Some(value) && !(value is Table) && dotted(path)
                == key && path[0] != "defaults"@;
        assert(kept.at_path(path) == Some(value));
    }
}

/// Of a server config whose `defaults` is missing or a table, an entry is a default if and only if
/// its path behind `defaults` leads to a leaf of the config, which is its value.
pub proof fn law_defaults_are_the_leaves_inside_defaults(
    document: Seq<(Seq<char>, TomlModel)>,
    key: Seq<char>,
    value: TomlModel,
)
    requires
        TomlModel::Table(document).well_formed(),
        TomlModel::Table(document).at_path(seq!["defaults"@]) matches Some(found)
            ==> found is Table,
    ensures
        overrides_in(document) matches Ok(overrides) && (overrides.defaults.contains((key, value))
            <==> exists|path: Seq<Seq<char>>|
            TomlModel::Table(document).at_path(#[trigger] (seq!["defaults"@] + path)) == Some(value)
                && !(value is Table) && dotted(path) == key),
{
    let whole = TomlModel::Table(document);
    lemma_defaults_under_their_key(document);
    assert forall|path: Seq<Seq<char>>| whole.at_path(
        #[trigger] (seq!["defaults"@] + path),
    ) == match value_of(document, "defaults"@) {
        Some(defaults) => defaults.at_path(path),
        None => None,
    } by {
        assert((seq!["defaults"@] + path).drop_first() =~= path);
    }
    if let Some(defaults) = value_of(document, "defaults"@) {
        let at = lemma_value_of_found(document, "defaults"@);
        assert(document[at].1 == defaults);
        law_entries_are_the_leaves(defaults, key, value);
        let entries = flattened(defaults);
        if entries.contains((key, value)) {
            let path = choose|path: Seq<Seq<char>>|
                #[trigger] defaults.at_path(path) == Some(value) && !(value is Table) && dotted(
                    path,
                ) == key;
            assert(whole.at_path(seq!["defaults"@] + path) == Some(value));
        }
        if exists|path: Seq<Seq<char>>|
            whole.at_path(#[trigger] (seq!["defaults"@] + path)) == Some(value) && !(
            value is Table) && dotted(path) == key {
            let path = choose|path: Seq<Seq<char>>|
                whole.at_path(#[trigger] (seq!["defaults"@] + path)) == Some(value) && !(
                value is Table) && dotted(path) == key;
            assert(defaults.at_path(path) == Some(value));
        }
    }
}

proof fn lemma_defaults_under_their_key(document: Seq<(Seq<char>, TomlModel)>)
    ensures
        TomlModel::Table(document).at_path(seq!["defaults"@]) == value_of(document, "defaults"@),
{
    let path = seq!["defaults"@];
    assert(path.drop_first() =~= Seq::empty());
    if let Some(defaults) = value_of(document, "defaults"@) {
        assert(defaults.at_path(path.drop_first()) == Some(defaults));
    }
}

/// Every leaf of a server config is either enforced or a default: together they are as many as the
/// entries of the whole config.
pub proof fn law_no_entry_is_lost_or_doubled(
    document: Seq<(Seq<char>, TomlModel)>,
    overrides: OverridesModel,
)
    requires
        overrides_in(document) == Ok::<OverridesModel, Seq<char>>(overrides),
    ensures
        overrides.enforced.len() + overrides.defaults.len() == flattened(
            TomlModel::Table(document),
        ).len(),
{
    if value_of(document, "defaults"@) is Some {
        let at = lemma_value_of_found(document, "defaults"@);
        let before = document.take(at);
        let middle = seq![document[at]];
        let after = document.skip(at + 1);
        assert(document =~= before + middle + after);
        assert forall|j: int| 0 <= j < before.len() implies (#[trigger] before[j]).0
            != "defaults"@ by {
            assert(before[j] == document[j]);
        }
        assert(middle =~= seq![("defaults"@, document[at].1)]);
        law_config_is_split_at_its_defaults(before, document[at].1, after);
        law_tables_are_flattened_part_by_part(before + middle, after);
        law_tables_are_flattened_part_by_part(before, middle);
        law_nested_entries_go_behind_their_key("defaults"@, document[at].1);
    } else {
        assert forall|j: int| 0 <= j < document.len() implies (#[trigger] document[j]).0
            != "defaults"@ by {
            lemma_no_value(document, "defaults"@, j);
        }
        law_config_without_defaults_is_enforced(document);
    }
}

/// The overrides in a text are those in the document that it parses to; a text that does not parse
/// is refused with the parser's message.
pub proof fn law_text_is_parsed_first(text: Seq<char>)
    ensures
        match toml_document(text) {
            Ok(document) => overrides_in_text(text) == overrides_in(document),
            Err(err) => overrides_in_text(text) == Err::<OverridesModel, Seq<char>>(
                toml_error_text(err),
            ),
        },
{
}

/// A result that says what a model says has its entries, or its refusal as the reason why the
/// config is unavailable.
pub proof fn law_results_say_no_more_and_no_less(
    result: Result<ServerConfigOverrides, AdAgentConfigError>,
    model: Result<OverridesModel, Seq<char>>,
)
    requires
        says(result, model),
    ensures
        match result {
            Ok(overrides) => model == Ok::<OverridesModel, Seq<char>>(
                OverridesModel {
                    enforced: entries_view(overrides.enforced@),
                    defaults: entries_view(overrides.defaults@),
                },
            ),
            Err(AdAgentConfigError::Unavailable(reason)) => model == Err::<
                OverridesModel,
                Seq<char>,
            >(reason@),
            Err(AdAgentConfigError::NotLoggedIn) => false,
        },
{
}

/// What follows each event. Without a login, without a token and on the status 401 the fetch ends
/// as not logged in. A failed request, a status that is no success and a body that cannot be read
/// end it as unavailable, with the reason given. Otherwise the next action is taken; the request
/// goes to the fetch's URL with the login's token; and the body decides the outcome.
pub proof fn law_what_follows_each_event(url: Seq<char>, event: FetchEvent, action: FetchAction)
    requires
        follows(url, event, action),
    ensures
        match event {
            FetchEvent::Auth { present } => action == if present {
                FetchAction::ReadToken
            } else {
                FetchAction::Finish(Err(AdAgentConfigError::NotLoggedIn))
            },
            FetchEvent::Token(None) => action == FetchAction::Finish(
                Err(AdAgentConfigError::NotLoggedIn),
            ),
            FetchEvent::Token(Some(token)) => action matches FetchAction::Send {
                url: to,
                bearer_token,
            } && to@ == url && bearer_token@ == token@,
            FetchEvent::Response(Ok(status)) => action == if status == 401 {
                FetchAction::Finish(Err(AdAgentConfigError::NotLoggedIn))
            } else {
                FetchAction::CheckStatus
            },
            FetchEvent::StatusCheck(Ok(_)) => action == FetchAction::ReadBody,
            FetchEvent::Response(Err(reason))
            | FetchEvent::StatusCheck(Err(reason))
            | FetchEvent::Body(Err(reason)) => action matches FetchAction::Finish(
                Err(AdAgentConfigError::Unavailable(message)),
            ) && message@ == reason@,
            FetchEvent::Body(Ok(body)) => match action {
                FetchAction::Finish(Ok(overrides)) => overrides_in_text(body@) == Ok::<
                    OverridesModel,
                    Seq<char>,
                >(
                    OverridesModel {
                        enforced: entries_view(overrides.enforced@),
                        defaults: entries_view(overrides.defaults@),
                    },
                ),
                FetchAction::Finish(Err(AdAgentConfigError::Unavailable(message))) =>
                    overrides_in_text(body@) == Err::<OverridesModel, Seq<char>>(message@),
                _ => false,
            },
        },
{
}

/// The model of overrides has the entries of each part under that part's name.
pub proof fn law_model_holds_what_the_overrides_hold(overrides: ServerConfigOverrides)
    ensures
        overrides@.enforced == entries_view(overrides.enforced@),
        overrides@.defaults == entries_view(overrides.defaults@),
{
}

} // verus!
