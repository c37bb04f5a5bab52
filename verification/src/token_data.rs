//! What the tokens of a login say.
use vstd::prelude::*;

use crate::entries::value_of;
use crate::json::JsonModel;
use crate::jwt::{decode_jwt_payload, payload_bytes, payload_json, read_with, IdTokenInfoError};
use crate::text::{
    clean, dot_pieces, is_clean, law_clean_texts_are_those_that_trimming_keeps, same_text,
    split_dots, texts, trimmed,
};

verus! {

/// The namespace of the account claims.
pub const AUTH_NAMESPACE: &'static str = "https://api.openai.com/auth";

/// The namespace of the profile claims.
pub const PROFILE_NAMESPACE: &'static str = "https://api.openai.com/profile";

/// A subscription plan that is known by name.
#[derive(Debug, Clone, PartialEq, Eq)]
pub struct KnownPlan {
    /// How the plan is shown to the user.
    pub display_name: String,
    /// How the plan is written in a token.
    pub raw_value: String,
    /// Whether accounts on this plan belong to a workspace.
    pub workspace_account: bool,
}

/// The subscription plan in a token.
#[derive(Debug, Clone, PartialEq, Eq)]
pub enum PlanType {
    Known(KnownPlan),
    Unknown(String),
}

/// What a [`PlanType`] holds.
pub enum PlanModel {
    Known { display_name: Seq<char>, raw_value: Seq<char>, workspace_account: bool },
    Unknown(Seq<char>),
}

impl View for PlanType {
    type V = PlanModel;

    open spec fn view(&self) -> PlanModel {
        match self {
            PlanType::Known(plan) => PlanModel::Known {
                display_name: plan.display_name@,
                raw_value: plan.raw_value@,
                workspace_account: plan.workspace_account,
            },
            PlanType::Unknown(raw) => PlanModel::Unknown(raw@),
        }
    }
}

/// The tokens of a login.
#[derive(Clone, Debug, PartialEq, Default)]
pub struct TokenData {
    /// Flat info parsed from the ID token.
    pub id_token: IdTokenInfo,
    /// This is a JWT.
    pub access_token: String,
    pub refresh_token: String,
    pub account_id: Option<String>,
}

/// Flat subset of useful claims in an ID token.
#[derive(Debug, Clone, PartialEq, Eq, Default)]
pub struct IdTokenInfo {
    pub email: Option<String>,
    /// The ChatGPT subscription plan type
    /// (e.g., "free", "plus", "pro", "business", "enterprise", "edu").
    /// (Note: values may vary by backend.)
    pub chatgpt_plan_type: Option<PlanType>,
    /// ChatGPT user identifier associated with the token, if present.
    pub chatgpt_user_id: Option<String>,
    /// Organization/workspace identifier associated with the token, if present.
    pub chatgpt_account_id: Option<String>,
    /// Whether the selected ChatGPT workspace must route through the FedRAMP edge.
    pub chatgpt_account_is_fedramp: bool,
    pub raw_jwt: String,
}

impl IdTokenInfo {
    /// The plan as it is shown to the user, if the token names one.
    pub fn get_chatgpt_plan_type(&self) -> (name: Option<String>)
        ensures
            match self.chatgpt_plan_type {
                Some(PlanType::Known(plan)) => name matches Some(text) && text@
                    == plan.display_name@,
                Some(PlanType::Unknown(raw)) => name matches Some(text) && text@ == raw@,
                None => name is None,
            },
    {
        match &self.chatgpt_plan_type {
            Some(PlanType::Known(plan)) => Some(plan.display_name.clone()),
            Some(PlanType::Unknown(raw)) => Some(raw.clone()),
            None => None,
        }
    }

    /// The plan as the token writes it, if the token names one.
    pub fn get_chatgpt_plan_type_raw(&self) -> (raw: Option<String>)
        ensures
            match self.chatgpt_plan_type {
                Some(PlanType::Known(plan)) => raw matches Some(text) && text@ == plan.raw_value@,
                Some(PlanType::Unknown(written)) => raw matches Some(text) && text@ == written@,
                None => raw is None,
            },
    {
        match &self.chatgpt_plan_type {
            Some(PlanType::Known(plan)) => Some(plan.raw_value.clone()),
            Some(PlanType::Unknown(written)) => Some(written.clone()),
            None => None,
        }
    }

    /// Whether the account belongs to a workspace. Of a plan that is not known, nothing is.
    pub fn is_workspace_account(&self) -> (is: bool)
        ensures
            is == (self.chatgpt_plan_type matches Some(PlanType::Known(plan))
                && plan.workspace_account),
    {
        match &self.chatgpt_plan_type {
            Some(PlanType::Known(plan)) => plan.workspace_account,
            _ => false,
        }
    }

    /// Whether the account must route through the FedRAMP edge.
    pub fn is_fedramp_account(&self) -> (is: bool)
        ensures
            is == self.chatgpt_account_is_fedramp,
    {
        self.chatgpt_account_is_fedramp
    }
}

/// The claims of an ID token.
#[derive(Debug, Default)]
pub struct IdClaims {
    pub email: Option<String>,
    /// Under [`PROFILE_NAMESPACE`].
    pub profile: Option<ProfileClaims>,
    /// Under [`AUTH_NAMESPACE`].
    pub auth: Option<AuthClaims>,
    /// The account, in tokens whose claims are flat. Without an account a token can never be
    /// refreshed.
    pub account_id: Option<String>,
    /// The subject of the token. It does not stand in for the user.
    pub sub: Option<String>,
}

#[derive(Debug, Default)]
pub struct ProfileClaims {
    pub email: Option<String>,
}

#[derive(Debug, Default)]
pub struct AuthClaims {
    pub chatgpt_plan_type: Option<PlanType>,
    pub chatgpt_user_id: Option<String>,
    pub user_id: Option<String>,
    pub chatgpt_account_id: Option<String>,
    pub chatgpt_account_is_fedramp: bool,
}

/// The claim of any JWT that says when it expires, in seconds since 1970.
#[derive(Debug, Default)]
pub struct StandardJwtClaims {
    pub exp: Option<i64>,
}

/// The claims that tie a user to an account.
#[derive(Debug, Default)]
pub struct AccountUserClaims {
    /// Under [`AUTH_NAMESPACE`].
    pub auth: Option<AccountUserAuthClaims>,
}

#[derive(Debug, Default)]
pub struct AccountUserAuthClaims {
    pub chatgpt_account_user_id: Option<String>,
    pub chatgpt_account_id: Option<String>,
}

/// The first claim, if it is there, and else the second.
pub open spec fn claim_or(first: Option<String>, second: Option<String>) -> Option<String> {
    match first {
        Some(claim) => Some(claim),
        None => second,
    }
}

fn first_claim(first: Option<String>, second: Option<String>) -> (claim: Option<String>)
    ensures
        claim == claim_or(first, second),
{
    match first {
        Some(found) => Some(found),
        None => second,
    }
}

/// The e-mail address in the claims: at the top, or else in the profile.
pub open spec fn email_in(claims: IdClaims) -> Option<String> {
    claim_or(
        claims.email,
        match claims.profile {
            Some(profile) => profile.email,
            None => None,
        },
    )
}

/// `info` is what the claims of the token `jwt` say.
///
/// The claims in the namespace [`AUTH_NAMESPACE`] come first. Only the account falls back to a flat
/// claim; in particular, `sub` never stands in for the user, so that a token without the namespace
/// has none.
pub open spec fn describes(info: IdTokenInfo, jwt: Seq<char>, claims: IdClaims) -> bool {
    &&& info.raw_jwt@ == jwt
    &&& info.email == email_in(claims)
    &&& match claims.auth {
        Some(auth) => {
            &&& info.chatgpt_plan_type == auth.chatgpt_plan_type
            &&& info.chatgpt_user_id == claim_or(auth.chatgpt_user_id, auth.user_id)
            &&& info.chatgpt_account_id == claim_or(auth.chatgpt_account_id, claims.account_id)
            &&& info.chatgpt_account_is_fedramp == auth.chatgpt_account_is_fedramp
        },
        None => {
            &&& info.chatgpt_plan_type is None
            &&& info.chatgpt_user_id is None
            &&& info.chatgpt_account_id == claims.account_id
            &&& !info.chatgpt_account_is_fedramp
        },
    }
}

/// Flattens the claims of the ID token `jwt`.
pub fn id_token_info(jwt: &str, claims: IdClaims) -> (info: IdTokenInfo)
    ensures
        describes(info, jwt@, claims),
        claims.email is Some ==> info.email == claims.email,
        claims.email is None ==> match claims.profile {
            Some(profile) => info.email == profile.email,
            None => info.email is None,
        },
{
    let IdClaims { email, profile, auth, account_id, .. } = claims;
    let profile_email = match profile {
        Some(profile) => profile.email,
        None => None,
    };
    let email = first_claim(email, profile_email);
    match auth {
        Some(auth) => IdTokenInfo {
            email,
            raw_jwt: jwt.to_owned(),
            chatgpt_plan_type: auth.chatgpt_plan_type,
            chatgpt_user_id: first_claim(auth.chatgpt_user_id, auth.user_id),
            chatgpt_account_id: first_claim(auth.chatgpt_account_id, account_id),
            chatgpt_account_is_fedramp: auth.chatgpt_account_is_fedramp,
        },
        None => IdTokenInfo {
            email,
            raw_jwt: jwt.to_owned(),
            chatgpt_plan_type: None,
            chatgpt_user_id: None,
            chatgpt_account_id: account_id,
            chatgpt_account_is_fedramp: false,
        },
    }
}

/// Reads an ID token, whose payload `decode` turns into claims.
pub fn parse_chatgpt_jwt_claims<F: Fn(&[u8]) -> Result<IdClaims, serde_json::Error>>(
    jwt: &str,
    decode: F,
) -> (result: Result<IdTokenInfo, IdTokenInfoError>)
    requires
        forall|input: &[u8]| #[trigger] call_requires(decode, (input,)),
    ensures
        exists|read: Result<IdClaims, IdTokenInfoError>| #[trigger]
            read_with(jwt@, decode, read) && match read {
                Ok(claims) => result matches Ok(info) && describes(info, jwt@, claims),
                Err(err) => result == Err::<IdTokenInfo, IdTokenInfoError>(err),
            },
{
    match decode_jwt_payload(jwt, decode) {
        Ok(claims) => Ok(id_token_info(jwt, claims)),
        Err(err) => Err(err),
    }
}

/// The seconds since 1970 that a calendar date stands for: from the first of the year -262143 to
/// the last of the year 262142.
pub open spec fn on_the_calendar(seconds: int) -> bool {
    -8_334_601_228_800 <= seconds <= 8_210_266_876_799
}

/// Calls `chrono::DateTime::<chrono::Utc>::from_timestamp` without nanoseconds, and takes the
/// timestamp of what comes back: the same seconds, or nothing if no date stands for them.
#[verifier::external_body]
fn utc_timestamp(seconds: i64) -> (timestamp: Option<i64>)
    ensures
        timestamp == if on_the_calendar(seconds as int) {
            Some(seconds)
        } else {
            None
        },
{
    chrono::DateTime::<chrono::Utc>::from_timestamp(seconds, 0).map(|moment| moment.timestamp())
}

/// When the claims say that a token expires, in seconds since 1970, if they say so and a calendar
/// date stands for it.
pub open spec fn expiration_in(claims: StandardJwtClaims) -> Option<i64> {
    match claims.exp {
        Some(exp) => if on_the_calendar(exp as int) {
            Some(exp)
        } else {
            None
        },
        None => None,
    }
}

/// When the claims say that a token expires.
pub fn expiration(claims: StandardJwtClaims) -> (timestamp: Option<i64>)
    ensures
        timestamp == expiration_in(claims),
        timestamp is Some <==> (claims.exp matches Some(exp) && on_the_calendar(exp as int)),
        timestamp is Some ==> timestamp == claims.exp,
{
    match claims.exp {
        Some(exp) => utc_timestamp(exp),
        None => None,
    }
}

/// Reads when a JWT expires, in seconds since 1970. `decode` turns its payload into claims.
pub fn parse_jwt_expiration<F: Fn(&[u8]) -> Result<StandardJwtClaims, serde_json::Error>>(
    jwt: &str,
    decode: F,
) -> (result: Result<Option<i64>, IdTokenInfoError>)
    requires
        forall|input: &[u8]| #[trigger] call_requires(decode, (input,)),
    ensures
        exists|read: Result<StandardJwtClaims, IdTokenInfoError>| #[trigger]
            read_with(jwt@, decode, read) && result == match read {
                Ok(claims) => Ok(expiration_in(claims)),
                Err(err) => Err(err),
            },
{
    match decode_jwt_payload(jwt, decode) {
        Ok(claims) => Ok(expiration(claims)),
        Err(err) => Err(err),
    }
}

/// The user that the claims give for an account: they must speak of that account, and the user's
/// name must be clean.
pub open spec fn account_user_in(claims: AccountUserClaims, account_id: Seq<char>) -> Option<
    String,
> {
    match claims.auth {
        Some(auth) => if (auth.chatgpt_account_id matches Some(id) && id@ == account_id) && (
        auth.chatgpt_account_user_id matches Some(user) && is_clean(user@)) {
            auth.chatgpt_account_user_id
        } else {
            None
        },
        None => None,
    }
}

/// The user that the claims give for an account.
pub fn account_user(claims: AccountUserClaims, account_id: &str) -> (user: Option<String>)
    ensures
        user == account_user_in(claims, account_id@),
{
    let auth = match claims.auth {
        Some(auth) => auth,
        None => {
            return None;
        },
    };
    let speaks_of_account = match &auth.chatgpt_account_id {
        Some(id) => same_text(id.as_str(), account_id),
        None => false,
    };
    if !speaks_of_account {
        return None;
    }
    match auth.chatgpt_account_user_id {
        Some(user) => {
            if clean(user.as_str()) {
                Some(user)
            } else {
                None
            }
        },
        None => None,
    }
}

/// Reads which user of an account a JWT belongs to. `decode` turns its payload into claims.
///
/// Membership is read apart from the other claims: a malformed membership turns local
/// verification off without breaking an otherwise valid login.
pub fn parse_chatgpt_account_user_id<
    F: Fn(&[u8]) -> Result<AccountUserClaims, serde_json::Error>,
>(jwt: &str, account_id: &str, decode: F) -> (result: Result<Option<String>, IdTokenInfoError>)
    requires
        forall|input: &[u8]| #[trigger] call_requires(decode, (input,)),
    ensures
        !is_clean(account_id@) ==> result == Ok::<Option<String>, IdTokenInfoError>(None),
        is_clean(account_id@) && dot_pieces(jwt@).len() != 3 ==> result == Err::<
            Option<String>,
            IdTokenInfoError,
        >(IdTokenInfoError::InvalidFormat),
        is_clean(account_id@) && dot_pieces(jwt@).len() == 3 ==> exists|
            read: Result<AccountUserClaims, IdTokenInfoError>,
        | #[trigger]
            read_with(jwt@, decode, read) && result == match read {
                Ok(claims) => Ok(account_user_in(claims, account_id@)),
                Err(err) => Err(err),
            },
{
    if !clean(account_id) {
        return Ok(None);
    }
    let parts = split_dots(jwt);
    proof {
        assert(texts(parts@).len() == parts@.len());
    }
    if parts.len() != 3 {
        return Err(IdTokenInfoError::InvalidFormat);
    }
    match decode_jwt_payload(jwt, decode) {
        Ok(claims) => Ok(account_user(claims, account_id)),
        Err(err) => Err(err),
    }
}

/// A token with a flat account claim always has an account: that of its namespace, or else the
/// flat one.
pub proof fn law_flat_account_is_never_lost(info: IdTokenInfo, jwt: Seq<char>, claims: IdClaims)
    requires
        describes(info, jwt, claims),
        claims.account_id is Some,
    ensures
        info.chatgpt_account_id is Some,
        (claims.auth matches Some(auth) && auth.chatgpt_account_id is Some)
            || info.chatgpt_account_id == claims.account_id,
{
}

/// A token without the namespace has the flat account and no user, so that the same owner is
/// recognised across a refresh that keeps the account.
pub proof fn law_flat_owner_is_kept(
    before: IdTokenInfo,
    after: IdTokenInfo,
    old_jwt: Seq<char>,
    new_jwt: Seq<char>,
    old_claims: IdClaims,
    new_claims: IdClaims,
)
    requires
        describes(before, old_jwt, old_claims),
        describes(after, new_jwt, new_claims),
        old_claims.auth is None && new_claims.auth is None,
        new_claims.account_id == old_claims.account_id,
    ensures
        before.chatgpt_account_id == old_claims.account_id,
        after.chatgpt_account_id == before.chatgpt_account_id,
        before.chatgpt_user_id is None && after.chatgpt_user_id is None,
{
}

/// The claim `sub` never counts: the info is the same whatever it says.
pub proof fn law_sub_never_counts(
    info: IdTokenInfo,
    jwt: Seq<char>,
    claims: IdClaims,
    sub: Option<String>,
)
    requires
        describes(info, jwt, claims),
    ensures
        describes(info, jwt, IdClaims { sub, ..claims }),
{
}

/// The text of a claim.
pub open spec fn text_of(claim: Option<String>) -> Option<Seq<char>> {
    match claim {
        Some(text) => Some(text@),
        None => None,
    }
}

/// The plan in a claim.
pub open spec fn plan_of(claim: Option<PlanType>) -> Option<PlanModel> {
    match claim {
        Some(plan) => Some(plan@),
        None => None,
    }
}

/// `claim` is what the fields of an object say under `name`: a text, or nothing where the field is
/// missing or null.
pub open spec fn text_claim_in(
    claim: Option<Seq<char>>,
    fields: Seq<(Seq<char>, JsonModel)>,
    name: Seq<char>,
) -> bool {
    match value_of(fields, name) {
        None | Some(JsonModel::Null) => claim is None,
        Some(JsonModel::String(text)) => claim == Some(text),
        Some(_) => false,
    }
}

/// `profile` is what the fields of a payload say under [`PROFILE_NAMESPACE`].
pub open spec fn profile_in(
    profile: Option<ProfileClaims>,
    fields: Seq<(Seq<char>, JsonModel)>,
) -> bool {
    match value_of(fields, PROFILE_NAMESPACE@) {
        None | Some(JsonModel::Null) => profile is None,
        Some(JsonModel::Object(namespace)) => profile matches Some(found) && text_claim_in(
            text_of(found.email),
            namespace,
            "email"@,
        ),
        Some(_) => false,
    }
}

/// `auth` is what the fields of a payload say under [`AUTH_NAMESPACE`], where `plans` is what plan
/// a text stands for.
pub open spec fn auth_in(
    auth: Option<AuthClaims>,
    fields: Seq<(Seq<char>, JsonModel)>,
    plans: spec_fn(Seq<char>) -> PlanModel,
) -> bool {
    match value_of(fields, AUTH_NAMESPACE@) {
        None | Some(JsonModel::Null) => auth is None,
        Some(JsonModel::Object(namespace)) => {
            &&& auth matches Some(found)
            &&& match value_of(namespace, "chatgpt_plan_type"@) {
                None | Some(JsonModel::Null) => found.chatgpt_plan_type is None,
                Some(JsonModel::String(text)) => plan_of(found.chatgpt_plan_type) == Some(
                    plans(text),
                ),
                Some(_) => false,
            }
            &&& text_claim_in(text_of(found.chatgpt_user_id), namespace, "chatgpt_user_id"@)
            &&& text_claim_in(text_of(found.user_id), namespace, "user_id"@)
            &&& text_claim_in(text_of(found.chatgpt_account_id), namespace, "chatgpt_account_id"@)
            &&& match value_of(namespace, "chatgpt_account_is_fedramp"@) {
                None => !found.chatgpt_account_is_fedramp,
                Some(JsonModel::Bool(is)) => found.chatgpt_account_is_fedramp == is,
                Some(_) => false,
            }
        },
        Some(_) => false,
    }
}

/// `claims` are the claims in a payload with these fields, where `plans` is what plan a text
/// stands for. A payload with a claim of another type has none.
pub open spec fn claims_in(
    claims: IdClaims,
    fields: Seq<(Seq<char>, JsonModel)>,
    plans: spec_fn(Seq<char>) -> PlanModel,
) -> bool {
    &&& text_claim_in(text_of(claims.email), fields, "email"@)
    &&& profile_in(claims.profile, fields)
    &&& auth_in(claims.auth, fields, plans)
    &&& text_claim_in(text_of(claims.account_id), fields, "account_id"@)
    &&& text_claim_in(text_of(claims.sub), fields, "sub"@)
}

/// There are claims in a payload with these fields.
pub open spec fn holds_claims(
    fields: Seq<(Seq<char>, JsonModel)>,
    plans: spec_fn(Seq<char>) -> PlanModel,
) -> bool {
    exists|claims: IdClaims| #[trigger] claims_in(claims, fields, plans)
}

/// Of the payload `bytes`, with these fields, `decode` gives the claims in it, and fails only if
/// there are none.
pub open spec fn decodes_claims<F: Fn(&[u8]) -> Result<IdClaims, serde_json::Error>>(
    decode: F,
    bytes: Seq<u8>,
    fields: Seq<(Seq<char>, JsonModel)>,
    plans: spec_fn(Seq<char>) -> PlanModel,
) -> bool {
    forall|input: &[u8], decoded: Result<IdClaims, serde_json::Error>|
        input@ == bytes && #[trigger] call_ensures(decode, (input,), decoded) ==> match decoded {
            Ok(claims) => claims_in(claims, fields, plans),
            Err(_) => !holds_claims(fields, plans),
        }
}

/// Two payloads that differ at most in the member `chatgpt_account_user_id` of the namespace
/// [`AUTH_NAMESPACE`].
pub open spec fn alike_but_membership(
    fields: Seq<(Seq<char>, JsonModel)>,
    others: Seq<(Seq<char>, JsonModel)>,
) -> bool {
    &&& forall|name: Seq<char>|
        name != AUTH_NAMESPACE@ ==> #[trigger] value_of(others, name) == value_of(fields, name)
    &&& value_of(fields, AUTH_NAMESPACE@) matches Some(JsonModel::Object(namespace))
    &&& value_of(others, AUTH_NAMESPACE@) matches Some(JsonModel::Object(other))
    &&& forall|name: Seq<char>|
        name != "chatgpt_account_user_id"@ ==> #[trigger] value_of(other, name) == value_of(
            namespace,
            name,
        )
}

/// Two infos that say the same but for the raw token.
pub open spec fn same_login(info: IdTokenInfo, other: IdTokenInfo) -> bool {
    &&& text_of(other.email) == text_of(info.email)
    &&& plan_of(other.chatgpt_plan_type) == plan_of(info.chatgpt_plan_type)
    &&& text_of(other.chatgpt_user_id) == text_of(info.chatgpt_user_id)
    &&& text_of(other.chatgpt_account_id) == text_of(info.chatgpt_account_id)
    &&& other.chatgpt_account_is_fedramp == info.chatgpt_account_is_fedramp
}

/// Two infos that describe the same claims agree on everything but the raw token.
pub proof fn law_same_claims_same_login(
    info: IdTokenInfo,
    other: IdTokenInfo,
    jwt: Seq<char>,
    other_jwt: Seq<char>,
    claims: IdClaims,
)
    requires
        describes(info, jwt, claims),
        describes(other, other_jwt, claims),
    ensures
        other.email == info.email,
        other.chatgpt_plan_type == info.chatgpt_plan_type,
        other.chatgpt_user_id == info.chatgpt_user_id,
        other.chatgpt_account_id == info.chatgpt_account_id,
        other.chatgpt_account_is_fedramp == info.chatgpt_account_is_fedramp,
        same_login(info, other),
{
}

/// The membership has no part in the claims of a login, whatever it holds: the same claims are in
/// two payloads that differ in nothing else.
pub proof fn law_membership_is_no_login_claim(
    claims: IdClaims,
    fields: Seq<(Seq<char>, JsonModel)>,
    others: Seq<(Seq<char>, JsonModel)>,
    plans: spec_fn(Seq<char>) -> PlanModel,
)
    requires
        alike_but_membership(fields, others),
    ensures
        claims_in(claims, others, plans) <==> claims_in(claims, fields, plans),
{
    reveal_strlit("https://api.openai.com/auth");
    reveal_strlit("https://api.openai.com/profile");
    reveal_strlit("email");
    reveal_strlit("account_id");
    reveal_strlit("sub");
    reveal_strlit("chatgpt_account_user_id");
    reveal_strlit("chatgpt_plan_type");
    reveal_strlit("chatgpt_user_id");
    reveal_strlit("user_id");
    reveal_strlit("chatgpt_account_id");
    reveal_strlit("chatgpt_account_is_fedramp");
    assert(AUTH_NAMESPACE@.len() == 27);
    assert(PROFILE_NAMESPACE@.len() == 30);
    assert("email"@.len() == 5);
    assert(value_of(others, "email"@) == value_of(fields, "email"@));
    assert(value_of(others, PROFILE_NAMESPACE@) == value_of(fields, PROFILE_NAMESPACE@));
    assert(value_of(others, "account_id"@) == value_of(fields, "account_id"@));
    assert(value_of(others, "sub"@) == value_of(fields, "sub"@));
    assert("chatgpt_account_user_id"@.len() == 23);
    let namespace = value_of(fields, AUTH_NAMESPACE@)->0->Object_0;
    let other = value_of(others, AUTH_NAMESPACE@)->0->Object_0;
    assert(value_of(other, "chatgpt_plan_type"@) == value_of(namespace, "chatgpt_plan_type"@));
    assert(value_of(other, "chatgpt_user_id"@) == value_of(namespace, "chatgpt_user_id"@));
    assert(value_of(other, "user_id"@) == value_of(namespace, "user_id"@));
    assert(value_of(other, "chatgpt_account_id"@) == value_of(namespace, "chatgpt_account_id"@));
    assert(value_of(other, "chatgpt_account_is_fedramp"@) == value_of(
        namespace,
        "chatgpt_account_is_fedramp"@,
    ));
}

/// A malformed membership never breaks a login. Of two tokens whose payloads differ in nothing
/// else, either both are read or neither is, and what is read says the same but for the raw token,
/// given that `decode` gives the claims in a payload.
pub proof fn law_membership_never_breaks_a_login<
    F: Fn(&[u8]) -> Result<IdClaims, serde_json::Error>,
>(
    jwt: Seq<char>,
    other_jwt: Seq<char>,
    fields: Seq<(Seq<char>, JsonModel)>,
    others: Seq<(Seq<char>, JsonModel)>,
    decode: F,
    plans: spec_fn(Seq<char>) -> PlanModel,
    read: Result<IdClaims, IdTokenInfoError>,
    other_read: Result<IdClaims, IdTokenInfoError>,
)
    requires
        payload_json(jwt) == Ok::<JsonModel, IdTokenInfoError>(JsonModel::Object(fields)),
        payload_json(other_jwt) == Ok::<JsonModel, IdTokenInfoError>(JsonModel::Object(others)),
        alike_but_membership(fields, others),
        decodes_claims(decode, payload_bytes(jwt)->Ok_0, fields, plans),
        decodes_claims(decode, payload_bytes(other_jwt)->Ok_0, others, plans),
        read_with(jwt, decode, read),
        read_with(other_jwt, decode, other_read),
    ensures
        read is Ok <==> other_read is Ok,
        read matches Ok(claims) ==> (other_read matches Ok(other_claims) ==> forall|
            info: IdTokenInfo,
            other: IdTokenInfo,
        |
            describes(info, jwt, claims) && describes(other, other_jwt, other_claims)
                ==> #[trigger] same_login(info, other)),
{
    assert forall|claims: IdClaims|
        claims_in(claims, others, plans) <==> #[trigger] claims_in(claims, fields, plans) by {
        law_membership_is_no_login_claim(claims, fields, others, plans);
    }
    assert forall|claims: IdClaims|
        #[trigger] claims_in(claims, others, plans) <==> claims_in(claims, fields, plans) by {
        law_membership_is_no_login_claim(claims, fields, others, plans);
    }
}

/// The raw token stands for the info: reading it again, with the claims it had, gives the same
/// info.
pub proof fn law_raw_token_stands_for_the_info(
    info: IdTokenInfo,
    again: IdTokenInfo,
    jwt: Seq<char>,
    claims: IdClaims,
)
    requires
        describes(info, jwt, claims),
        describes(again, info.raw_jwt@, claims),
    ensures
        again.raw_jwt@ == info.raw_jwt@,
        again.email == info.email,
        again.chatgpt_plan_type == info.chatgpt_plan_type,
        again.chatgpt_user_id == info.chatgpt_user_id,
        again.chatgpt_account_id == info.chatgpt_account_id,
        again.chatgpt_account_is_fedramp == info.chatgpt_account_is_fedramp,
{
}

/// Where the e-mail address of a token comes from, whatever the other claims are: from the top of
/// the claims if it is there, else from the profile, if there is one.
pub proof fn law_email_comes_from_the_top_or_the_profile(
    info: IdTokenInfo,
    jwt: Seq<char>,
    claims: IdClaims,
)
    requires
        describes(info, jwt, claims),
    ensures
        claims.email is Some ==> info.email == claims.email,
        claims.email is None ==> match claims.profile {
            Some(profile) => info.email == profile.email,
            None => info.email is None,
        },
{
}

/// What the namespace says of a token's plan, user, account and edge is what its info says. A user
/// is looked for under two names, and an account that the namespace lacks is the flat one.
pub proof fn law_namespace_speaks_for_the_token(
    info: IdTokenInfo,
    jwt: Seq<char>,
    claims: IdClaims,
    auth: AuthClaims,
)
    requires
        describes(info, jwt, claims),
        claims.auth == Some(auth),
    ensures
        info.raw_jwt@ == jwt,
        info.chatgpt_plan_type == auth.chatgpt_plan_type,
        info.chatgpt_account_is_fedramp == auth.chatgpt_account_is_fedramp,
        auth.chatgpt_user_id is Some ==> info.chatgpt_user_id == auth.chatgpt_user_id,
        auth.chatgpt_user_id is None ==> info.chatgpt_user_id == auth.user_id,
        auth.chatgpt_account_id is Some ==> info.chatgpt_account_id == auth.chatgpt_account_id,
        auth.chatgpt_account_id is None ==> info.chatgpt_account_id == claims.account_id,
{
}

/// Without the namespace a token has the flat account, and neither a plan nor a user nor an edge.
pub proof fn law_flat_token_has_its_account_alone(
    info: IdTokenInfo,
    jwt: Seq<char>,
    claims: IdClaims,
)
    requires
        describes(info, jwt, claims),
        claims.auth is None,
    ensures
        info.raw_jwt@ == jwt,
        info.chatgpt_account_id == claims.account_id,
        info.chatgpt_plan_type is None,
        info.chatgpt_user_id is None,
        !info.chatgpt_account_is_fedramp,
{
}

/// A token expires when its claim says, and at no time if there is no claim or no date for it.
pub proof fn law_expiration_is_the_claim(claims: StandardJwtClaims, seconds: i64)
    ensures
        expiration_in(claims) == Some(seconds) <==> claims.exp == Some(seconds) && on_the_calendar(
            seconds as int,
        ),
{
}

/// A user is given for an account just if the claims name that account and that user, and the
/// user's name is not empty and has no white space to trim.
pub proof fn law_account_user_is_the_claim(
    claims: AccountUserClaims,
    account_id: Seq<char>,
    user: String,
)
    ensures
        account_user_in(claims, account_id) == Some(user) <==> {
            &&& claims.auth matches Some(auth)
            &&& auth.chatgpt_account_id matches Some(id)
            &&& id@ == account_id
            &&& auth.chatgpt_account_user_id == Some(user)
            &&& user@.len() > 0
            &&& trimmed(user@) == user@
        },
{
    law_clean_texts_are_those_that_trimming_keeps(user@);
}

} // verus!
