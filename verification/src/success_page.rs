//! Where a login ends: the page that says it succeeded, and the claims that are kept of it.
use url::Url;
use vstd::prelude::*;
use vstd::utf8::{encode_utf8, is_ascii_chars, is_ascii_chars_encode_utf8};

use crate::entries::{
    distinct_keys, lemma_no_value, lemma_position_decides, lemma_value_of_push, position_of,
    value_of,
};
use crate::json::{as_map, fields_view, lemma_object_view, JsonModel, JsonValue};
use crate::jwt::{jwt_json_payload, payload_json, IdTokenInfoError};
use crate::text::{
    decimal, decimal_text, law_different_numbers_are_written_differently,
    law_numbers_are_written_with_digits,
};
use crate::token_data::{
    claims_in, describes, text_of, IdClaims, IdTokenInfo, PlanModel, AUTH_NAMESPACE,
};
use crate::urls::{
    append_query_pair, clear_query, lemma_encode_concat, lemma_unreserved_text_is_kept,
    lemma_without_trailing_spaces, params_view, part_text, query_text, url_into_string, url_parts,
    UrlParts,
};

verus! {

/// Opens the app.
pub const CODEX_OPEN_APP_URL: &'static str = "https://chatgpt.com/codex/open-app";

/// The page that is shown after a login.
#[derive(Debug, Clone, Eq, PartialEq)]
pub enum LoginSuccessPage {
    Local,
    Hosted { url: Url, app_brand: LoginSuccessPageBrand },
}

impl Default for LoginSuccessPage {
    /// The local page.
    fn default() -> (page: Self)
        ensures
            page is Local,
    {
        LoginSuccessPage::Local
    }
}

/// The app that a hosted page is shown for.
#[derive(Debug, Clone, Copy, Eq, PartialEq)]
pub enum LoginSuccessPageBrand {
    Codex,
    Chatgpt,
}

impl LoginSuccessPageBrand {
    /// The brand's name in a query.
    pub open spec fn name(self) -> Seq<char> {
        match self {
            LoginSuccessPageBrand::Codex => "codex"@,
            LoginSuccessPageBrand::Chatgpt => "chatgpt"@,
        }
    }

    /// The brand's name in a query.
    pub fn as_str(self) -> (name: &'static str)
        ensures
            name@ == self.name(),
            self is Codex ==> name@ == "codex"@,
            self is Chatgpt ==> name@ == "chatgpt"@,
    {
        match self {
            LoginSuccessPageBrand::Codex => "codex",
            LoginSuccessPageBrand::Chatgpt => "chatgpt",
        }
    }
}

/// Where the browser is sent after a login.
#[derive(Debug, Eq, PartialEq)]
pub enum LoginSuccessRedirect {
    Local(String),
    Hosted(String),
}

/// The text of a [`LoginSuccessRedirect`], with its kind.
pub enum RedirectModel {
    Local(Seq<char>),
    Hosted(Seq<char>),
}

impl View for LoginSuccessRedirect {
    type V = RedirectModel;

    open spec fn view(&self) -> RedirectModel {
        match self {
            LoginSuccessRedirect::Local(url) => RedirectModel::Local(url@),
            LoginSuccessRedirect::Hosted(url) => RedirectModel::Hosted(url@),
        }
    }
}

/// The URL of a hosted page for a brand: the page's own query is gone, its fragment is kept.
pub open spec fn hosted_url(page: UrlParts, brand: Seq<char>) -> Seq<char> {
    page.bare_base() + "?source=login&app_brand="@ + brand + part_text('#', page.fragment)
}

/// The URL of the local page.
pub open spec fn local_url(port: u16, codex_streamlined_login: bool) -> Seq<char> {
    "http://localhost:"@ + decimal(port as nat) + "/success?"@ + if codex_streamlined_login {
        "codex_streamlined_login=true"@
    } else {
        Seq::empty()
    }
}

/// Where the browser is sent after a login. No token has a part in it.
pub open spec fn success_redirect(
    port: u16,
    codex_streamlined_login: bool,
    page: LoginSuccessPage,
) -> RedirectModel {
    match page {
        LoginSuccessPage::Hosted { url, app_brand } => RedirectModel::Hosted(
            hosted_url(url_parts(url), app_brand.name()),
        ),
        LoginSuccessPage::Local => RedirectModel::Local(local_url(port, codex_streamlined_login)),
    }
}

/// The positions in the hosted page's URL can be counted in 32 bits, with the new query in it.
pub open spec fn page_fits(page: LoginSuccessPage) -> bool {
    page matches LoginSuccessPage::Hosted { url, app_brand } ==> encode_utf8(
        url_parts(url).bare_base(),
    ).len() + app_brand.name().len() + 24 <= u32::MAX
}

proof fn lemma_bare_base_is_no_longer(page: UrlParts)
    ensures
        encode_utf8(page.bare_base()).len() <= encode_utf8(page.text()).len(),
{
    lemma_without_trailing_spaces(page.base);
    lemma_encode_concat(page.base, part_text('?', page.query));
    lemma_encode_concat(page.before_fragment(), part_text('#', page.fragment));
}

/// Composes where the browser is sent after a login.
///
/// Neither the issuer nor a token has a part in it: credentials do not belong in a browser's
/// history.
pub fn compose_success_url(
    port: u16,
    _issuer: &str,
    _id_token: &str,
    _access_token: &str,
    codex_streamlined_login: bool,
    login_success_page: &LoginSuccessPage,
) -> (redirect: LoginSuccessRedirect)
    requires
        page_fits(*login_success_page),
    ensures
        redirect@ == success_redirect(port, codex_streamlined_login, *login_success_page),
        match *login_success_page {
            LoginSuccessPage::Local => redirect matches LoginSuccessRedirect::Local(text) && text@
                == "http://localhost:"@ + decimal(port as nat) + "/success?"@ + (
            if codex_streamlined_login {
                "codex_streamlined_login=true"@
            } else {
                Seq::empty()
            }),
            LoginSuccessPage::Hosted { url, app_brand } =>
                redirect matches LoginSuccessRedirect::Hosted(text) && text@ == url_parts(
                url,
            ).without_query().with_pair("source"@, "login"@).with_pair(
                "app_brand"@,
                if app_brand is Codex {
                    "codex"@
                } else {
                    "chatgpt"@
                },
            ).text(),
        },
{
    match login_success_page {
        LoginSuccessPage::Hosted { url, app_brand } => {
            let mut success_url = url.clone();
            let brand = app_brand.as_str();
            let ghost page = url_parts(*url);
            let ghost start = page.bare_base();
            proof {
                reveal_strlit("source");
                reveal_strlit("login");
                reveal_strlit("app_brand");
                reveal_strlit("codex");
                reveal_strlit("chatgpt");
                reveal_strlit("?source=login&app_brand=");
                assert(page.without_query().before_fragment() =~= start);
            }
            clear_query(&mut success_url);
            append_query_pair(&mut success_url, "source", "login");
            proof {
                let first = "source"@ + seq!['='] + "login"@;
                let added = seq!['?'] + first;
                lemma_encode_concat(start, added);
                assert(is_ascii_chars(added));
                is_ascii_chars_encode_utf8(added);
            }
            append_query_pair(&mut success_url, "app_brand", brand);
            proof {
                assert(url_parts(success_url).text() =~= hosted_url(page, brand@));
                law_hosted_redirect_has_two_pairs(page, *app_brand);
            }
            LoginSuccessRedirect::Hosted(url_into_string(success_url))
        },
        LoginSuccessPage::Local => {
            let mut params: Vec<(&'static str, String)> = Vec::new();
            if codex_streamlined_login {
                params.push(("codex_streamlined_login", "true".to_owned()));
            }
            let query = query_text(&params);
            proof {
                reveal_strlit("codex_streamlined_login");
                reveal_strlit("codex_streamlined_login=true");
                reveal_strlit("true");
                lemma_unreserved_text_is_kept("true"@);
                if codex_streamlined_login {
                    assert(params_view(params@) =~= seq![("codex_streamlined_login"@, "true"@)]);
                    assert(query@ =~= "codex_streamlined_login=true"@);
                } else {
                    assert(params_view(params@) =~= Seq::empty());
                }
            }
            let mut text = "http://localhost:".to_owned();
            let port_text = decimal_text(port);
            text.append(port_text.as_str());
            text.append("/success?");
            text.append(query.as_str());
            LoginSuccessRedirect::Local(text)
        },
    }
}

/// Composes where the browser is sent after a login, unless the URL of a hosted page is so long
/// that its positions might not be counted in 32 bits.
pub fn checked_compose_success_url(
    port: u16,
    issuer: &str,
    id_token: &str,
    access_token: &str,
    codex_streamlined_login: bool,
    login_success_page: &LoginSuccessPage,
) -> (redirect: Option<LoginSuccessRedirect>)
    ensures
        redirect is None <==> (*login_success_page matches LoginSuccessPage::Hosted { url, .. }
            && encode_utf8(url_parts(url).text()).len() + 31 > u32::MAX),
        redirect matches Some(target) ==> target@ == success_redirect(
            port,
            codex_streamlined_login,
            *login_success_page,
        ),
        redirect matches Some(target) ==> (target is Local <==> *login_success_page is Local),
{
    match login_success_page {
        LoginSuccessPage::Hosted { url, app_brand } => {
            let text = url_into_string(url.clone());
            if text.as_str().as_bytes().len() > 0xFFFF_FFE0 {
                return None;
            }
            proof {
                lemma_bare_base_is_no_longer(url_parts(*url));
                reveal_strlit("codex");
                reveal_strlit("chatgpt");
            }
        },
        LoginSuccessPage::Local => {},
    }
    Some(
        compose_success_url(
            port,
            issuer,
            id_token,
            access_token,
            codex_streamlined_login,
            login_success_page,
        ),
    )
}

/// The query that a hosted page had has no part in the redirect.
pub proof fn law_old_query_does_not_count(page: UrlParts, other: UrlParts, brand: Seq<char>)
    requires
        other.base == page.base,
        other.fragment == page.fragment,
    ensures
        hosted_url(other, brand) == hosted_url(page, brand),
{
}

/// The redirect to a hosted page is the page with exactly two pairs in its query.
pub proof fn law_hosted_redirect_has_two_pairs(page: UrlParts, brand: LoginSuccessPageBrand)
    ensures
        hosted_url(page, brand.name()) == page.without_query().with_pair(
            "source"@,
            "login"@,
        ).with_pair("app_brand"@, brand.name()).text(),
{
    reveal_strlit("source");
    reveal_strlit("login");
    reveal_strlit("app_brand");
    reveal_strlit("?source=login&app_brand=");
    assert(hosted_url(page, brand.name()) =~= page.without_query().with_pair(
        "source"@,
        "login"@,
    ).with_pair("app_brand"@, brand.name()).text());
}

/// The account claims in a payload, by name.
///
/// They are the claims in the namespace [`AUTH_NAMESPACE`], if the payload has that object. Else
/// they are the claims of the payload itself, and its `account_id` stands for a
/// `chatgpt_account_id` that is missing. A payload that is no object has none.
pub open spec fn auth_claims(payload: JsonModel) -> Map<Seq<char>, JsonModel> {
    match payload {
        JsonModel::Object(fields) => match value_of(fields, AUTH_NAMESPACE@) {
            Some(JsonModel::Object(claims)) => as_map(claims),
            _ => match value_of(fields, "account_id"@) {
                Some(account_id) => if value_of(fields, "chatgpt_account_id"@) is None {
                    as_map(fields).insert("chatgpt_account_id"@, account_id)
                } else {
                    as_map(fields)
                },
                None => as_map(fields),
            },
        },
        _ => Map::empty(),
    }
}

fn find_field(fields: &Vec<(String, JsonValue)>, key: &str) -> (found: Option<usize>)
    ensures
        match found {
            Some(at) => at < fields.len() && value_of(fields_view(fields@), key@) == Some(
                fields@[at as int].1@,
            ),
            None => value_of(fields_view(fields@), key@) is None,
        },
{
    let found = position_of(fields, key);
    proof {
        let view = fields_view(fields@);
        assert forall|j: int| 0 <= j < view.len() implies (#[trigger] view[j]).0
            == fields@[j].0@ by {}
        lemma_position_decides(view, key@, found);
    }
    found
}

/// The account claims in a payload.
pub fn auth_claims_in(payload: JsonValue) -> (claims: Vec<(String, JsonValue)>)
    ensures
        as_map(fields_view(claims@)) == auth_claims(payload@),
        payload@.well_formed() ==> distinct_keys(fields_view(claims@)),
{
    let mut fields = match payload {
        JsonValue::Object(fields) => fields,
        _ => {
            let none: Vec<(String, JsonValue)> = Vec::new();
            proof {
                assert(fields_view(none@) =~= Seq::empty());
                assert(as_map(fields_view(none@)) =~= Map::empty());
            }
            return none;
        },
    };
    proof {
        lemma_object_view(fields);
    }
    let ghost whole = fields_view(fields@);
    match find_field(&fields, AUTH_NAMESPACE) {
        Some(at) => {
            let is_object = match &fields[at].1 {
                JsonValue::Object(_) => true,
                _ => false,
            };
            if is_object {
                let (_, namespace) = fields.remove(at);
                match namespace {
                    JsonValue::Object(claims) => {
                        proof {
                            lemma_object_view(claims);
                            assert(whole[at as int].1 == namespace@);
                            assert(payload@.well_formed() ==> whole[at as int].1.well_formed());
                        }
                        return claims;
                    },
                    _ => {},
                }
            }
        },
        None => {},
    }
    match (find_field(&fields, "chatgpt_account_id"), find_field(&fields, "account_id")) {
        (None, Some(at)) => {
            let account_id = fields[at].1.clone();
            let ghost new = ("chatgpt_account_id"@, account_id@);
            fields.push(("chatgpt_account_id".to_owned(), account_id));
            proof {
                assert(fields_view(fields@) =~= whole.push(new));
                assert forall|key: Seq<char>| #[trigger]
                    value_of(whole.push(new), key) == if key == new.0 {
                        Some(new.1)
                    } else {
                        value_of(whole, key)
                    } by {
                    lemma_value_of_push(whole, new, key);
                }
                assert(as_map(fields_view(fields@)) =~= as_map(whole).insert(new.0, new.1));
                if distinct_keys(whole) {
                    let longer = whole.push(new);
                    assert forall|i: int, j: int| 0 <= i < j < longer.len() implies longer[i].0
                        != longer[j].0 by {
                        if j == whole.len() {
                            lemma_no_value(whole, new.0, i);
                        }
                    }
                }
            }
        },
        _ => {},
    }
    fields
}

/// The account claims in a JWT's payload. A token that cannot be read has none.
pub fn jwt_auth_claims(jwt: &str) -> (claims: Vec<(String, JsonValue)>)
    ensures
        as_map(fields_view(claims@)) == match payload_json(jwt@) {
            Ok(payload) => auth_claims(payload),
            Err(_) => Map::empty(),
        },
        distinct_keys(fields_view(claims@)),
{
    match jwt_json_payload(jwt) {
        Ok(payload) => auth_claims_in(payload),
        Err(_) => {
            let none: Vec<(String, JsonValue)> = Vec::new();
            proof {
                assert(fields_view(none@) =~= Seq::empty());
                assert(as_map(fields_view(none@)) =~= Map::empty());
            }
            none
        },
    }
}

/// The text of a claim, if it is there and is a text.
pub open spec fn claim_text(claims: Map<Seq<char>, JsonModel>, name: Seq<char>) -> Option<
    Seq<char>,
> {
    if claims.contains_key(name) {
        match claims[name] {
            JsonModel::String(text) => Some(text),
            _ => None,
        }
    } else {
        None
    }
}

/// Both readers of an ID token name the same account: the one under `chatgpt_account_id` among the
/// account claims is the one in the token's info. The payload has no `chatgpt_account_id` of its
/// own, and the namespace is missing, or null, or an object with a text as its
/// `chatgpt_account_id`.
pub proof fn law_both_readers_name_the_same_account(
    info: IdTokenInfo,
    jwt: Seq<char>,
    claims: IdClaims,
    fields: Seq<(Seq<char>, JsonModel)>,
    plans: spec_fn(Seq<char>) -> PlanModel,
)
    requires
        payload_json(jwt) == Ok::<JsonModel, IdTokenInfoError>(JsonModel::Object(fields)),
        claims_in(claims, fields, plans),
        describes(info, jwt, claims),
        value_of(fields, "chatgpt_account_id"@) is None,
        match value_of(fields, AUTH_NAMESPACE@) {
            None | Some(JsonModel::Null) => true,
            Some(JsonModel::Object(namespace)) => value_of(
                namespace,
                "chatgpt_account_id"@,
            ) matches Some(JsonModel::String(_)),
            _ => false,
        },
    ensures
        claim_text(auth_claims(payload_json(jwt)->Ok_0), "chatgpt_account_id"@) == text_of(
            info.chatgpt_account_id,
        ),
{
}

/// In a payload without the namespace, an account under either name is an account under
/// `chatgpt_account_id`, and a `chatgpt_account_id` of the payload's own comes first.
pub proof fn law_flat_account_gets_the_expected_name(fields: Seq<(Seq<char>, JsonModel)>)
    requires
        !(value_of(fields, "https://api.openai.com/auth"@) matches Some(JsonModel::Object(_))),
    ensures
        auth_claims(JsonModel::Object(fields)).contains_key("chatgpt_account_id"@) <==> (value_of(
            fields,
            "chatgpt_account_id"@,
        ) is Some || value_of(fields, "account_id"@) is Some),
        value_of(fields, "chatgpt_account_id"@) matches Some(own) ==> auth_claims(
            JsonModel::Object(fields),
        )["chatgpt_account_id"@] == own,
        value_of(fields, "chatgpt_account_id"@) is None ==> (value_of(
            fields,
            "account_id"@,
        ) matches Some(flat) ==> auth_claims(JsonModel::Object(fields))["chatgpt_account_id"@]
            == flat),
{
}

/// In a payload without the namespace, every claim but `chatgpt_account_id` is as it is in the
/// payload.
pub proof fn law_other_flat_claims_are_kept(fields: Seq<(Seq<char>, JsonModel)>, name: Seq<char>)
    requires
        !(value_of(fields, "https://api.openai.com/auth"@) matches Some(JsonModel::Object(_))),
        name != "chatgpt_account_id"@,
    ensures
        auth_claims(JsonModel::Object(fields)).contains_key(name) <==> value_of(
            fields,
            name,
        ) is Some,
        value_of(fields, name) matches Some(claim) ==> auth_claims(
            JsonModel::Object(fields),
        )[name] == claim,
{
}

/// Where the payload has the namespace, its claims are all of the account claims, and nothing else
/// is: a claim is there just if the namespace has it, with the value that it has there.
pub proof fn law_namespace_is_taken_whole(
    fields: Seq<(Seq<char>, JsonModel)>,
    namespace: Seq<(Seq<char>, JsonModel)>,
    name: Seq<char>,
)
    requires
        value_of(fields, "https://api.openai.com/auth"@) == Some(JsonModel::Object(namespace)),
    ensures
        auth_claims(JsonModel::Object(fields)).contains_key(name) <==> value_of(
            namespace,
            name,
        ) is Some,
        value_of(namespace, name) matches Some(claim) ==> auth_claims(
            JsonModel::Object(fields),
        )[name] == claim,
{
}

/// A payload that is no object has no account claims.
pub proof fn law_only_objects_have_claims(payload: JsonModel, name: Seq<char>)
    requires
        !(payload is Object),
    ensures
        !auth_claims(payload).contains_key(name),
{
}

/// Where the payload has the namespace, nothing outside it counts.
pub proof fn law_namespace_hides_the_rest(
    fields: Seq<(Seq<char>, JsonModel)>,
    others: Seq<(Seq<char>, JsonModel)>,
)
    requires
        value_of(fields, "https://api.openai.com/auth"@) matches Some(JsonModel::Object(_)),
        value_of(others, "https://api.openai.com/auth"@) == value_of(
            fields,
            "https://api.openai.com/auth"@,
        ),
    ensures
        auth_claims(JsonModel::Object(others)) == auth_claims(JsonModel::Object(fields)),
{
}

/// The local redirect is the success page on the given port, whatever the port is, with the
/// streamlined login in its query if that is asked for.
pub proof fn law_local_redirect_is_on_its_port(port: u16, codex_streamlined_login: bool)
    ensures
        success_redirect(port, codex_streamlined_login, LoginSuccessPage::Local)
            == RedirectModel::Local(
            "http://localhost:"@ + decimal(port as nat) + "/success?"@ + (
            if codex_streamlined_login {
                "codex_streamlined_login=true"@
            } else {
                Seq::empty()
            }),
        ),
{
}

/// Two local redirects are the same only if the ports are the same and both or neither are for a
/// streamlined login.
pub proof fn law_local_redirects_tell_ports_apart(a: u16, b: u16, s: bool, t: bool)
    requires
        success_redirect(a, s, LoginSuccessPage::Local) == success_redirect(
            b,
            t,
            LoginSuccessPage::Local,
        ),
    ensures
        a == b,
        s == t,
{
    reveal_strlit("/success?");
    reveal_strlit("codex_streamlined_login=true");
    law_local_redirect_is_on_its_port(a, s);
    law_local_redirect_is_on_its_port(b, t);
    let host = "http://localhost:"@;
    let x = decimal(a as nat);
    let y = decimal(b as nat);
    let xs = "/success?"@ + (if s {
        "codex_streamlined_login=true"@
    } else {
        Seq::empty()
    });
    let ys = "/success?"@ + (if t {
        "codex_streamlined_login=true"@
    } else {
        Seq::empty()
    });
    let text = host + x + xs;
    assert(success_redirect(a, s, LoginSuccessPage::Local)->Local_0 =~= text);
    assert(success_redirect(b, t, LoginSuccessPage::Local)->Local_0 =~= host + y + ys);
    let n = host.len() as int;
    assert(xs[0] == '/' && ys[0] == '/');
    assert(text[n + x.len()] == xs[0]);
    assert(text[n + y.len()] == ys[0]);
    if x.len() < y.len() {
        law_numbers_are_written_with_digits(b as nat, x.len() as int);
        assert(text[n + x.len()] == y[x.len() as int]);
    }
    if y.len() < x.len() {
        law_numbers_are_written_with_digits(a as nat, y.len() as int);
        assert(text[n + y.len()] == x[y.len() as int]);
    }
    assert(x =~= text.subrange(n, n + x.len()));
    assert(y =~= text.subrange(n, n + y.len()));
    law_different_numbers_are_written_differently(a as nat, b as nat);
}

/// The hosted redirect is the page with the query of the login in place of its own, and the brand
/// under its name, whatever the port is.
pub proof fn law_hosted_redirect_is_the_page(
    port: u16,
    codex_streamlined_login: bool,
    url: Url,
    app_brand: LoginSuccessPageBrand,
)
    ensures
        success_redirect(
            port,
            codex_streamlined_login,
            LoginSuccessPage::Hosted { url, app_brand },
        ) == RedirectModel::Hosted(
            url_parts(url).without_query().with_pair("source"@, "login"@).with_pair(
                "app_brand"@,
                match app_brand {
                    LoginSuccessPageBrand::Codex => "codex"@,
                    LoginSuccessPageBrand::Chatgpt => "chatgpt"@,
                },
            ).text(),
        ),
{
    law_hosted_redirect_has_two_pairs(url_parts(url), app_brand);
}

/// The model of a redirect has its kind and its text.
pub proof fn law_model_holds_what_the_redirect_holds(redirect: LoginSuccessRedirect)
    ensures
        match redirect {
            LoginSuccessRedirect::Local(text) => redirect@ == RedirectModel::Local(text@),
            LoginSuccessRedirect::Hosted(text) => redirect@ == RedirectModel::Hosted(text@),
        },
{
}

} // verus!
