use ad_agent_config::json::{parse_json, JsonValue};
use ad_agent_config::jwt::{decode_jwt_payload, jwt_json_payload, jwt_payload, IdTokenInfoError};
use ad_agent_config::success_page::{
    auth_claims_in, checked_compose_success_url, compose_success_url, jwt_auth_claims,
    LoginSuccessPage, LoginSuccessPageBrand, LoginSuccessRedirect, CODEX_OPEN_APP_URL,
};
use ad_agent_config::text::{clean, decimal_text, join_dots, split_dots};
use ad_agent_config::token_data::{
    account_user, expiration, id_token_info, parse_chatgpt_account_user_id,
    parse_chatgpt_jwt_claims, parse_jwt_expiration, AccountUserAuthClaims, AccountUserClaims,
    AuthClaims, IdClaims, IdTokenInfo, KnownPlan, PlanType, ProfileClaims, StandardJwtClaims,
    TokenData,
};
use ad_agent_config::urls::query_text;
use base64::Engine;
use serde_json::Value;
use url::Url;

fn some(value: &str) -> Option<String> {
    Some(value.to_string())
}

fn encode(payload: &str) -> String {
    base64::engine::general_purpose::URL_SAFE_NO_PAD.encode(payload)
}

fn token(payload: &str) -> String {
    format!("header.{}.signature", encode(payload))
}

fn string_at(object: &Value, key: &str) -> Option<String> {
    object.get(key).and_then(Value::as_str).map(str::to_string)
}

fn read_id_claims(bytes: &[u8]) -> Result<IdClaims, serde_json::Error> {
    let value: Value = serde_json::from_slice(bytes)?;
    Ok(IdClaims {
        email: string_at(&value, "email"),
        profile: value
            .get("https://api.openai.com/profile")
            .map(|profile| ProfileClaims {
                email: string_at(profile, "email"),
            }),
        auth: value
            .get("https://api.openai.com/auth")
            .map(|auth| AuthClaims {
                chatgpt_plan_type: string_at(auth, "chatgpt_plan_type").map(PlanType::Unknown),
                chatgpt_user_id: string_at(auth, "chatgpt_user_id"),
                user_id: string_at(auth, "user_id"),
                chatgpt_account_id: string_at(auth, "chatgpt_account_id"),
                chatgpt_account_is_fedramp: auth
                    .get("chatgpt_account_is_fedramp")
                    .and_then(Value::as_bool)
                    .unwrap_or(false),
            }),
        account_id: string_at(&value, "account_id"),
        sub: string_at(&value, "sub"),
    })
}

fn read_account_claims(bytes: &[u8]) -> Result<AccountUserClaims, serde_json::Error> {
    let value: Value = serde_json::from_slice(bytes)?;
    Ok(AccountUserClaims {
        auth: value
            .get("https://api.openai.com/auth")
            .map(|auth| AccountUserAuthClaims {
                chatgpt_account_user_id: string_at(auth, "chatgpt_account_user_id"),
                chatgpt_account_id: string_at(auth, "chatgpt_account_id"),
            }),
    })
}

fn read_standard_claims(bytes: &[u8]) -> Result<StandardJwtClaims, serde_json::Error> {
    let value: Value = serde_json::from_slice(bytes)?;
    Ok(StandardJwtClaims {
        exp: value.get("exp").and_then(Value::as_i64),
    })
}

#[test]
fn namespaced_claims_come_first() {
    let jwt = token(
        r#"{"email":"a@example.com","https://api.openai.com/profile":{"email":"b@example.com"},
            "https://api.openai.com/auth":{"chatgpt_plan_type":"pro","chatgpt_user_id":"user-1",
            "user_id":"user-2","chatgpt_account_id":"acct-1","chatgpt_account_is_fedramp":true},
            "account_id":"acct-flat","sub":"sub-flat"}"#,
    );
    let info = parse_chatgpt_jwt_claims(&jwt, read_id_claims).unwrap();
    assert_eq!(
        info,
        IdTokenInfo {
            email: some("a@example.com"),
            chatgpt_plan_type: Some(PlanType::Unknown("pro".to_string())),
            chatgpt_user_id: some("user-1"),
            chatgpt_account_id: some("acct-1"),
            chatgpt_account_is_fedramp: true,
            raw_jwt: jwt.clone(),
        }
    );
    assert!(info.is_fedramp_account());
}

#[test]
fn missing_namespaced_claims_fall_back() {
    let jwt = token(
        r#"{"https://api.openai.com/profile":{"email":"b@example.com"},
            "https://api.openai.com/auth":{"user_id":"user-2"},
            "account_id":"acct-flat","sub":"sub-flat"}"#,
    );
    let info = parse_chatgpt_jwt_claims(&jwt, read_id_claims).unwrap();
    assert_eq!(info.email, some("b@example.com"));
    assert_eq!(info.chatgpt_user_id, some("user-2"));
    assert_eq!(info.chatgpt_account_id, some("acct-flat"));
    assert!(!info.is_fedramp_account());
}

#[test]
fn flat_claims_give_the_account_alone() {
    let jwt = token(r#"{"email":"a@example.com","account_id":"acct","sub":"user"}"#);
    let info = parse_chatgpt_jwt_claims(&jwt, read_id_claims).unwrap();
    assert_eq!(info.chatgpt_user_id, None);
    assert_eq!(info.chatgpt_account_id, some("acct"));
    assert_eq!(info.chatgpt_plan_type, None);
    assert_eq!(info.raw_jwt, jwt);
    let short = "h.eyJhY2NvdW50X2lkIjoiYSIsInN1YiI6InUifQ.s";
    let info = parse_chatgpt_jwt_claims(short, read_id_claims).unwrap();
    assert_eq!(info.chatgpt_account_id, some("a"));
    assert_eq!(info.chatgpt_user_id, None);
}

#[test]
fn a_malformed_membership_never_breaks_a_login() {
    let infos: Vec<IdTokenInfo> = [
        "",
        r#","chatgpt_account_user_id":"user__acct""#,
        r#","chatgpt_account_user_id":17"#,
        r#","chatgpt_account_user_id":{"no":["text"]}"#,
    ]
    .iter()
    .map(|membership| {
        let jwt = token(&format!(
            r#"{{"https://api.openai.com/auth":{{"chatgpt_account_id":"acct"{}}},"sub":"s"}}"#,
            membership
        ));
        let info = parse_chatgpt_jwt_claims(&jwt, read_id_claims).unwrap();
        IdTokenInfo {
            raw_jwt: String::new(),
            ..info
        }
    })
    .collect();
    for info in &infos {
        assert_eq!(info, &infos[0]);
    }
    assert_eq!(infos[0].chatgpt_account_id, some("acct"));
}

#[test]
fn both_readers_name_the_same_account() {
    for payload in [
        r#"{"account_id":"flat"}"#,
        r#"{"account_id":null}"#,
        r#"{}"#,
        r#"{"https://api.openai.com/auth":{"chatgpt_account_id":"inner"},"account_id":"flat"}"#,
    ] {
        let jwt = token(payload);
        let info = parse_chatgpt_jwt_claims(&jwt, read_id_claims).unwrap();
        let claim = jwt_auth_claims(&jwt)
            .into_iter()
            .find(|claim| claim.0 == "chatgpt_account_id")
            .and_then(|claim| match claim.1 {
                JsonValue::String(text) => Some(text),
                _ => None,
            });
        assert_eq!(claim, info.chatgpt_account_id, "{}", payload);
    }
}

#[test]
fn sub_never_stands_in_for_the_user() {
    let info = id_token_info(
        "h.p.s",
        IdClaims {
            sub: some("user"),
            ..IdClaims::default()
        },
    );
    assert_eq!(info.chatgpt_user_id, None);
    assert_eq!(info.chatgpt_account_id, None);
    let namespaced = id_token_info(
        "h.p.s",
        IdClaims {
            auth: Some(AuthClaims::default()),
            account_id: some("acct"),
            sub: some("user"),
            ..IdClaims::default()
        },
    );
    assert_eq!(namespaced.chatgpt_user_id, None);
    assert_eq!(namespaced.chatgpt_account_id, some("acct"));
}

#[test]
fn the_raw_token_reads_as_the_same_info() {
    let jwt = token(r#"{"account_id":"acct","sub":"user"}"#);
    let info = parse_chatgpt_jwt_claims(&jwt, read_id_claims).unwrap();
    let again = parse_chatgpt_jwt_claims(&info.raw_jwt, read_id_claims).unwrap();
    assert_eq!(again, info);
}

#[test]
fn plans_are_shown_by_name() {
    let known = IdTokenInfo {
        chatgpt_plan_type: Some(PlanType::Known(KnownPlan {
            display_name: "Business".to_string(),
            raw_value: "business".to_string(),
            workspace_account: true,
        })),
        ..IdTokenInfo::default()
    };
    assert_eq!(known.get_chatgpt_plan_type(), some("Business"));
    assert_eq!(known.get_chatgpt_plan_type_raw(), some("business"));
    assert!(known.is_workspace_account());
    let unknown = IdTokenInfo {
        chatgpt_plan_type: Some(PlanType::Unknown("mystery".to_string())),
        ..IdTokenInfo::default()
    };
    assert_eq!(unknown.get_chatgpt_plan_type(), some("mystery"));
    assert_eq!(unknown.get_chatgpt_plan_type_raw(), some("mystery"));
    assert!(!unknown.is_workspace_account());
    let none = TokenData::default().id_token;
    assert_eq!(none.get_chatgpt_plan_type(), None);
    assert_eq!(none.get_chatgpt_plan_type_raw(), None);
    assert!(!none.is_workspace_account());
}

#[test]
fn tokens_without_three_full_parts_are_refused() {
    for jwt in ["", "a", "a.b", ".b.c", "a..c", "a.b.", "..", "a.b..d"] {
        assert!(
            matches!(jwt_payload(jwt), Err(IdTokenInfoError::InvalidFormat)),
            "{}",
            jwt
        );
    }
    assert_eq!(
        IdTokenInfoError::InvalidFormat.message(),
        "invalid ID token format"
    );
}

#[test]
fn wrapped_errors_pass_their_message_on() {
    let base64_error = base64::engine::general_purpose::URL_SAFE_NO_PAD
        .decode("!")
        .unwrap_err();
    assert_eq!(
        jwt_payload("a.!.c").unwrap_err().message(),
        base64_error.to_string()
    );
    assert!(matches!(
        IdTokenInfoError::from(base64_error),
        IdTokenInfoError::Base64(_)
    ));
    let json_error = serde_json::from_str::<Value>("not json").unwrap_err();
    let message = json_error.to_string();
    assert_eq!(
        jwt_json_payload(&token("not json")).unwrap_err().message(),
        message
    );
    let wrapped = IdTokenInfoError::from(json_error);
    assert!(matches!(wrapped, IdTokenInfoError::Json(_)));
    assert_eq!(wrapped.message(), message);
}

#[test]
fn more_than_three_parts_are_no_obstacle_to_the_payload() {
    let jwt = format!("{}.more.parts", token("{}"));
    assert_eq!(jwt_payload(&jwt).unwrap(), b"{}".to_vec());
}

#[test]
fn the_payload_is_decoded_from_the_middle_part() {
    assert_eq!(jwt_payload("h.aGVsbG8.s").unwrap(), b"hello".to_vec());
    assert_eq!(jwt_payload("other.aGVsbG8.sig").unwrap(), b"hello".to_vec());
    assert_eq!(jwt_payload("h.-_-_.s").unwrap(), vec![0xfb, 0xff, 0xbf]);
    assert!(matches!(
        jwt_payload("h.aGVsbG8=.s"),
        Err(IdTokenInfoError::Base64(base64::DecodeError::InvalidPadding))
    ));
    assert!(matches!(
        jwt_payload("h.a!b.s"),
        Err(IdTokenInfoError::Base64(base64::DecodeError::InvalidByte(1, b'!')))
    ));
}

#[test]
fn a_payload_that_does_not_decode_is_a_json_error() {
    let jwt = token("not json");
    assert!(matches!(
        decode_jwt_payload(&jwt, read_standard_claims),
        Err(IdTokenInfoError::Json(_))
    ));
    assert!(matches!(
        parse_chatgpt_jwt_claims(&jwt, read_id_claims),
        Err(IdTokenInfoError::Json(_))
    ));
    assert!(matches!(
        jwt_json_payload(&jwt),
        Err(IdTokenInfoError::Json(_))
    ));
    assert!(matches!(
        parse_chatgpt_jwt_claims("nonsense", read_id_claims),
        Err(IdTokenInfoError::InvalidFormat)
    ));
}

#[test]
fn expiration_is_read_in_seconds() {
    let jwt = token(r#"{"exp":1700000000}"#);
    assert_eq!(
        parse_jwt_expiration(&jwt, read_standard_claims).unwrap(),
        Some(1_700_000_000)
    );
    assert_eq!(
        parse_jwt_expiration(&token("{}"), read_standard_claims).unwrap(),
        None
    );
    assert!(matches!(
        parse_jwt_expiration("a.b", read_standard_claims),
        Err(IdTokenInfoError::InvalidFormat)
    ));
}

#[test]
fn expirations_off_the_calendar_are_none() {
    let at = |seconds: i64| expiration(StandardJwtClaims { exp: Some(seconds) });
    let first: i64 = -8_334_601_228_800;
    let last: i64 = 8_210_266_876_799;
    assert_eq!(at(first), Some(first));
    assert_eq!(at(first - 1), None);
    assert_eq!(at(last), Some(last));
    assert_eq!(at(last + 1), None);
    assert_eq!(at(i64::MIN), None);
    assert_eq!(at(i64::MAX), None);
    assert_eq!(at(0), Some(0));
    assert_eq!(
        chrono::DateTime::<chrono::Utc>::MAX_UTC.timestamp(),
        last
    );
    assert_eq!(
        chrono::DateTime::<chrono::Utc>::MIN_UTC.timestamp(),
        first
    );
}

fn membership(user: &str, account: &str) -> String {
    token(&format!(
        r#"{{"https://api.openai.com/auth":{{"chatgpt_account_user_id":"{}","chatgpt_account_id":"{}"}}}}"#,
        user, account
    ))
}

#[test]
fn account_user_is_read_for_the_same_account() {
    let jwt = membership("user-1__acct-1", "acct-1");
    assert_eq!(
        parse_chatgpt_account_user_id(&jwt, "acct-1", read_account_claims).unwrap(),
        some("user-1__acct-1")
    );
    assert_eq!(
        parse_chatgpt_account_user_id(&jwt, "acct-2", read_account_claims).unwrap(),
        None
    );
}

#[test]
fn unclean_names_give_no_account_user() {
    let jwt = membership("user", "acct");
    for account in ["", " acct", "acct ", "\u{3000}acct", "acct\n", " "] {
        assert_eq!(
            parse_chatgpt_account_user_id(&jwt, account, read_account_claims).unwrap(),
            None
        );
        // An account that names nothing is answered before the token is looked at.
        assert_eq!(
            parse_chatgpt_account_user_id("nonsense", account, read_account_claims).unwrap(),
            None
        );
    }
    for user in ["", " user", "user\u{a0}"] {
        assert_eq!(
            parse_chatgpt_account_user_id(&membership(user, "acct"), "acct", read_account_claims)
                .unwrap(),
            None
        );
    }
    assert_eq!(account_user(AccountUserClaims::default(), "acct"), None);
}

#[test]
fn account_user_needs_exactly_three_parts() {
    let jwt = membership("user", "acct");
    for bad in [format!("{}.more", jwt), "a.b".to_string(), String::new()] {
        assert!(matches!(
            parse_chatgpt_account_user_id(&bad, "acct", read_account_claims),
            Err(IdTokenInfoError::InvalidFormat)
        ));
    }
    assert!(matches!(
        parse_chatgpt_account_user_id("a..c", "acct", read_account_claims),
        Err(IdTokenInfoError::InvalidFormat)
    ));
    assert!(matches!(
        parse_chatgpt_account_user_id("a.!.c", "acct", read_account_claims),
        Err(IdTokenInfoError::Base64(_))
    ));
}

#[test]
fn clean_texts_have_no_white_space_at_the_ends() {
    assert!(clean("a"));
    assert!(clean("a b"));
    assert!(!clean(""));
    for code in (0u32..0x3100).chain([0xfeff, 0x10ffff]) {
        if let Some(c) = char::from_u32(code) {
            let listed = matches!(
                code,
                0x9..=0xd
                    | 0x20
                    | 0x85
                    | 0xa0
                    | 0x1680
                    | 0x2000..=0x200a
                    | 0x2028
                    | 0x2029
                    | 0x202f
                    | 0x205f
                    | 0x3000
            );
            assert_eq!(clean(&format!("a{}", c)), !listed, "{:x}", code);
            assert_eq!(clean(&format!("{}a", c)), !listed, "{:x}", code);
        }
    }
}

#[test]
fn dots_split_and_join() {
    assert_eq!(split_dots(""), vec![""]);
    assert_eq!(split_dots("a"), vec!["a"]);
    assert_eq!(split_dots("a..b."), vec!["a", "", "b", ""]);
    assert_eq!(split_dots("é.日本"), vec!["é", "日本"]);
    assert_eq!(join_dots(&split_dots("a..b.")), "a..b.");
    assert_eq!(join_dots(&Vec::new()), "");
    assert_eq!(
        split_dots(&join_dots(&vec!["x".to_string(), "y".to_string()])),
        vec!["x", "y"]
    );
}

#[test]
fn numbers_are_written_in_decimal() {
    assert_eq!(decimal_text(0), "0");
    assert_eq!(decimal_text(9), "9");
    assert_eq!(decimal_text(10), "10");
    assert_eq!(decimal_text(1455), "1455");
    assert_eq!(decimal_text(65535), "65535");
}

#[test]
fn query_values_are_percent_encoded() {
    assert_eq!(query_text(&Vec::new()), "");
    assert_eq!(
        query_text(&vec![
            ("a", "x y&z".to_string()),
            ("b", "é-_.~".to_string()),
            ("c", String::new()),
        ]),
        "a=x%20y%26z&b=%C3%A9-_.~&c="
    );
}

fn field(key: &str, value: &str) -> (String, JsonValue) {
    (key.to_string(), JsonValue::String(value.to_string()))
}

fn sorted(mut claims: Vec<(String, JsonValue)>) -> Vec<(String, JsonValue)> {
    claims.sort_by(|a, b| a.0.cmp(&b.0));
    claims
}

#[test]
fn claims_come_from_the_namespace() {
    let claims = jwt_auth_claims(&token(
        r#"{"https://api.openai.com/auth":{"chatgpt_account_id":"acct-1"},"account_id":"flat"}"#,
    ));
    assert_eq!(claims, vec![field("chatgpt_account_id", "acct-1")]);
}

#[test]
fn flat_claims_get_the_expected_account_name() {
    let claims = jwt_auth_claims(&token(r#"{"account_id":"acct","sub":"user"}"#));
    assert_eq!(
        sorted(claims),
        vec![
            field("account_id", "acct"),
            field("chatgpt_account_id", "acct"),
            field("sub", "user"),
        ]
    );
    let own = jwt_auth_claims(&token(
        r#"{"account_id":"acct","chatgpt_account_id":"own","https://api.openai.com/auth":"no object"}"#,
    ));
    assert_eq!(
        sorted(own),
        vec![
            field("account_id", "acct"),
            field("chatgpt_account_id", "own"),
            field("https://api.openai.com/auth", "no object"),
        ]
    );
    assert_eq!(
        jwt_auth_claims(&token(r#"{"sub":"user"}"#)),
        vec![field("sub", "user")]
    );
}

#[test]
fn tokens_that_cannot_be_read_have_no_claims() {
    for jwt in [
        "nonsense".to_string(),
        "a.!.c".to_string(),
        token("not json"),
        token("[1]"),
        token("\"text\""),
    ] {
        assert_eq!(jwt_auth_claims(&jwt), Vec::new());
    }
    assert_eq!(auth_claims_in(JsonValue::Null), Vec::new());
}

#[test]
fn every_kind_of_json_value_is_read() {
    assert_eq!(
        parse_json(br#"{"a":null,"b":true,"c":-1.5,"d":"x","e":[12],"f":{"g":false}}"#).unwrap(),
        JsonValue::Object(vec![
            ("a".to_string(), JsonValue::Null),
            ("b".to_string(), JsonValue::Bool(true)),
            ("c".to_string(), JsonValue::Number("-1.5".to_string())),
            field("d", "x"),
            (
                "e".to_string(),
                JsonValue::Array(vec![JsonValue::Number("12".to_string())])
            ),
            (
                "f".to_string(),
                JsonValue::Object(vec![("g".to_string(), JsonValue::Bool(false))])
            ),
        ])
    );
    assert!(parse_json(b"{").is_err());
}

fn hosted(url: &str, app_brand: LoginSuccessPageBrand) -> LoginSuccessPage {
    LoginSuccessPage::Hosted {
        url: Url::parse(url).unwrap(),
        app_brand,
    }
}

fn redirect(page: &LoginSuccessPage, streamlined: bool) -> LoginSuccessRedirect {
    let plain = compose_success_url(1455, "https://issuer", "id", "access", streamlined, page);
    let checked =
        checked_compose_success_url(1455, "other", "token", "secret", streamlined, page).unwrap();
    assert_eq!(plain, checked);
    plain
}

#[test]
fn local_page_is_on_the_given_port() {
    assert_eq!(
        redirect(&LoginSuccessPage::default(), false),
        LoginSuccessRedirect::Local("http://localhost:1455/success?".to_string())
    );
    assert_eq!(
        redirect(&LoginSuccessPage::Local, true),
        LoginSuccessRedirect::Local(
            "http://localhost:1455/success?codex_streamlined_login=true".to_string()
        )
    );
}

#[test]
fn hosted_page_gets_the_brand_in_its_query() {
    assert_eq!(
        redirect(&hosted(CODEX_OPEN_APP_URL, LoginSuccessPageBrand::Codex), true),
        LoginSuccessRedirect::Hosted(
            "https://chatgpt.com/codex/open-app?source=login&app_brand=codex".to_string()
        )
    );
    assert_eq!(
        redirect(
            &hosted("https://example.com/?old=1&x=2#top", LoginSuccessPageBrand::Chatgpt),
            false
        ),
        LoginSuccessRedirect::Hosted(
            "https://example.com/?source=login&app_brand=chatgpt#top".to_string()
        )
    );
    assert_eq!(
        redirect(&hosted("https://example.com?", LoginSuccessPageBrand::Codex), false),
        LoginSuccessRedirect::Hosted(
            "https://example.com/?source=login&app_brand=codex".to_string()
        )
    );
}

#[test]
fn hosted_page_without_a_hierarchy_loses_trailing_spaces() {
    assert_eq!(
        redirect(&hosted("data:page   ?q", LoginSuccessPageBrand::Codex), false),
        LoginSuccessRedirect::Hosted("data:page?source=login&app_brand=codex".to_string())
    );
    let url = Url::parse("data:page   ?q#f").unwrap();
    let mut bare = url.clone();
    bare.set_query(None);
    let expected = format!(
        "{}?source=login&app_brand=codex#f",
        bare.as_str().strip_suffix("#f").unwrap()
    );
    assert_eq!(
        redirect(&hosted("data:page   ?q#f", LoginSuccessPageBrand::Codex), false),
        LoginSuccessRedirect::Hosted(expected)
    );
}

#[test]
fn a_question_mark_in_an_opaque_path_starts_no_query() {
    let mut url = Url::parse("data:page?q#f").unwrap();
    url.set_path("a?b");
    let text = url.as_str().replace("?q", "?source=login&app_brand=codex");
    let page = LoginSuccessPage::Hosted {
        url,
        app_brand: LoginSuccessPageBrand::Codex,
    };
    assert_eq!(redirect(&page, false), LoginSuccessRedirect::Hosted(text));
}

#[test]
fn only_the_base_and_the_fragment_of_a_hosted_page_count() {
    let brand = LoginSuccessPageBrand::Codex;
    assert_eq!(
        redirect(&hosted("https://example.com/p?one=1#end", brand), false),
        redirect(&hosted("https://example.com/p?two=2&three=3#end", brand), true)
    );
}

#[test]
fn brands_have_names() {
    assert_eq!(LoginSuccessPageBrand::Codex.as_str(), "codex");
    assert_eq!(LoginSuccessPageBrand::Chatgpt.as_str(), "chatgpt");
}
