use base64::engine::general_purpose::URL_SAFE_NO_PAD;
use base64::Engine;
use hmac::Mac;
use taptap_rback::api::ApiError;
use taptap_rback::api::LoginResponse;
use taptap_rback::api::SdkLoginRequest;
use taptap_rback::config::Config;
use taptap_rback::session::accept_claims;
use taptap_rback::session::finish_login;
use taptap_rback::session::finish_login_at;
use taptap_rback::session::issue_session;
use taptap_rback::session::issue_session_at;
use taptap_rback::json::Json;
use taptap_rback::session::make_claims;
use taptap_rback::session::me;
use taptap_rback::session::me_at;
use taptap_rback::session::read_region;
use taptap_rback::session::sdk_login;
use taptap_rback::session::wants_profile;
use taptap_rback::session::Claims;
use taptap_rback::taptap::AccessToken;
use taptap_rback::taptap::Profile;
use taptap_rback::taptap::Region;
use taptap_rback::taptap::TapClient;
use taptap_rback::taptap::TapError;

fn config(secret: u8) -> Config {
    Config {
        cn_client_id: Some("test-client".into()),
        global_client_id: None,
        session_secret: vec![secret; 32],
        public_base_url: None,
        public_base_path: String::new(),
    }
}

fn user(openid: &str, unionid: &str) -> Profile {
    Profile {
        openid: openid.into(),
        unionid: unionid.into(),
        name: Some("Tester".into()),
        avatar: None,
    }
}

fn token_of<T: AsRef<[u8]>>(header: &str, claims: T, secret: &[u8]) -> String {
    let body = format!("{}.{}", URL_SAFE_NO_PAD.encode(header), URL_SAFE_NO_PAD.encode(claims));
    let mut mac = hmac::Hmac::<sha2::Sha256>::new_from_slice(secret).unwrap();
    mac.update(body.as_bytes());
    format!("{body}.{}", URL_SAFE_NO_PAD.encode(mac.finalize().into_bytes()))
}

fn now() -> u64 {
    std::time::SystemTime::UNIX_EPOCH.elapsed().unwrap().as_secs()
}

fn refusal<T>(res: Result<T, ApiError>) -> (u16, String) {
    match res {
        Ok(_) => panic!("accepted"),
        Err(e) => (e.status.code(), e.error),
    }
}

fn check(token: &str) -> Result<Claims, ApiError> {
    me(&config(42), Some(format!("Bearer {token}").as_str()))
}

fn sdk_body(algorithm: &str, scopes: &[&str]) -> SdkLoginRequest {
    SdkLoginRequest {
        region: Region::Cn,
        access_token: AccessToken {
            kid: "kid-1".into(),
            mac_key: "secret".into(),
            mac_algorithm: Some(algorithm.into()),
        },
        scopes: scopes.iter().map(|scope| scope.to_string()).collect(),
    }
}

#[test]
fn session_token_is_an_hs256_token() {
    let login =
        issue_session_at(&config(42), Region::Cn, user("user-1", "u"), Some(1700000000)).unwrap();
    assert_eq!(
        login.session_token,
        token_of(
            r#"{"typ":"JWT","alg":"HS256"}"#,
            r#"{"iss":"taptap-rback","sub":"user-1","region":"cn","iat":1700000000,"exp":1700086400}"#,
            &[42; 32],
        )
    );
    assert_eq!(login.token_type, "Bearer");
    assert_eq!(login.expires_in, 86400);
    assert_eq!(login.region, Region::Cn);
    assert_eq!(login.user.openid, "user-1");
    assert_eq!(login.user.name.as_deref(), Some("Tester"));
}

#[test]
fn session_gives_back_whom_it_was_issued_to() {
    let openid = "\"\\x\n\u{1f}é</script>";
    let login = issue_session(&config(42), Region::Global, user(openid, "u")).unwrap();
    let claims = check(&login.session_token).unwrap();
    assert_eq!(claims.iss, "taptap-rback");
    assert_eq!(claims.sub, openid);
    assert_eq!(claims.region, Region::Global);
    assert_eq!(claims.exp, claims.iat + 86400);
}

#[test]
fn session_ends_after_a_day_and_the_leeway() {
    let at = |time: u64| -> String {
        let login: LoginResponse =
            issue_session_at(&config(42), Region::Cn, user("user-1", "u"), Some(time)).unwrap();
        login.session_token
    };
    assert!(check(&at(now() - 86400 - 30)).is_ok());
    assert_eq!(refusal(check(&at(now() - 86400 - 90))), (401, "invalid_session".into()));
    assert_eq!(refusal(check(&at(0))), (401, "invalid_session".into()));
}

#[test]
fn session_from_the_future_is_refused() {
    let login =
        issue_session_at(&config(42), Region::Cn, user("user-1", "u"), Some(now() + 1000)).unwrap();
    assert_eq!(refusal(check(&login.session_token)), (401, "invalid_session".into()));
}

#[test]
fn session_under_another_secret_is_refused() {
    let login = issue_session(&config(41), Region::Cn, user("user-1", "u")).unwrap();
    assert_eq!(refusal(check(&login.session_token)), (401, "invalid_session".into()));
}

#[test]
fn profile_without_identity_gets_no_session() {
    for (openid, unionid) in [("", "u"), ("user-1", ""), ("", "")] {
        let res = issue_session(&config(42), Region::Cn, user(openid, unionid));
        assert_eq!(refusal(res), (502, "invalid_taptap_profile".into()));
    }
}

#[test]
fn clock_out_of_range_gives_no_session() {
    let at = |time: Option<u64>| issue_session_at(&config(42), Region::Cn, user("a", "b"), time);
    assert_eq!(refusal(at(None)), (500, "clock_error".into()));
    assert_eq!(refusal(at(Some(u64::MAX - 86399))), (500, "clock_error".into()));
    assert!(at(Some(u64::MAX - 86400)).is_ok());
}

#[test]
fn login_follows_the_answer_of_taptap() {
    let login =
        finish_login(&config(42), Region::Cn, Ok(user("user-1", "vendor-user-1"))).unwrap();
    assert_eq!(login.user.unionid, "vendor-user-1");
    assert_eq!(check(&login.session_token).unwrap().sub, "user-1");
    let refused = finish_login_at(
        &config(42),
        Region::Cn,
        Err(TapError::Rejected("access_denied".into())),
        Some(1),
    );
    assert_eq!(refusal(refused), (401, "access_denied".into()));
    let failed = finish_login(&config(42), Region::Cn, Err(TapError::Upstream));
    assert_eq!(refusal(failed), (502, "taptap_unavailable".into()));
}

#[test]
fn request_without_a_bearer_token_is_refused() {
    for header in [None, Some("Basic x"), Some("bearer x"), Some("Bearer")] {
        assert_eq!(refusal(me(&config(42), header)), (401, "missing_bearer_token".into()));
    }
    assert_eq!(refusal(check("")), (401, "invalid_session".into()));
    assert_eq!(refusal(check("a.b.c")), (401, "invalid_session".into()));
}

#[test]
fn token_of_another_issuer_is_refused() {
    let header = r#"{"typ":"JWT","alg":"HS256"}"#;
    let claims = |iss: &str| {
        format!(
            r#"{{"exp":{},"iat":5,"extra":[1],"iss":"{iss}","sub":"s","region":"global"}}"#,
            now() + 60
        )
    };
    let good = check(&token_of(header, &claims("taptap-rback"), &[42; 32])).unwrap();
    assert_eq!((good.sub.as_str(), good.region, good.iat), ("s", Region::Global, 5));
    let other = check(&token_of(header, &claims("other"), &[42; 32]));
    assert_eq!(refusal(other), (401, "invalid_session".into()));
}

#[test]
fn token_with_other_claims_is_refused() {
    let header = r#"{"typ":"JWT","alg":"HS256"}"#;
    let exp = now() + 60;
    for claims in [
        format!(r#"{{"iss":"taptap-rback","sub":"s","region":"eu","iat":5,"exp":{exp}}}"#),
        format!(r#"{{"iss":"taptap-rback","region":"cn","iat":5,"exp":{exp}}}"#),
        format!(r#"{{"iss":"taptap-rback","sub":"s","region":"cn","iat":-5,"exp":{exp}}}"#),
        r#"{"iss":"taptap-rback","sub":"s","region":"cn","iat":5}"#.to_owned(),
    ] {
        let res = check(&token_of(header, &claims, &[42; 32]));
        assert_eq!(refusal(res), (401, "invalid_session".into()));
    }
}

#[test]
fn token_with_another_algorithm_is_refused() {
    let claims = format!(
        r#"{{"iss":"taptap-rback","sub":"s","region":"cn","iat":5,"exp":{}}}"#,
        now() + 60
    );
    for header in [r#"{"typ":"JWT","alg":"HS512"}"#, r#"{"typ":"JWT","alg":"none"}"#] {
        let res = check(&token_of(header, &claims, &[42; 32]));
        assert_eq!(refusal(res), (401, "invalid_session".into()));
    }
}

#[test]
fn claims_are_held_against_the_clock() {
    let claims = |iat: u64| {
        Some(Claims {
            iss: "taptap-rback".into(),
            sub: "s".into(),
            region: Region::Cn,
            iat,
            exp: 100,
        })
    };
    assert!(accept_claims(claims(10), Some(10)).is_ok());
    assert_eq!(refusal(accept_claims(claims(11), Some(10))), (401, "invalid_session".into()));
    assert_eq!(refusal(accept_claims(claims(10), None)), (500, "clock_error".into()));
    assert_eq!(refusal(accept_claims(None, None)), (401, "invalid_session".into()));
}

#[test]
fn sdk_login_asks_for_the_profile_in_scope() {
    let tap = TapClient::new();
    let ask = |scopes: &[&str]| {
        sdk_login(&config(42), &tap, &sdk_body("hmac-sha-1", scopes)).unwrap().url
    };
    let detailed = "https://open.tapapis.cn/account/profile/v1?client_id=test-client";
    let basic = "https://open.tapapis.cn/account/basic-info/v1?client_id=test-client";
    assert_eq!(ask(&["public_profile"]), detailed);
    assert_eq!(ask(&["basic_info", "public_profile"]), detailed);
    assert_eq!(ask(&["basic_info"]), basic);
    assert_eq!(ask(&[]), basic);
    assert!(!wants_profile(&vec!["Public_profile".to_owned()]));
}

#[test]
fn sdk_login_refuses_what_it_cannot_ask() {
    let tap = TapClient::new();
    let mut body = sdk_body("hmac-sha-1", &[]);
    body.region = Region::Global;
    assert_eq!(
        refusal(sdk_login(&config(42), &tap, &body)),
        (400, "region_not_configured".into())
    );
    let body = sdk_body("unsupported", &[]);
    assert_eq!(refusal(sdk_login(&config(42), &tap, &body)), (401, "invalid_token".into()));
}

#[test]
fn region_of_a_token_may_be_an_object() {
    let header = r#"{"typ":"JWT","alg":"HS256"}"#;
    let exp = now() + 60;
    let with = |region: &str| {
        let claims = format!(
            r#"{{"iss":"taptap-rback","sub":"s","region":{region},"iat":5,"exp":{exp}}}"#
        );
        check(&token_of(header, &claims, &[42; 32]))
    };
    assert_eq!(with(r#"{"cn":null}"#).unwrap().region, Region::Cn);
    assert_eq!(with(r#" { "global" : null } "#).unwrap().region, Region::Global);
    for region in [
        r#"{"eu":null}"#,
        r#"{"cn":1}"#,
        r#"{"cn":null,"global":null}"#,
        "{}",
        "[\"cn\"]",
        "null",
        "-1",
        r#"{"$serde_json::private::RawValue":"\"cn\""}"#,
    ] {
        assert_eq!(refusal(with(region)), (401, "invalid_session".into()));
    }
}

#[test]
fn regions_are_read_off_claims() {
    let nested = |name: &str, value: Option<Json>| Some(vec![(name.to_owned(), value)]);
    assert_eq!(read_region(Some(Json::Text("global".into())), None), Some(Region::Global));
    assert_eq!(read_region(Some(Json::Text("eu".into())), None), None);
    assert_eq!(read_region(None, nested("cn", Some(Json::Null))), Some(Region::Cn));
    assert_eq!(read_region(None, nested("cn", Some(Json::Bool(true)))), None);
    assert_eq!(read_region(None, nested("cn", None)), None);
    assert_eq!(read_region(None, None), None);
    assert_eq!(read_region(Some(Json::Null), nested("cn", Some(Json::Null))), None);
}

#[test]
fn claims_are_made_of_their_values() {
    let text = || Some(Json::Text("x".into()));
    let number = || Some(Json::Unsigned(7));
    let claims = make_claims(text(), text(), Some(Region::Cn), number(), number()).unwrap();
    assert_eq!((claims.iss.as_str(), claims.iat, claims.exp), ("x", 7, 7));
    assert!(make_claims(number(), text(), Some(Region::Cn), number(), number()).is_none());
    assert!(make_claims(text(), None, Some(Region::Cn), number(), number()).is_none());
    assert!(make_claims(text(), text(), None, number(), number()).is_none());
    assert!(make_claims(text(), text(), Some(Region::Cn), text(), number()).is_none());
    assert!(make_claims(text(), text(), Some(Region::Cn), number(), None).is_none());
}

#[test]
fn repeated_claims_are_refused() {
    let header = r#"{"typ":"JWT","alg":"HS256"}"#;
    let exp = now() + 60;
    let with = |extra: &str| {
        let claims = format!(
            r#"{{{extra}"iss":"taptap-rback","sub":"s","region":"cn","iat":5,"exp":{exp}}}"#
        );
        check(&token_of(header, claims, &[42; 32]))
    };
    assert_eq!(with(r#""x":1,"x":2,"#).unwrap().sub, "s");
    for extra in [
        r#""iat":5,"#,
        r#""i\u0061t":5,"#,
        r#""region":"cn","#,
        r#""region":[],"#,
        r#""sub":"s","#,
        r#""iss":"taptap-rback","#,
    ] {
        assert_eq!(refusal(with(extra)), (401, "invalid_session".into()));
    }
}

#[test]
fn repeated_region_in_an_object_is_refused() {
    let header = r#"{"typ":"JWT","alg":"HS256"}"#;
    let claims = format!(
        r#"{{"iss":"taptap-rback","sub":"s","region":{{"cn":null,"cn":null}},"iat":5,"exp":{}}}"#,
        now() + 60
    );
    let res = check(&token_of(header, claims, &[42; 32]));
    assert_eq!(refusal(res), (401, "invalid_session".into()));
}

#[test]
fn bytes_in_unknown_claims_need_not_be_text() {
    let header = r#"{"typ":"JWT","alg":"HS256"}"#;
    let with = |before: &[u8], bytes: &[u8]| {
        let mut claims = before.to_vec();
        claims.extend_from_slice(bytes);
        claims.extend_from_slice(
            format!(r#"","sub":"s","region":"cn","iat":5,"exp":{} }} "#, now() + 60).as_bytes(),
        );
        check(&token_of(header, claims, &[42; 32]))
    };
    let unknown = br#" { "iss" : "taptap-rback","x":""#;
    assert_eq!(with(unknown, &[0xff, 0xc3]).unwrap().sub, "s");
    let known = br#"{"iss":"taptap-rback"#;
    assert_eq!(with(known, &[]).unwrap().sub, "s");
    assert_eq!(refusal(with(known, &[0xff])), (401, "invalid_session".into()));
    let name = br#"{"iss":"taptap-rback","x"#;
    let mut named = name.to_vec();
    named.extend_from_slice(&[0xff]);
    named.extend_from_slice(br#"":""#);
    assert_eq!(refusal(with(&named, &[])), (401, "invalid_session".into()));
}

#[test]
fn session_is_held_against_a_given_clock() {
    let time = now();
    let login =
        issue_session_at(&config(42), Region::Cn, user("user-1", "u"), Some(time)).unwrap();
    let bearing = format!("Bearer {}", login.session_token);
    let at = |clock: Option<u64>| me_at(&config(42), Some(&bearing), clock);
    assert_eq!(at(Some(time)).unwrap().sub, "user-1");
    assert_eq!(refusal(at(Some(time - 1))), (401, "invalid_session".into()));
    assert_eq!(refusal(at(None)), (500, "clock_error".into()));
}

#[test]
fn unknown_claims_are_ignored_whatever_they_hold() {
    let header = r#"{"typ":"JWT","alg":"HS256"}"#;
    let deep = format!("{}{}", "[".repeat(1000), "]".repeat(1000));
    for extra in ["1e999", deep.as_str(), r#"{"$serde_json::private::RawValue":1}"#, "-7"] {
        let claims = format!(
            r#"{{"extra":{extra},"iss":"taptap-rback","sub":"s","region":"cn","iat":5,"exp":{}}}"#,
            now() + 60
        );
        assert_eq!(check(&token_of(header, &claims, &[42; 32])).unwrap().sub, "s");
    }
}

#[test]
fn secrets_that_sign_alike_share_their_sessions() {
    let mut padded = config(42);
    padded.session_secret.push(0);
    let login = issue_session(&padded, Region::Cn, user("user-1", "u")).unwrap();
    assert_eq!(check(&login.session_token).unwrap().sub, "user-1");
}
