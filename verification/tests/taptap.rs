use taptap_rback::api::tap_error;
use taptap_rback::api::Status;
use taptap_rback::taptap::mac_header;
use taptap_rback::taptap::AccessToken;
use taptap_rback::taptap::FormRequest;
use taptap_rback::taptap::Region;
use taptap_rback::taptap::TapClient;
use taptap_rback::taptap::TapError;

fn token(algorithm: &str) -> AccessToken {
    AccessToken {
        kid: "kid-1".into(),
        mac_key: "secret".into(),
        mac_algorithm: Some(algorithm.into()),
    }
}

#[test]
fn mac_signature_matches_independent_vector() {
    let header = mac_header(
        &token("hmac-sha-1"),
        1618221750,
        "adssd",
        "GET",
        "/account/profile/v1?client_id=abc",
        "open.tapapis.cn",
        "443",
    )
    .unwrap();
    assert_eq!(
        header,
        "MAC id=\"kid-1\",ts=\"1618221750\",nonce=\"adssd\",mac=\"D+UpOI4b0RucsB5m+rYmOqmbbN0=\""
    );
}

#[test]
fn sha256_signature_matches_sdk_supported_algorithm() {
    let header = mac_header(
        &token("hmac-sha-256"),
        1618221750,
        "adssd",
        "GET",
        "/account/profile/v1?client_id=abc",
        "open.tapapis.cn",
        "443",
    )
    .unwrap();
    assert_eq!(
        header,
        "MAC id=\"kid-1\",ts=\"1618221750\",nonce=\"adssd\",mac=\"XilXQH6V0RdvM2IdCejN9jpmEr9BeUucnoMsiUC/EGk=\""
    );
}

const NONCE: [u8; 16] = [
    0x00, 0x11, 0x22, 0x33, 0x44, 0x55, 0x66, 0x77, 0x88, 0x99, 0xaa, 0xbb, 0xcc, 0xdd, 0xee, 0xff,
];

fn rejected<T>(res: Result<T, TapError>) -> String {
    match res {
        Err(TapError::Rejected(code)) => code,
        _ => panic!("not rejected"),
    }
}

fn pairs(request: &FormRequest) -> Vec<(&str, &str)> {
    request.form.iter().map(|(name, value)| (name.as_str(), value.as_str())).collect()
}

#[test]
fn regions_have_hosts_of_their_own() {
    assert_eq!(Region::Cn.accounts_host(), "https://accounts.tapapis.cn");
    assert_eq!(Region::Global.accounts_host(), "https://accounts.tapapis.com");
    assert_eq!(Region::Cn.open_host(), "https://open.tapapis.cn");
    assert_eq!(Region::Global.open_host(), "https://open.tapapis.com");
    assert_eq!(Region::Cn.authorize_host(), "https://accounts.taptap.cn");
    assert_eq!(Region::Global.authorize_host(), "https://www.taptapauth.com");
    assert_eq!(Region::Cn.name(), "cn");
    assert_eq!(Region::Global.name(), "global");
}

#[test]
fn algorithm_defaults_to_sha1() {
    let plain = AccessToken { kid: "kid-1".into(), mac_key: "secret".into(), mac_algorithm: None };
    let named = token("hmac-sha-1");
    let sign = |token: &AccessToken| mac_header(token, 1, "n", "GET", "/", "h", "443").unwrap();
    assert_eq!(sign(&plain), sign(&named));
    assert_ne!(sign(&plain), sign(&token("hmac-sha-256")));
}

#[test]
fn unknown_algorithm_is_rejected() {
    let res = mac_header(&token("unsupported"), 1, "n", "GET", "/", "h", "443");
    assert_eq!(rejected(res), "invalid_token");
}

#[test]
fn key_id_that_breaks_the_header_is_rejected() {
    for kid in ["a\"b", "a b", "a\n", "é", "\u{7f}", "a,\"ts"] {
        let bad =
            AccessToken { kid: kid.into(), mac_key: "secret".into(), mac_algorithm: None };
        assert_eq!(rejected(mac_header(&bad, 1, "n", "GET", "/", "h", "443")), "invalid_token");
    }
    let good = AccessToken { kid: "!~',".into(), mac_key: "secret".into(), mac_algorithm: None };
    let header = mac_header(&good, 1, "n", "GET", "/", "h", "443").unwrap();
    assert!(header.starts_with("MAC id=\"!~',\",ts=\"1\",nonce=\"n\",mac=\""));
}

#[test]
fn profile_request_is_signed_with_its_query() {
    let tap = TapClient::new();
    let request = tap
        .profile_at(
            Region::Global,
            "a b&c中",
            &token("hmac-sha-1"),
            true,
            Some(1618221750),
            Some(NONCE.to_vec()),
        )
        .unwrap();
    assert_eq!(
        request.url,
        "https://open.tapapis.com/account/profile/v1?client_id=a+b%26c%E4%B8%AD"
    );
    assert_eq!(
        request.authorization,
        "MAC id=\"kid-1\",ts=\"1618221750\",nonce=\"00112233445566778899aabbccddeeff\",\
         mac=\"wmbTLMlziWp6zBRdqUQmg1xch34=\""
    );
}

#[test]
fn basic_profile_has_a_path_of_its_own() {
    let tap = TapClient::new();
    let request = tap
        .profile_at(
            Region::Cn,
            "test-client",
            &token("hmac-sha-1"),
            false,
            Some(7),
            Some(NONCE.to_vec()),
        )
        .unwrap();
    assert_eq!(
        request.url,
        "https://open.tapapis.cn/account/basic-info/v1?client_id=test-client"
    );
    assert!(request.authorization.ends_with("mac=\"emgiw92Dui57B4HFvqLvJoczxV8=\""));
}

#[test]
fn profile_request_without_time_or_nonce_fails() {
    let tap = TapClient::new();
    let at = |ts: Option<u64>, nonce: Option<Vec<u8>>| {
        tap.profile_at(Region::Cn, "c", &token("hmac-sha-1"), true, ts, nonce)
    };
    assert!(matches!(at(None, Some(NONCE.to_vec())), Err(TapError::Malformed)));
    assert!(matches!(at(Some(1), None), Err(TapError::Malformed)));
    assert!(at(Some(1), Some(NONCE.to_vec())).is_ok());
}

#[test]
fn incomplete_credential_is_rejected() {
    let tap = TapClient::new();
    for (kid, mac_key) in [("", "secret"), ("kid-1", "")] {
        let bad =
            AccessToken { kid: kid.into(), mac_key: mac_key.into(), mac_algorithm: None };
        assert_eq!(rejected(tap.profile(Region::Cn, "c", &bad, true)), "invalid_token");
    }
}

#[test]
fn profile_request_has_a_fresh_nonce() {
    let tap = TapClient::new();
    let ask = || tap.profile(Region::Cn, "c", &token("hmac-sha-256"), true).unwrap();
    let first = ask();
    let second = ask();
    assert_eq!(first.url, "https://open.tapapis.cn/account/profile/v1?client_id=c");
    assert_eq!(first.url, second.url);
    assert!(first.authorization.starts_with("MAC id=\"kid-1\",ts=\""));
    assert_ne!(first.authorization, second.authorization);
}

#[test]
fn other_hosts_serve_the_region_cn_only() {
    let tap = TapClient::new().with_hosts("http://127.0.0.1:1", "http://127.0.0.1:2");
    assert_eq!(tap.device_code(Region::Cn, "c").url, "http://127.0.0.1:1/oauth2/v1/device/code");
    assert_eq!(
        tap.device_code(Region::Global, "c").url,
        "https://accounts.tapapis.com/oauth2/v1/device/code"
    );
    let request = tap.profile(Region::Cn, "c", &token("hmac-sha-1"), true).unwrap();
    assert_eq!(request.url, "http://127.0.0.1:2/account/profile/v1?client_id=c");
    let request = tap.profile(Region::Global, "c", &token("hmac-sha-1"), true).unwrap();
    assert_eq!(request.url, "https://open.tapapis.com/account/profile/v1?client_id=c");
}

#[test]
fn host_that_is_no_url_is_malformed() {
    let tap = TapClient::new().with_hosts("", "no url");
    let res = tap.profile(Region::Cn, "c", &token("hmac-sha-1"), true);
    assert!(matches!(res, Err(TapError::Malformed)));
}

#[test]
fn device_requests_carry_their_forms() {
    let tap = TapClient::new();
    let start = tap.device_code(Region::Cn, "test-client");
    assert_eq!(start.url, "https://accounts.tapapis.cn/oauth2/v1/device/code");
    assert_eq!(
        pairs(&start),
        [("client_id", "test-client"), ("response_type", "device_code"), ("scope", "public_profile")]
    );
    let poll = tap.device_token(Region::Global, "test-client", "device-secret");
    assert_eq!(poll.url, "https://accounts.tapapis.com/oauth2/v1/token");
    assert_eq!(
        pairs(&poll),
        [
            ("grant_type", "device_token"),
            ("client_id", "test-client"),
            ("secret_type", "hmac-sha-1"),
            ("code", "device-secret"),
        ]
    );
}

#[test]
fn exchange_request_carries_its_form() {
    let tap = TapClient::new();
    let request = tap.exchange_code(Region::Cn, "test-client", "code-1", "http://h/cb", "verifier");
    assert_eq!(request.url, "https://accounts.tapapis.cn/oauth2/v1/token");
    assert_eq!(
        pairs(&request),
        [
            ("client_id", "test-client"),
            ("grant_type", "authorization_code"),
            ("secret_type", "hmac-sha-1"),
            ("code", "code-1"),
            ("redirect_uri", "http://h/cb"),
            ("code_verifier", "verifier"),
        ]
    );
}

#[test]
fn reply_with_success_gives_its_data() {
    let data = TapClient::parse_response(
        br#" {"success": true, "data": {"b": [1, 2.5, null], "a": "x\u00e9"}} "#,
    );
    assert_eq!(data.unwrap(), "{\"b\":[1,2.5,null],\"a\":\"xé\"}");
    assert_eq!(TapClient::parse_response(br#"{"success":true,"data":["k"]}"#).unwrap(), "[\"k\"]");
}

#[test]
fn reply_without_success_gives_its_code() {
    let code = |body: &str| rejected(TapClient::parse_response(body.as_bytes()));
    assert_eq!(
        code(r#"{"success":false,"data":{"error":"authorization_pending"}}"#),
        "authorization_pending"
    );
    assert_eq!(code(r#"{"data":{"error":"slow_down"}}"#), "slow_down");
    assert_eq!(code(r#"{"success":"true","data":{"error":"x"}}"#), "x");
    assert_eq!(code(r#"{"success":false,"data":{"error":7}}"#), "unknown_error");
    assert_eq!(code(r#"{"success":false,"data":{}}"#), "unknown_error");
    assert_eq!(code(r#"{"success":false,"data":null}"#), "unknown_error");
    assert_eq!(code(r#"{"success":false,"data":"error"}"#), "unknown_error");
}

#[test]
fn reply_that_makes_no_sense_is_malformed() {
    for body in [
        "",
        "not json",
        "[]",
        "\"data\"",
        r#"{"success":true}"#,
        r#"{"success":true,"data":null}"#,
        r#"{"success":true,"data":"text"}"#,
        r#"{"success":true,"data":7}"#,
        r#"{"success":true,"data":-7}"#,
        r#"{"success":true,"data":0.5}"#,
        r#"{"success":true,"data":{"a":1e999}}"#,
        r#"{"success":true,"data":{}} trailing"#,
    ] {
        assert!(matches!(TapClient::parse_response(body.as_bytes()), Err(TapError::Malformed)));
    }
}

#[test]
fn failures_at_taptap_are_answered() {
    let answer = |e: TapError| {
        let answer = tap_error(e);
        (answer.status.code(), answer.error)
    };
    assert_eq!(answer(TapError::Rejected("access_denied".into())), (401, "access_denied".into()));
    assert_eq!(answer(TapError::Rejected("invalid_token".into())), (401, "invalid_token".into()));
    assert_eq!(answer(TapError::Rejected("other".into())), (400, "other".into()));
    assert_eq!(answer(TapError::Upstream), (502, "taptap_unavailable".into()));
    assert_eq!(answer(TapError::Malformed), (502, "taptap_unavailable".into()));
    assert_eq!(Status::Success.code(), 200);
    assert_eq!(Status::Accepted.code(), 202);
    assert_eq!(Status::NotFound.code(), 404);
    assert_eq!(Status::Gone.code(), 410);
    assert_eq!(Status::InternalServerError.code(), 500);
    assert_eq!(Status::ServiceUnavailable.code(), 503);
}

#[test]
fn reply_is_read_as_a_json_value() {
    let body = r#"{"$serde_json::private::RawValue":"{\"success\":true,\"data\":{\"a\":1}}"}"#;
    assert_eq!(TapClient::parse_response(body.as_bytes()).unwrap(), "{\"a\":1}");
    let data = r#"{"success":true,"data":{"$serde_json::private::RawValue":"[2]"}}"#;
    assert_eq!(TapClient::parse_response(data.as_bytes()).unwrap(), "[2]");
}

#[test]
fn host_with_a_fragment_is_taken() {
    let tap = TapClient::new().with_hosts("", "http://h/p#f");
    let request = tap.profile(Region::Cn, "c", &token("hmac-sha-1"), true).unwrap();
    assert_eq!(request.url, "http://h/p?client_id=c#f/account/profile/v1");
}
