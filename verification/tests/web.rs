use std::collections::HashMap;

use taptap_rback::api::ApiError;
use taptap_rback::api::WebStartResponse;
use taptap_rback::config::public_config;
use taptap_rback::config::Config;
use taptap_rback::flows::FlowTable;
use taptap_rback::taptap::AccessToken;
use taptap_rback::taptap::Profile;
use taptap_rback::taptap::Region;
use taptap_rback::taptap::TapClient;
use taptap_rback::taptap::TapError;
use taptap_rback::web::open_web_flow;
use taptap_rback::web::web_callback;
use taptap_rback::web::web_callback_end;
use taptap_rback::web::web_callback_profile;
use taptap_rback::web::web_callback_profile_at;
use taptap_rback::web::web_callback_token;
use taptap_rback::web::web_start;
use taptap_rback::web::CallbackNext;
use taptap_rback::web::CallbackStart;
use taptap_rback::web::Page;
use taptap_rback::web::WebCallbackQuery;
use taptap_rback::web::WebExchange;
use taptap_rback::web::WebFlow;

const SECOND: u128 = 1_000_000_000;
const BASE: &str = "http://127.0.0.1:3000";

fn config() -> Config {
    Config {
        cn_client_id: Some("test-client".into()),
        global_client_id: None,
        session_secret: vec![42; 32],
        public_base_url: Some(BASE.into()),
        public_base_path: "/taptap".into(),
    }
}

fn token() -> AccessToken {
    AccessToken {
        kid: "kid-1".into(),
        mac_key: "secret".into(),
        mac_algorithm: Some("hmac-sha-1".into()),
    }
}

fn user() -> Profile {
    Profile {
        openid: "user-1".into(),
        unionid: "vendor-user-1".into(),
        name: Some("Tester".into()),
        avatar: Some("https://example.test/avatar".into()),
    }
}

fn query(code: Option<&str>, state: Option<&str>, error: Option<&str>) -> WebCallbackQuery {
    WebCallbackQuery {
        code: code.map(str::to_owned),
        state: state.map(str::to_owned),
        error: error.map(str::to_owned),
    }
}

fn random() -> Option<Vec<u8>> {
    Some((0u8..64).collect())
}

fn refusal<T>(res: Result<T, ApiError>) -> (u16, String) {
    match res {
        Ok(_) => panic!("accepted"),
        Err(e) => (e.status.code(), e.error),
    }
}

fn parameters(response: &WebStartResponse) -> HashMap<String, String> {
    let url = reqwest::Url::parse(&response.authorize_url).unwrap();
    url.query_pairs().map(|(name, value)| (name.to_string(), value.to_string())).collect()
}

fn answered(flows: &mut FlowTable<WebFlow>, query: &WebCallbackQuery, now: u128) -> Page {
    match web_callback(flows, &config(), &TapClient::new(), query, now) {
        CallbackStart::Answer(page) => page,
        CallbackStart::Wait(_) => panic!("told to wait"),
        CallbackStart::Ask(_, _) => panic!("asked"),
    }
}

fn asked(flows: &mut FlowTable<WebFlow>, query: &WebCallbackQuery, now: u128) -> WebExchange {
    match web_callback(flows, &config(), &TapClient::new(), query, now) {
        CallbackStart::Ask(exchange, _) => exchange,
        CallbackStart::Wait(_) => panic!("told to wait"),
        CallbackStart::Answer(_) => panic!("answered"),
    }
}

fn told(exchange: &WebExchange, reply: Result<AccessToken, TapError>) -> Page {
    match web_callback_token(&config(), &TapClient::new(), exchange, reply) {
        CallbackNext::Answer(page) => page,
        CallbackNext::Ask(_) => panic!("asked"),
    }
}

fn opened() -> (FlowTable<WebFlow>, String) {
    let mut flows = FlowTable::new();
    open_web_flow(&mut flows, &config(), Region::Cn, random(), 0).unwrap();
    (flows, "AAECAwQFBgcICQoLDA0ODxAREhMUFRYXGBkaGxwdHh8".into())
}

#[test]
fn web_login_exchanges_code_and_consumes_state() {
    let config = config();
    let tap = TapClient::new().with_hosts("http://127.0.0.1:1", "http://127.0.0.1:2");
    assert!(public_config(&config).web);

    let mut flows = FlowTable::new();
    let start = web_start(&mut flows, &config, Region::Cn, 0).unwrap();
    let authorize = reqwest::Url::parse(&start.authorize_url).unwrap();
    assert_eq!(authorize.host_str(), Some("accounts.taptap.cn"));
    assert_eq!(authorize.path(), "/authorize");
    let params = parameters(&start);
    assert_eq!(params.get("client_id").map(String::as_str), Some("test-client"));
    let expected_redirect = format!("{BASE}/auth/taptap/web/callback");
    assert_eq!(params.get("redirect_uri"), Some(&expected_redirect));
    assert_eq!(params.get("code_challenge_method").map(String::as_str), Some("S256"));
    assert!(params.contains_key("code_challenge"));
    let flow_state = params.get("state").unwrap().as_str();

    let wrong_state = answered(&mut flows, &query(Some("code-1"), Some("wrong"), None), 1);
    assert_eq!(wrong_state.status.code(), 404);

    let callback = query(Some("code-1"), Some(flow_state), None);
    let (mut exchange, request) = match web_callback(&mut flows, &config, &tap, &callback, 2) {
        CallbackStart::Ask(exchange, request) => (exchange, request),
        _ => panic!("not asked"),
    };
    assert_eq!(request.url, "http://127.0.0.1:1/oauth2/v1/token");
    let form: HashMap<String, String> = request.form.into_iter().collect();
    assert_eq!(form.get("grant_type").map(String::as_str), Some("authorization_code"));
    assert_eq!(form.get("client_id").map(String::as_str), Some("test-client"));
    assert_eq!(form.get("code").map(String::as_str), Some("code-1"));
    assert!(form.get("redirect_uri").is_some_and(|v| v.ends_with("/auth/taptap/web/callback")));
    assert!(form.get("code_verifier").is_some_and(|v| v.len() >= 43));

    let request = match web_callback_token(&config, &tap, &exchange, Ok(token())) {
        CallbackNext::Ask(request) => request,
        CallbackNext::Answer(_) => panic!("answered"),
    };
    assert_eq!(request.url, "http://127.0.0.1:2/account/profile/v1?client_id=test-client");
    assert!(request.authorization.starts_with("MAC id=\"kid-1\""));
    let page = web_callback_profile(&config, &mut exchange, Ok(user()));
    web_callback_end(&mut flows, exchange);
    assert_eq!(page.status.code(), 200);
    assert!(page.html.contains("taptap_game_session"));
    assert!(page.html.contains("eyJ"));
    assert!(page.html.contains("location.replace"));
    assert!(page.html.contains(r#"location.replace("/taptap/")"#));

    let replay = answered(&mut flows, &callback, 3);
    assert_eq!(replay.status.code(), 404);

    let denied = answered(&mut flows, &query(None, Some(flow_state), Some("access_denied")), 4);
    assert_eq!(denied.status.code(), 400);
    assert!(denied.html.contains("access_denied"));
    assert!(denied.html.contains(r#"href="/taptap/""#));
}

#[test]
fn start_leads_to_the_page_of_the_region() {
    let mut config = config();
    config.global_client_id = Some("a b".into());
    config.public_base_url = Some("https://example.test//".into());
    let mut flows = FlowTable::new();
    let start = open_web_flow(&mut flows, &config, Region::Global, random(), 7).unwrap();
    assert_eq!(
        start.authorize_url,
        "https://www.taptapauth.com/authorize?client_id=a+b&response_type=code\
         &redirect_uri=https%3A%2F%2Fexample.test%2Fauth%2Ftaptap%2Fweb%2Fcallback\
         &state=AAECAwQFBgcICQoLDA0ODxAREhMUFRYXGBkaGxwdHh8\
         &code_challenge=zwkx4Wi0nph1A8rxivb-JTtrPYKoEAjD6OHuZ8fI3FU\
         &code_challenge_method=S256&scope=public_profile"
    );
    assert_eq!(start.expires_in, 600);
    let flow = flows.get("AAECAwQFBgcICQoLDA0ODxAREhMUFRYXGBkaGxwdHh8").unwrap().unwrap();
    assert_eq!(flow.code_verifier, "ICEiIyQlJicoKSorLC0uLzAxMjM0NTY3ODk6Ozw9Pj8");
    assert_eq!(flow.redirect_uri, "https://example.test/auth/taptap/web/callback");
    assert_eq!(flow.expires_at, 7 + 600 * SECOND);
    assert_eq!(flow.region, Region::Global);
    assert!(!flow.finished);
}

#[test]
fn start_that_cannot_be_made_is_refused() {
    let mut flows = FlowTable::new();
    let mut bare = config();
    bare.public_base_url = None;
    let res = web_start(&mut flows, &bare, Region::Global, 0);
    assert_eq!(refusal(res), (400, "web_login_not_configured".into()));
    let res = web_start(&mut flows, &config(), Region::Global, 0);
    assert_eq!(refusal(res), (400, "region_not_configured".into()));
    let res = open_web_flow(&mut flows, &config(), Region::Cn, None, 0);
    assert_eq!(refusal(res), (500, "random_error".into()));
    assert_eq!(flows.len(), 0);
}

#[test]
fn each_start_has_a_name_and_a_challenge_of_its_own() {
    let mut flows = FlowTable::new();
    let first = parameters(&web_start(&mut flows, &config(), Region::Cn, 0).unwrap());
    let second = parameters(&web_start(&mut flows, &config(), Region::Cn, 0).unwrap());
    assert_ne!(first.get("state"), second.get("state"));
    assert_ne!(first.get("code_challenge"), second.get("code_challenge"));
    assert_eq!(flows.len(), 2);
}

#[test]
fn only_so_many_logins_are_open_in_browsers() {
    let mut flows = FlowTable::new();
    for n in 0..10_000u32 {
        let mut random = vec![0; 60];
        random.splice(0..0, n.to_be_bytes());
        assert!(open_web_flow(&mut flows, &config(), Region::Cn, Some(random), 0).is_ok());
    }
    let res = open_web_flow(&mut flows, &config(), Region::Cn, Some(vec![9; 64]), 599 * SECOND);
    assert_eq!(refusal(res), (503, "too_many_flows".into()));
    let res = open_web_flow(&mut flows, &config(), Region::Cn, Some(vec![9; 64]), 600 * SECOND);
    assert!(res.is_ok());
    assert_eq!(flows.len(), 1);
}

#[test]
fn exchange_proves_possession() {
    let (mut flows, state) = opened();
    let callback = query(Some("code-1"), Some(&state), None);
    let request = match web_callback(&mut flows, &config(), &TapClient::new(), &callback, 1) {
        CallbackStart::Ask(_, request) => request,
        _ => panic!("not asked"),
    };
    assert_eq!(request.url, "https://accounts.tapapis.cn/oauth2/v1/token");
    let form: HashMap<String, String> = request.form.into_iter().collect();
    assert_eq!(form["code_verifier"], "ICEiIyQlJicoKSorLC0uLzAxMjM0NTY3ODk6Ozw9Pj8");
    assert_eq!(form["redirect_uri"], "http://127.0.0.1:3000/auth/taptap/web/callback");
}

#[test]
fn incomplete_callback_is_refused() {
    let (mut flows, state) = opened();
    for callback in [
        query(None, Some(&state), None),
        query(Some("code-1"), None, None),
        query(None, None, None),
    ] {
        let page = answered(&mut flows, &callback, 1);
        assert_eq!(page.status.code(), 400);
        assert!(page.html.contains("<p>回调参数不完整</p>"));
    }
    let page = answered(&mut flows, &query(Some("c"), Some("unknown"), None), 1);
    assert_eq!(page.status.code(), 404);
    assert!(page.html.contains("<p>登录流程不存在或已过期，请重新发起</p>"));
    assert!(!flows.get(&state).unwrap().unwrap().finished);
}

#[test]
fn denial_is_shown_escaped_and_uses_nothing_up() {
    let (mut flows, state) = opened();
    let page = answered(&mut flows, &query(Some("c"), Some(&state), Some("<b>\"no\"&")), 1);
    assert_eq!(page.status.code(), 400);
    assert!(page.html.contains("<p>TapTap 返回错误：&lt;b&gt;&quot;no&quot;&amp;</p>"));
    asked(&mut flows, &query(Some("c"), Some(&state), None), 1);
}

#[test]
fn state_is_used_up_by_a_failure_too() {
    let (mut flows, state) = opened();
    let callback = query(Some("code-1"), Some(&state), None);
    let exchange = asked(&mut flows, &callback, 1);
    match web_callback(&mut flows, &config(), &TapClient::new(), &callback, 2) {
        CallbackStart::Wait(page) => {
            assert_eq!(page.status.code(), 404);
            assert!(page.html.contains("<p>登录流程已被使用，请重新发起</p>"));
        }
        _ => panic!("not told to wait"),
    }
    let page = told(&exchange, Err(TapError::Rejected("invalid_grant".into())));
    assert_eq!(page.status.code(), 400);
    assert!(page.html.contains("<p>授权凭证校验失败，请重试</p>"));
    web_callback_end(&mut flows, exchange);
    let page = answered(&mut flows, &callback, 3);
    assert_eq!(page.status.code(), 404);
    assert!(page.html.contains("<p>登录流程已被使用，请重新发起</p>"));
    assert_eq!(flows.len(), 1);
    flows.clear_stale(4);
    assert_eq!(flows.len(), 0);
}

#[test]
fn expired_login_in_the_browser_is_gone() {
    let (mut flows, state) = opened();
    let callback = query(Some("code-1"), Some(&state), None);
    let page = answered(&mut flows, &callback, 600 * SECOND);
    assert_eq!(page.status.code(), 410);
    assert!(page.html.contains("<p>登录流程已过期，请重新发起</p>"));
    assert_eq!(flows.len(), 0);
    assert_eq!(answered(&mut flows, &callback, 1).status.code(), 404);
}

#[test]
fn region_that_lost_its_client_is_refused() {
    let (mut flows, state) = opened();
    let callback = query(Some("code-1"), Some(&state), None);
    let mut other = config();
    other.cn_client_id = None;
    let page = match web_callback(&mut flows, &other, &TapClient::new(), &callback, 1) {
        CallbackStart::Answer(page) => page,
        _ => panic!("not answered"),
    };
    assert_eq!(page.status.code(), 400);
    assert!(page.html.contains("<p>该区域未配置</p>"));
    assert_eq!(answered(&mut flows, &callback, 2).status.code(), 404);
}

#[test]
fn failures_behind_the_exchange_are_shown() {
    let (mut flows, state) = opened();
    let mut exchange = asked(&mut flows, &query(Some("c"), Some(&state), None), 1);
    assert_eq!(told(&exchange, Err(TapError::Upstream)).status.code(), 502);
    let page = told(&exchange, Ok(AccessToken { mac_key: String::new(), ..token() }));
    assert_eq!(page.status.code(), 401);
    assert!(page.html.contains("<p>获取用户信息失败，请重试</p>"));
    let page = web_callback_profile(
        &config(),
        &mut exchange,
        Err(TapError::Rejected("access_denied".into())),
    );
    assert_eq!(page.status.code(), 401);
    assert!(page.html.contains("<p>获取用户信息失败，请重试</p>"));
    let nobody = Profile { openid: String::new(), ..user() };
    let page = web_callback_profile_at(&config(), &mut exchange, Ok(nobody), Some(1));
    assert_eq!(page.status.code(), 502);
    assert!(page.html.contains("<p>建立游戏会话失败，请重试</p>"));
    let page = web_callback_profile_at(&config(), &mut exchange, Ok(user()), None);
    assert_eq!(page.status.code(), 500);
    assert!(!exchange.complete);
    let page = web_callback_profile_at(&config(), &mut exchange, Ok(user()), Some(1));
    assert_eq!(page.status.code(), 200);
    assert!(exchange.complete);
    web_callback_end(&mut flows, exchange);
    assert_eq!(flows.len(), 0);
}

#[test]
fn callback_leaves_other_logins_alone() {
    let (mut flows, state) = opened();
    open_web_flow(&mut flows, &config(), Region::Cn, Some(vec![9; 64]), 0).unwrap();
    let other = "CQkJCQkJCQkJCQkJCQkJCQkJCQkJCQkJCQkJCQkJCQk";
    let exchange = asked(&mut flows, &query(Some("c"), Some(&state), None), 1);
    assert!(!flows.get(other).unwrap().unwrap().finished);
    flows.clear_stale(700 * SECOND);
    assert!(flows.get(other).is_none());
    assert!(matches!(flows.get(&state), Some(None)));
    web_callback_end(&mut flows, exchange);
    assert!(flows.get(&state).unwrap().unwrap().finished);
}
