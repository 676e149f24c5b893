use taptap_rback::api::ApiError;
use taptap_rback::api::DeviceStartResponse;
use taptap_rback::api::PollResponse;
use taptap_rback::api::SdkLoginRequest;
use taptap_rback::config::Config;
use taptap_rback::device::device_poll;
use taptap_rback::device::device_poll_end;
use taptap_rback::device::device_poll_profile;
use taptap_rback::device::device_poll_profile_at;
use taptap_rback::device::device_poll_token;
use taptap_rback::device::device_start;
use taptap_rback::device::device_started;
use taptap_rback::device::open_device_flow;
use taptap_rback::device::DeviceFlow;
use taptap_rback::device::DevicePoll;
use taptap_rback::device::PollNext;
use taptap_rback::device::PollReply;
use taptap_rback::device::PollStart;
use taptap_rback::flows::FlowTable;
use taptap_rback::session::finish_login;
use taptap_rback::session::me;
use taptap_rback::session::sdk_login;
use taptap_rback::taptap::AccessToken;
use taptap_rback::taptap::DeviceCode;
use taptap_rback::taptap::Profile;
use taptap_rback::taptap::Region;
use taptap_rback::taptap::TapClient;
use taptap_rback::taptap::TapError;

const SECOND: u128 = 1_000_000_000;

fn config() -> Config {
    Config {
        cn_client_id: Some("test-client".into()),
        global_client_id: None,
        session_secret: vec![42; 32],
        public_base_url: None,
        public_base_path: String::new(),
    }
}

fn code() -> DeviceCode {
    DeviceCode {
        device_code: "device-secret".into(),
        qrcode_url: "https://example.test/scan".into(),
        expires_in: 30,
        interval: 1,
    }
}

fn token() -> AccessToken {
    AccessToken {
        kid: "kid-1".into(),
        mac_key: "secret".into(),
        mac_algorithm: Some("hmac-sha-1".into()),
    }
}

fn user() -> Profile {
    Profile {
        openid: "user-1".into(),
        unionid: "vendor-user-1".into(),
        name: Some("Tester".into()),
        avatar: Some("https://example.test/avatar".into()),
    }
}

fn rejected<T>(code: &str) -> Result<T, TapError> {
    Err(TapError::Rejected(code.into()))
}

fn refusal<T>(res: Result<T, ApiError>) -> (u16, String) {
    match res {
        Ok(_) => panic!("accepted"),
        Err(e) => (e.status.code(), e.error),
    }
}

fn started(code: DeviceCode, now: u128) -> (FlowTable<DeviceFlow>, DeviceStartResponse) {
    let mut flows = FlowTable::new();
    let response = device_started(&mut flows, Region::Cn, Ok(code), now).unwrap();
    (flows, response)
}

fn asked(flows: &mut FlowTable<DeviceFlow>, id: &str, now: u128) -> DevicePoll {
    match device_poll(flows, &config(), &TapClient::new(), id, now) {
        PollStart::Ask(poll, _) => poll,
        PollStart::Busy => panic!("busy"),
        PollStart::Answer(_) => panic!("answered"),
    }
}

fn answered(
    flows: &mut FlowTable<DeviceFlow>,
    id: &str,
    now: u128,
) -> Result<PollReply, ApiError> {
    match device_poll(flows, &config(), &TapClient::new(), id, now) {
        PollStart::Answer(answer) => answer,
        PollStart::Busy => panic!("busy"),
        PollStart::Ask(_, _) => panic!("asked"),
    }
}

fn pending(res: Result<PollReply, ApiError>) -> (u16, u64) {
    match res {
        Ok(PollReply { status, body: PollResponse::Pending { retry_after } }) => {
            (status.code(), retry_after)
        }
        _ => panic!("not pending"),
    }
}

fn told(poll: &mut DevicePoll, reply: Result<AccessToken, TapError>, now: u128) -> Result<PollReply, ApiError> {
    match device_poll_token(&TapClient::new(), poll, reply, now) {
        PollNext::Answer(answer) => answer,
        PollNext::Ask(_) => panic!("asked"),
    }
}

#[test]
fn login_flows_validate_with_taptap_before_issuing_session() {
    let config = config();
    let tap = TapClient::new().with_hosts("http://127.0.0.1:1", "http://127.0.0.1:2");

    let body = SdkLoginRequest {
        region: Region::Cn,
        access_token: token(),
        scopes: vec!["public_profile".into()],
    };
    let request = sdk_login(&config, &tap, &body).unwrap();
    assert_eq!(request.url, "http://127.0.0.1:2/account/profile/v1?client_id=test-client");
    assert!(request.authorization.starts_with("MAC id=\"kid-1\""));
    let login = finish_login(&config, Region::Cn, Ok(user())).unwrap();
    assert_eq!(login.user.openid, "user-1");
    let claims = me(&config, Some(&format!("Bearer {}", login.session_token))).unwrap();
    assert_eq!(claims.sub, "user-1");

    let invalid = SdkLoginRequest {
        region: Region::Cn,
        access_token: AccessToken {
            kid: "kid-1".into(),
            mac_key: "secret".into(),
            mac_algorithm: Some("unsupported".into()),
        },
        scopes: vec![],
    };
    assert_eq!(refusal(sdk_login(&config, &tap, &invalid)).0, 401);

    let mut flows: FlowTable<DeviceFlow> = FlowTable::new();
    let request = device_start(&config, &tap, Region::Cn).unwrap();
    assert_eq!(request.url, "http://127.0.0.1:1/oauth2/v1/device/code");
    let flow = device_started(&mut flows, Region::Cn, Ok(code()), 0).unwrap();
    assert!(flow.qr_image.starts_with("data:image/svg+xml;base64,"));

    let (mut poll, request) = match device_poll(&mut flows, &config, &tap, &flow.flow_id, 0) {
        PollStart::Ask(poll, request) => (poll, request),
        _ => panic!("not asked"),
    };
    assert_eq!(request.url, "http://127.0.0.1:1/oauth2/v1/token");
    assert!(request.form.contains(&("code".to_owned(), "device-secret".to_owned())));
    let reply = match device_poll_token(&tap, &mut poll, rejected("authorization_pending"), 0) {
        PollNext::Answer(answer) => answer,
        PollNext::Ask(_) => panic!("asked"),
    };
    assert_eq!(pending(reply).0, 202);
    device_poll_end(&mut flows, poll);

    let mut poll = asked(&mut flows, &flow.flow_id, SECOND);
    let request = match device_poll_token(&tap, &mut poll, Ok(token()), SECOND) {
        PollNext::Ask(request) => request,
        PollNext::Answer(_) => panic!("answered"),
    };
    assert_eq!(request.url, "http://127.0.0.1:2/account/profile/v1?client_id=test-client");
    assert!(request.authorization.starts_with("MAC id=\"kid-1\""));
    let completed = device_poll_profile(&config, &mut poll, Ok(user())).unwrap();
    device_poll_end(&mut flows, poll);
    assert_eq!(completed.status.code(), 200);
    match completed.body {
        PollResponse::Complete { login } => assert_eq!(login.user.openid, "user-1"),
        PollResponse::Pending { .. } => panic!("pending"),
    }
    assert_eq!(refusal(answered(&mut flows, &flow.flow_id, SECOND)).0, 404);
}

#[test]
fn start_in_a_region_without_a_client_is_refused() {
    assert_eq!(
        refusal(device_start(&config(), &TapClient::new(), Region::Global)),
        (400, "region_not_configured".into())
    );
}

#[test]
fn started_login_shows_a_code_and_hides_another() {
    let (flows, response) = started(code(), 5);
    assert_eq!(response.flow_id.len(), 43);
    assert_eq!(response.qrcode_url, "https://example.test/scan");
    assert_eq!((response.expires_in, response.interval), (30, 1));
    assert!(!response.qr_image.contains("device-secret"));
    let flow = flows.get(&response.flow_id).unwrap().unwrap();
    assert_eq!(flow.device_code, "device-secret");
    assert_eq!(flow.expires_at, 5 + 30 * SECOND);
    assert_eq!(flow.next_poll_at, 5);
    assert!(!flow.finished);
}

#[test]
fn image_is_the_code_for_the_page() {
    let (_, response) = started(code(), 0);
    let code = qrcode::QrCode::new(b"https://example.test/scan").unwrap();
    let svg = code.render::<qrcode::render::svg::Color>().min_dimensions(320, 320).build();
    let base64 =
        base64::Engine::encode(&base64::engine::general_purpose::STANDARD, svg.as_bytes());
    assert_eq!(response.qr_image, format!("data:image/svg+xml;base64,{base64}"));
}

#[test]
fn login_is_named_after_random_bytes() {
    let mut flows = FlowTable::new();
    let response = open_device_flow(
        &mut flows,
        Region::Cn,
        Ok(code()),
        Some("<svg/>".into()),
        Some((0u8..32).collect()),
        0,
    )
    .unwrap();
    assert_eq!(response.flow_id, "AAECAwQFBgcICQoLDA0ODxAREhMUFRYXGBkaGxwdHh8");
    assert_eq!(response.qr_image, "data:image/svg+xml;base64,PHN2Zy8+");
    let (_, first) = started(code(), 0);
    let (_, second) = started(code(), 0);
    assert_ne!(first.flow_id, second.flow_id);
}

#[test]
fn interval_is_at_least_a_second() {
    let (flows, response) = started(DeviceCode { interval: 0, ..code() }, 0);
    assert_eq!(response.interval, 1);
    assert_eq!(flows.get(&response.flow_id).unwrap().unwrap().interval, 1);
    let (_, response) = started(DeviceCode { interval: 7, ..code() }, 0);
    assert_eq!(response.interval, 7);
}

#[test]
fn device_code_that_cannot_be_used_is_refused() {
    for bad in [
        DeviceCode { device_code: String::new(), ..code() },
        DeviceCode { qrcode_url: String::new(), ..code() },
        DeviceCode { expires_in: 0, ..code() },
    ] {
        let mut flows = FlowTable::new();
        let res = device_started(&mut flows, Region::Cn, Ok(bad), 0);
        assert_eq!(refusal(res), (502, "invalid_device_code".into()));
        assert_eq!(flows.len(), 0);
    }
    let mut flows = FlowTable::new();
    let long = DeviceCode { qrcode_url: "x".repeat(4000), ..code() };
    let res = device_started(&mut flows, Region::Cn, Ok(long), 0);
    assert_eq!(refusal(res), (502, "invalid_qrcode_url".into()));
    let res = open_device_flow(&mut flows, Region::Cn, Ok(code()), Some("".into()), None, 0);
    assert_eq!(refusal(res), (500, "random_error".into()));
    let res = device_started(&mut flows, Region::Cn, Err(TapError::Upstream), 0);
    assert_eq!(refusal(res), (502, "taptap_unavailable".into()));
    let res = device_started(&mut flows, Region::Cn, rejected("invalid_client"), 0);
    assert_eq!(refusal(res), (400, "invalid_client".into()));
    assert_eq!(flows.len(), 0);
}

fn numbered(flows: &mut FlowTable<DeviceFlow>, n: u32, now: u128) -> Result<DeviceStartResponse, ApiError> {
    let random = n.to_be_bytes().to_vec();
    open_device_flow(flows, Region::Cn, Ok(code()), Some(String::new()), Some(random), now)
}

#[test]
fn only_so_many_logins_are_open() {
    let mut flows = FlowTable::new();
    for n in 0..10_000 {
        assert!(numbered(&mut flows, n, 0).is_ok());
    }
    assert_eq!(flows.len(), 10_000);
    let res = numbered(&mut flows, 10_000, 30 * SECOND - 1);
    assert_eq!(refusal(res), (503, "too_many_flows".into()));
    assert!(numbered(&mut flows, 10_000, 30 * SECOND).is_ok());
    assert_eq!(flows.len(), 1);
}

#[test]
fn early_poll_is_told_to_wait() {
    let (mut flows, response) = started(DeviceCode { interval: 5, ..code() }, 0);
    let id = response.flow_id.as_str();
    let mut poll = asked(&mut flows, id, 0);
    assert_eq!(pending(told(&mut poll, rejected("authorization_waiting"), 0)), (202, 5));
    device_poll_end(&mut flows, poll);
    assert_eq!(pending(answered(&mut flows, id, 1)), (202, 4));
    assert_eq!(pending(answered(&mut flows, id, 2 * SECOND)), (202, 3));
    assert_eq!(pending(answered(&mut flows, id, 5 * SECOND - 1)), (202, 1));
    asked(&mut flows, id, 5 * SECOND);
}

#[test]
fn slowing_down_lengthens_the_interval() {
    let (mut flows, response) = started(code(), 0);
    let id = response.flow_id.as_str();
    let mut poll = asked(&mut flows, id, 0);
    assert_eq!(pending(told(&mut poll, rejected("slow_down"), 2 * SECOND)), (202, 6));
    device_poll_end(&mut flows, poll);
    assert_eq!(pending(answered(&mut flows, id, 7 * SECOND)), (202, 1));
    let mut poll = asked(&mut flows, id, 8 * SECOND);
    assert_eq!(poll.flow.next_poll_at, 14 * SECOND);
    assert_eq!(pending(told(&mut poll, rejected("slow_down"), 8 * SECOND)), (202, 11));
}

#[test]
fn refused_credential_keeps_the_login() {
    let (mut flows, response) = started(code(), 0);
    let id = response.flow_id.as_str();
    let mut poll = asked(&mut flows, id, 0);
    assert_eq!(
        refusal(told(&mut poll, rejected("access_denied"), 0)),
        (401, "access_denied".into())
    );
    assert_eq!(refusal(told(&mut poll, Err(TapError::Upstream), 0)).0, 502);
    assert_eq!(
        refusal(told(&mut poll, Ok(AccessToken { kid: String::new(), ..token() }), 0)),
        (401, "invalid_token".into())
    );
    let denied = device_poll_profile_at(&config(), &mut poll, rejected("invalid_token"), Some(1));
    assert_eq!(refusal(denied), (401, "invalid_token".into()));
    let nobody = Profile { unionid: String::new(), ..user() };
    let res = device_poll_profile_at(&config(), &mut poll, Ok(nobody), Some(1));
    assert_eq!(refusal(res), (502, "invalid_taptap_profile".into()));
    let res = device_poll_profile_at(&config(), &mut poll, Ok(user()), None);
    assert_eq!(refusal(res), (500, "clock_error".into()));
    device_poll_end(&mut flows, poll);
    asked(&mut flows, id, SECOND);
}

#[test]
fn expired_login_is_gone() {
    let (mut flows, response) = started(code(), 0);
    let id = response.flow_id.as_str();
    assert_eq!(refusal(answered(&mut flows, id, 30 * SECOND)), (410, "flow_expired".into()));
    assert_eq!(refusal(answered(&mut flows, id, 0)), (404, "flow_not_found".into()));
    assert_eq!(refusal(answered(&mut flows, "unknown", 0)), (404, "flow_not_found".into()));
}

#[test]
fn login_is_asked_about_by_one_at_a_time() {
    let (mut flows, response) = started(code(), 0);
    let other = device_started(&mut flows, Region::Cn, Ok(code()), 0).unwrap();
    let id = response.flow_id.as_str();
    let poll = asked(&mut flows, id, 0);
    assert!(matches!(
        device_poll(&mut flows, &config(), &TapClient::new(), id, 40 * SECOND),
        PollStart::Busy
    ));
    flows.clear_stale(40 * SECOND);
    assert!(matches!(flows.get(id), Some(None)));
    assert!(flows.get(&other.flow_id).is_none());
    device_poll_end(&mut flows, poll);
    assert!(matches!(flows.get(id), Some(Some(_))));
}

#[test]
fn login_in_a_region_without_a_client_stays() {
    let mut flows = FlowTable::new();
    let response = device_started(&mut flows, Region::Global, Ok(code()), 0).unwrap();
    assert_eq!(
        refusal(answered(&mut flows, &response.flow_id, 0)),
        (400, "region_not_configured".into())
    );
    assert_eq!(flows.len(), 1);
}

#[test]
fn finished_login_is_not_found() {
    let mut flows = FlowTable::new();
    let flow = DeviceFlow {
        region: Region::Cn,
        device_code: "d".into(),
        expires_at: 10,
        interval: 1,
        next_poll_at: 0,
        finished: true,
    };
    flows.insert("id".into(), flow);
    assert_eq!(refusal(answered(&mut flows, "id", 0)), (404, "flow_not_found".into()));
    flows.clear_stale(0);
    assert_eq!(flows.len(), 0);
}
