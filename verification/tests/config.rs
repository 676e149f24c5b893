use taptap_rback::config::normalize_base_path;
use taptap_rback::config::public_config;
use taptap_rback::config::Config;
use taptap_rback::config::Variables;
use taptap_rback::taptap::Region;

fn variables() -> Variables {
    Variables {
        cn_client_id: Some("cn-client".into()),
        global_client_id: None,
        session_secret: Some("0123456789abcdef0123456789abcdef".into()),
        public_base_url: None,
        public_base_path: None,
    }
}

fn complaint(vars: Variables) -> String {
    match Config::from_env(vars) {
        Ok(_) => panic!("accepted"),
        Err(message) => message,
    }
}

#[test]
fn base_path_is_normalized_and_restricted() {
    assert_eq!(normalize_base_path(None).unwrap(), "");
    assert_eq!(normalize_base_path(Some(String::new())).unwrap(), "");
    assert_eq!(normalize_base_path(Some("/".into())).unwrap(), "");
    assert_eq!(
        normalize_base_path(Some("taptap".into())).unwrap(),
        "/taptap"
    );
    assert_eq!(
        normalize_base_path(Some("/taptap/".into())).unwrap(),
        "/taptap"
    );
    assert_eq!(
        normalize_base_path(Some("//deploy/taptap//".into())).unwrap(),
        "/deploy/taptap"
    );
    assert!(normalize_base_path(Some("/taptap/\"><script>".into())).is_err());
}

#[test]
fn base_path_loses_white_space_and_keeps_inner_slashes() {
    assert_eq!(normalize_base_path(Some(" \t/a//b_c-D9/ \n".into())).unwrap(), "/a//b_c-D9");
    assert_eq!(normalize_base_path(Some("\u{3000}x\u{a0}".into())).unwrap(), "/x");
    assert_eq!(normalize_base_path(Some(" // ".into())).unwrap(), "");
    assert_eq!(
        normalize_base_path(Some("a b".into())).unwrap_err(),
        "PUBLIC_BASE_PATH may only contain ASCII letters, digits, '/', '-' and '_'"
    );
    assert!(normalize_base_path(Some("/ /".into())).is_err());
    assert!(normalize_base_path(Some("登录".into())).is_err());
}

#[test]
fn normal_base_path_is_kept() {
    for path in ["", "/taptap", "/deploy/taptap", "/a-b_c/9"] {
        assert_eq!(normalize_base_path(Some(path.into())).unwrap(), path);
    }
}

#[test]
fn settings_are_read() {
    let mut vars = variables();
    vars.global_client_id = Some(String::new());
    vars.public_base_url = Some("http://127.0.0.1:3000/".into());
    vars.public_base_path = Some("taptap/".into());
    let config = match Config::from_env(vars) {
        Ok(config) => config,
        Err(message) => panic!("{message}"),
    };
    assert_eq!(config.client_id(Region::Cn), Some("cn-client"));
    assert_eq!(config.client_id(Region::Global), None);
    assert_eq!(config.session_secret, b"0123456789abcdef0123456789abcdef");
    assert_eq!(config.public_base_url.as_deref(), Some("http://127.0.0.1:3000/"));
    assert_eq!(config.public_base_path, "/taptap");
    let public = public_config(&config);
    assert!(public.cn);
    assert!(!public.global);
    assert!(public.web);
}

#[test]
fn settings_without_a_client_are_refused() {
    let mut vars = variables();
    vars.cn_client_id = Some(String::new());
    vars.session_secret = None;
    assert_eq!(complaint(vars), "set TAPTAP_CN_CLIENT_ID and/or TAPTAP_GLOBAL_CLIENT_ID");
}

#[test]
fn settings_without_a_secret_are_refused() {
    let mut vars = variables();
    vars.session_secret = None;
    assert_eq!(complaint(vars), "set SESSION_SECRET to a random value of at least 32 bytes");
    let mut vars = variables();
    vars.session_secret = Some("0123456789abcdef0123456789abcde".into());
    assert_eq!(complaint(vars), "SESSION_SECRET must contain at least 32 bytes");
}

#[test]
fn secret_is_measured_in_bytes() {
    let mut vars = variables();
    vars.session_secret = Some("密密密密密密密密密密密".into());
    assert!(Config::from_env(vars).is_ok());
}

#[test]
fn settings_with_another_scheme_are_refused() {
    let mut vars = variables();
    vars.public_base_url = Some("ftp://example.test".into());
    vars.public_base_path = Some("\"".into());
    assert_eq!(complaint(vars), "PUBLIC_BASE_URL must start with https:// or http://");
    let mut vars = variables();
    vars.public_base_path = Some("\"".into());
    assert_eq!(
        complaint(vars),
        "PUBLIC_BASE_PATH may only contain ASCII letters, digits, '/', '-' and '_'"
    );
}
