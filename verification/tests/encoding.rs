use taptap_rback::encoding::hex_lower;
use taptap_rback::encoding::read_url_safe;
use taptap_rback::json::read_members;
use taptap_rback::jwt::token_payload;
use taptap_rback::session::find_region;
use taptap_rback::taptap::normalized_request;
use taptap_rback::taptap::Region;
use taptap_rback::text::decimal;
use taptap_rback::text::strip_prefix;
use taptap_rback::text::trim_end_slashes;
use taptap_rback::url::url_at;

fn pairs(list: &[(&str, &str)]) -> Vec<(String, String)> {
    list.iter().map(|(name, value)| (name.to_string(), value.to_string())).collect()
}

#[test]
fn bytes_in_hexadecimal() {
    assert_eq!(hex_lower(&[]), "");
    assert_eq!(hex_lower(&[0x00, 0x0f, 0xa0, 0xff]), "000fa0ff");
}

#[test]
fn numbers_in_decimal() {
    assert_eq!(decimal(0), "0");
    assert_eq!(decimal(1618221750), "1618221750");
    assert_eq!(decimal(u64::MAX), "18446744073709551615");
}

#[test]
fn signed_text_has_a_line_for_each_part() {
    assert_eq!(
        normalized_request(1618221750, "n", "GET", "/p?q=1", "h", "443"),
        "1618221750\nn\nGET\n/p?q=1\nh\n443\n\n"
    );
}

#[test]
fn prefixes_and_slashes_are_removed() {
    assert_eq!(strip_prefix("Bearer x", "Bearer "), Some("x".to_owned()));
    assert_eq!(strip_prefix("Bearer", "Bearer "), None);
    assert_eq!(strip_prefix("bearer x", "Bearer "), None);
    assert_eq!(trim_end_slashes("http://h//"), "http://h");
    assert_eq!(trim_end_slashes("/"), "");
}

#[test]
fn regions_are_found_by_name() {
    assert_eq!(find_region("cn"), Some(Region::Cn));
    assert_eq!(find_region("global"), Some(Region::Global));
    assert_eq!(find_region("CN"), None);
}

#[test]
fn urls_are_built_with_their_query() {
    let url = url_at(
        "https://open.tapapis.cn",
        "/account/profile/v1",
        &pairs(&[("a", "x&y=z"), ("b", "ü *-._~+%")]),
    )
    .unwrap();
    let query = "a=x%26y%3Dz&b=%C3%BC+*-._%7E%2B%25";
    assert_eq!(url.text, format!("https://open.tapapis.cn/account/profile/v1?{query}"));
    assert_eq!(url.host.as_deref(), Some("open.tapapis.cn"));
    assert_eq!(url.path, "/account/profile/v1");
    assert_eq!(url.query.as_deref(), Some(query));
}

#[test]
fn urls_keep_a_query_they_have() {
    let url = url_at("http://127.0.0.1:80", "/p?q=1", &pairs(&[("a", "b")])).unwrap();
    assert_eq!(url.text, "http://127.0.0.1/p?q=1&a=b");
    assert_eq!(url.host.as_deref(), Some("127.0.0.1"));
    assert_eq!(url.query.as_deref(), Some("q=1&a=b"));
    assert!(url_at("no url", "/p", &pairs(&[])).is_none());
}

#[test]
fn members_are_read_in_order_with_their_texts() {
    let read = |text: &str| {
        read_members(text.as_bytes()).map(|list| {
            list.into_iter()
                .map(|(name, value)| (name, String::from_utf8(value).unwrap()))
                .collect::<Vec<(String, String)>>()
        })
    };
    let member = |name: &str, value: &str| (name.to_owned(), value.to_owned());
    assert_eq!(read(" { } "), Some(vec![]));
    assert_eq!(
        read("\n{\"b\" :\t[1, {}], \"a\\n\":\"x,}\",\"b\":-1.5e3}\r"),
        Some(vec![member("b", "\t[1, {}]"), member("a\n", "\"x,}\""), member("b", "-1.5e3")])
    );
    for text in [
        "", " ", "[]", "null", "{", "{}x", "{,}", "{\"a\"}", "{\"a\":}", "{\"a\":1,}", "{\"a\":1",
        "{\"a\":1}}", "{\"a\":1 \"b\":2}", "{a:1}", "{1:1}", "{\"a\":01}", "{\"a\"=1}",
        "{\"a\":1\"b\":2}", "{} {}",
    ] {
        assert_eq!(read(text), None);
    }
}

#[test]
fn payload_stands_between_the_last_dots() {
    assert_eq!(token_payload("a.b.c"), "b");
    assert_eq!(token_payload("x.a.b.c"), "b");
    assert_eq!(token_payload("a.b"), "a");
    assert_eq!(token_payload(".."), "");
    assert_eq!(token_payload("abc"), "");
}

#[test]
fn url_safe_text_is_read() {
    assert_eq!(read_url_safe("-_8"), Some(vec![0xfb, 0xff]));
    assert_eq!(read_url_safe(""), Some(vec![]));
    for text in ["-_9", "-_8=", "+/8", "A", "é"] {
        assert_eq!(read_url_safe(text), None);
    }
}

#[test]
fn fragment_stays_behind_the_query() {
    let url = url_at("http://h/p#", "/q", &pairs(&[("a", "b")])).unwrap();
    assert_eq!(url.text, "http://h/p?a=b#/q");
    assert_eq!(url.path, "/p");
    assert_eq!(url.query.as_deref(), Some("a=b"));
}
