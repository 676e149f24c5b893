use taptap_rback::api::LoginResponse;
use taptap_rback::pages::callback_error_page;
use taptap_rback::pages::callback_page;
use taptap_rback::pages::callback_success_page;
use taptap_rback::pages::html_escape;
use taptap_rback::pages::json_for_script;
use taptap_rback::taptap::Profile;
use taptap_rback::taptap::Region;

fn login(name: Option<&str>) -> LoginResponse {
    LoginResponse {
        token_type: "Bearer",
        session_token: "eyJ.a.b".into(),
        expires_in: 86400,
        region: Region::Global,
        user: Profile {
            openid: "user-1".into(),
            unionid: "vendor-user-1".into(),
            name: name.map(str::to_owned),
            avatar: None,
        },
    }
}

#[test]
fn html_is_escaped() {
    assert_eq!(
        html_escape("a<b> & \"c\" 'd' é"),
        "a&lt;b&gt; &amp; &quot;c&quot; 'd' é"
    );
    assert_eq!(html_escape("&lt;"), "&amp;lt;");
    assert_eq!(html_escape(""), "");
}

#[test]
fn json_in_scripts_is_escaped() {
    assert_eq!(
        json_for_script("{\"a\":\"</script>&\"}"),
        "{\"a\":\"\\u003c/script\\u003e\\u0026\"}"
    );
}

#[test]
fn page_carries_title_and_body() {
    let page = callback_page("T", "<b>B</b>");
    assert!(page.starts_with("<!doctype html>\n<html lang=\"zh-CN\">\n  <head>\n"));
    assert!(page.contains("    <title>T · TapTap 登录</title>\n    <style>\n      body { margin: 0;"));
    assert!(page.ends_with("    <main><b>B</b></main>\n  </body>\n</html>"));
}

#[test]
fn error_page_leads_home() {
    let page = callback_error_page("/taptap", "<script>alert(1)</script>");
    assert!(page.contains("<title>登录失败 · TapTap 登录</title>"));
    assert!(page.contains(
        "<main><h1>登录未完成</h1><p>&lt;script&gt;alert(1)&lt;/script&gt;</p>\
         <p><a href=\"/taptap/\">返回登录页重试</a></p></main>"
    ));
}

#[test]
fn success_page_hands_over_the_login() {
    let page = callback_success_page("", &login(Some("</script><&\"\\\n\u{1}é")));
    assert!(page.contains(
        "const login = {\"region\":\"global\",\"session_token\":\"eyJ.a.b\",\"user\":\
         {\"avatar\":null,\"name\":\"\\u003c/script\\u003e\\u003c\\u0026\\\"\\\\\\n\\u0001é\",\
         \"openid\":\"user-1\"}};\n"
    ));
    assert!(page.contains("      location.replace(\"/\");\n    </script>\n"));
    assert!(page.contains("<noscript><p><a href=\"/\">返回登录页</a></p></noscript></main>"));
    assert!(page.contains("name: login.user.name || \"TapTap 玩家\","));
}

#[test]
fn success_page_without_a_name() {
    let page = callback_success_page("/taptap", &login(None));
    assert!(page.contains("{\"avatar\":null,\"name\":null,\"openid\":\"user-1\"}"));
    assert!(page.contains("location.replace(\"/taptap/\")"));
}
