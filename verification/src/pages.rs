//! The pages on which a login in the browser ends.

use vstd::prelude::*;

use crate::api::LoginResponse;
use crate::api::LoginView;
use crate::config::base_path_char;
use crate::config::normal_base_path;
use crate::json::Json;
use crate::json::JsonView;
use crate::json::distinct_names;
use crate::json::flat;
use crate::json::flat_object_text;
use crate::json::json_escape;
use crate::json::json_quoted;
use crate::json::lemma_member_behind;
use crate::json::member_text;
use crate::json::members_of;
use crate::json::members_text;
use crate::json::object_text;
use crate::json::value_of;
use crate::json::write_object;
use crate::taptap::Profile;
use crate::taptap::ProfileView;
use crate::taptap::Region;
use crate::text::all_chars;
use crate::text::expand;
use crate::text::join;
use crate::text::lemma_expand_all;
use crate::text::lemma_expand_join;
use crate::text::lemma_expand_push;

verus! {

/// A page up to its title.
pub const PAGE_START: &'static str =
    "<!doctype html>
<html lang=\"zh-CN\">
  <head>
    <meta charset=\"utf-8\" />
    <meta name=\"viewport\" content=\"width=device-width, initial-scale=1\" />
    <meta name=\"color-scheme\" content=\"dark\" />
    <title>";

/// A page from the end of its title to its body.
pub const PAGE_MIDDLE: &'static str =
    " · TapTap 登录</title>
    <style>
      body { margin: 0; min-height: 100vh; display: grid; place-items: center;
             background: #07111c; color: #ecf5ff;
             font-family: Inter, \"Segoe UI\", \"Microsoft YaHei\", sans-serif; }
      main { text-align: center; padding: 24px; }
      p { color: #9cafbf; font-size: 14px; }
      a { color: #79e4d6; }
    </style>
  </head>
  <body>
    <main>";

/// A page from the end of its body.
pub const PAGE_END: &'static str = "</main>
  </body>
</html>";

/// The body of the last page up to the login in its script.
pub const SUCCESS_START: &'static str =
    "<h1>授权成功</h1><p>正在返回游戏…</p>
    <script>
      const login = ";

/// The body of the last page from the login to the link home in its script.
pub const SUCCESS_MIDDLE: &'static str =
    ";
      sessionStorage.setItem(\"taptap_game_session\", login.session_token);
      sessionStorage.setItem(
        \"taptap_game_profile\",
        JSON.stringify({
          sub: login.user.openid,
          region: login.region,
          name: login.user.name || \"TapTap 玩家\",
          avatar: login.user.avatar || null,
        }),
      );
      location.replace(\"";

/// The body of the last page from its script to the link home without scripts.
pub const SUCCESS_LINK: &'static str =
    "\");
    </script>
    <noscript><p><a href=\"";

/// The body of the last page from the link home without scripts.
pub const SUCCESS_END: &'static str = "\">返回登录页</a></p></noscript>";

/// How a character is written in HTML text and attributes.
pub open spec fn html_char(c: char) -> Seq<char> {
    if c == '&' {
        "&amp;"@
    } else if c == '<' {
        "&lt;"@
    } else if c == '>' {
        "&gt;"@
    } else if c == '"' {
        "&quot;"@
    } else {
        seq![c]
    }
}

/// Text as it is written in HTML.
pub open spec fn html_text(s: Seq<char>) -> Seq<char> {
    expand(s, |c: char| html_char(c))
}

/// How a character of JSON text is written inside a script element.
pub open spec fn script_char(c: char) -> Seq<char> {
    if c == '<' {
        "\\u003c"@
    } else if c == '>' {
        "\\u003e"@
    } else if c == '&' {
        "\\u0026"@
    } else {
        seq![c]
    }
}

/// JSON text as it is written inside a script element.
pub open spec fn script_text(s: Seq<char>) -> Seq<char> {
    expand(s, |c: char| script_char(c))
}

/// A page with the given title and body.
pub open spec fn page_text(title: Seq<char>, body: Seq<char>) -> Seq<char> {
    PAGE_START@ + title + PAGE_MIDDLE@ + body + PAGE_END@
}

/// The page that tells of a failure.
pub open spec fn error_page_text(base_path: Seq<char>, detail: Seq<char>) -> Seq<char> {
    page_text(
        "登录失败"@,
        "<h1>登录未完成</h1><p>"@ + html_text(detail) + "</p><p><a href=\""@ + (base_path + "/"@)
            + "\">返回登录页重试</a></p>"@,
    )
}

/// A string, or `null` where there is none.
pub open spec fn text_or_null(text: Option<Seq<char>>) -> JsonView {
    match text {
        Some(text) => JsonView::Text(text),
        None => JsonView::Null,
    }
}

/// What the script of the last page is told of the player.
pub open spec fn user_members(user: ProfileView) -> Seq<(Seq<char>, JsonView)> {
    seq![
        ("avatar"@, text_or_null(user.avatar)),
        ("name"@, text_or_null(user.name)),
        ("openid"@, JsonView::Text(user.openid)),
    ]
}

/// What the script of the last page is told of the login.
pub open spec fn login_members(login: LoginView) -> Seq<(Seq<char>, JsonView)> {
    seq![
        ("region"@, JsonView::Text(login.region.name_text())),
        ("session_token"@, JsonView::Text(login.session_token)),
        ("user"@, JsonView::Other(object_text(user_members(login.user)))),
    ]
}

/// The page that hands a session to the browser and leads home.
pub open spec fn success_page_text(base_path: Seq<char>, login: LoginView) -> Seq<char> {
    let home = base_path + "/"@;
    page_text(
        "登录成功"@,
        SUCCESS_START@ + script_text(object_text(login_members(login))) + SUCCESS_MIDDLE@ + home
            + SUCCESS_LINK@ + home + SUCCESS_END@,
    )
}

/// Text as it is written in HTML.
pub fn html_escape(text: &str) -> (res: String)
    ensures
        res@ == html_text(text@),
{
    let ghost f = |c: char| html_char(c);
    let mut res = String::new();
    for c in it: text.chars()
        invariant
            it.seq() == text@,
            f == (|c: char| html_char(c)),
            res@ == expand(text@.take(it.index()), f),
    {
        proof {
            assert(text@.take(it.index() + 1) == text@.take(it.index()).push(c));
            lemma_expand_push(text@.take(it.index()), c, f);
        }
        if c == '&' {
            res.append("&amp;");
        } else if c == '<' {
            res.append("&lt;");
        } else if c == '>' {
            res.append("&gt;");
        } else if c == '"' {
            res.append("&quot;");
        } else {
            res.push(c);
        }
        assert(res@ =~= expand(text@.take(it.index()), f) + html_char(c));
    }
    assert(text@.take(text@.len() as int) == text@);
    res
}

/// JSON text as it is written inside a script element.
pub fn json_for_script(json: &str) -> (res: String)
    ensures
        res@ == script_text(json@),
{
    let ghost f = |c: char| script_char(c);
    let mut res = String::new();
    for c in it: json.chars()
        invariant
            it.seq() == json@,
            f == (|c: char| script_char(c)),
            res@ == expand(json@.take(it.index()), f),
    {
        proof {
            assert(json@.take(it.index() + 1) == json@.take(it.index()).push(c));
            lemma_expand_push(json@.take(it.index()), c, f);
        }
        if c == '<' {
            res.append("\\u003c");
        } else if c == '>' {
            res.append("\\u003e");
        } else if c == '&' {
            res.append("\\u0026");
        } else {
            res.push(c);
        }
        assert(res@ =~= expand(json@.take(it.index()), f) + script_char(c));
    }
    assert(json@.take(json@.len() as int) == json@);
    res
}

/// A page with the given title and body.
pub fn callback_page(title: &str, body: &str) -> (res: String)
    ensures
        res@ == page_text(title@, body@),
{
    let mut page = PAGE_START.to_owned();
    page.append(title);
    page.append(PAGE_MIDDLE);
    page.append(body);
    page.append(PAGE_END);
    page
}

/// The page that tells of a failure.
pub fn callback_error_page(base_path: &str, detail: &str) -> (res: String)
    ensures
        res@ == error_page_text(base_path@, detail@),
{
    let home = join(base_path, "/");
    let mut body = "<h1>登录未完成</h1><p>".to_owned();
    body.append(html_escape(detail).as_str());
    body.append("</p><p><a href=\"");
    body.append(home.as_str());
    body.append("\">返回登录页重试</a></p>");
    callback_page("登录失败", body.as_str())
}

fn nullable(text: &Option<String>) -> (res: Json)
    ensures
        res@ == text_or_null(crate::text::optional_text(*text)),
{
    match text {
        Some(text) => Json::Text(text.clone()),
        None => Json::Null,
    }
}

fn user_json(user: &Profile) -> (res: String)
    ensures
        res@ == object_text(user_members(user@)),
        flat_object_text(res@),
{
    let list = vec![
        ("avatar".to_owned(), nullable(&user.avatar)),
        ("name".to_owned(), nullable(&user.name)),
        ("openid".to_owned(), Json::Text(user.openid.clone())),
    ];
    proof {
        reveal_strlit("avatar");
        reveal_strlit("name");
        reveal_strlit("openid");
        assert(members_of(list@) =~= user_members(user@));
        assert("openid"@[0] != "avatar"@[0]);
        assert(distinct_names(members_of(list@)));
        assert(flat(members_of(list@)));
    }
    write_object(&list)
}

/// The page that hands a session to the browser and leads home.
pub fn callback_success_page(base_path: &str, login: &LoginResponse) -> (res: String)
    ensures
        res@ == success_page_text(base_path@, login@),
{
    let home = join(base_path, "/");
    let list = vec![
        ("region".to_owned(), Json::Text(login.region.name().to_owned())),
        ("session_token".to_owned(), Json::Text(login.session_token.clone())),
        ("user".to_owned(), Json::Other(user_json(&login.user))),
    ];
    proof {
        reveal_strlit("region");
        reveal_strlit("session_token");
        reveal_strlit("user");
        assert(members_of(list@) =~= login_members(login@));
        assert("region"@.len() == 6 && "session_token"@.len() == 13 && "user"@.len() == 4);
        assert(distinct_names(members_of(list@)));
    }
    let mut body = SUCCESS_START.to_owned();
    body.append(json_for_script(write_object(&list).as_str()).as_str());
    body.append(SUCCESS_MIDDLE);
    body.append(home.as_str());
    body.append(SUCCESS_LINK);
    body.append(home.as_str());
    body.append(SUCCESS_END);
    callback_page("登录成功", body.as_str())
}

/// Text written in HTML holds no character that opens a tag or ends an attribute.
pub proof fn law_html_text_is_inert(s: Seq<char>)
    ensures
        all_chars(html_text(s), |c: char| c != '<' && c != '>' && c != '"'),
{
    reveal_strlit("&amp;");
    reveal_strlit("&lt;");
    reveal_strlit("&gt;");
    reveal_strlit("&quot;");
    let f = |c: char| html_char(c);
    let p = |c: char| c != '<' && c != '>' && c != '"';
    assert forall|c: char| all_chars(#[trigger] f(c), p) by {}
    lemma_expand_all(s, f, p);
}

/// JSON text written inside a script element holds no character that ends the element or begins a
/// comment or an entity.
pub proof fn law_script_text_is_inert(s: Seq<char>)
    ensures
        all_chars(script_text(s), |c: char| c != '<' && c != '>' && c != '&'),
{
    reveal_strlit("\\u003c");
    reveal_strlit("\\u003e");
    reveal_strlit("\\u0026");
    let f = |c: char| script_char(c);
    let p = |c: char| c != '<' && c != '>' && c != '&';
    assert forall|c: char| all_chars(#[trigger] f(c), p) by {}
    lemma_expand_all(s, f, p);
}

/// The link home of a service at a base path in its normal form holds no character that ends an
/// attribute, a string or a script, nor one that begins a tag or an entity.
pub proof fn law_link_home_is_inert(base_path: Seq<char>)
    requires
        normal_base_path(base_path),
    ensures
        all_chars(
            base_path + "/"@,
            |c: char|
                c != '"' && c != '\'' && c != '<' && c != '>' && c != '&' && c != '\\' && c != '\n',
        ),
{
    reveal_strlit("/");
    let home = base_path + "/"@;
    assert forall|i: int| 0 <= i < home.len() implies {
        let c = #[trigger] home[i];
        c != '"' && c != '\'' && c != '<' && c != '>' && c != '&' && c != '\\' && c != '\n'
    } by {
        if i < base_path.len() {
            assert(base_path_char(base_path[i]));
        }
    }
}

/// Text written in HTML tells which text it stands for.
pub proof fn law_html_text_is_injective(a: Seq<char>, b: Seq<char>)
    requires
        html_text(a) == html_text(b),
    ensures
        a == b,
    decreases a.len(),
{
    reveal_strlit("&amp;");
    reveal_strlit("&lt;");
    reveal_strlit("&gt;");
    reveal_strlit("&quot;");
    if a.len() == 0 || b.len() == 0 {
        assert(html_text(a).len() == html_text(b).len());
        assert(a =~= b);
    } else {
        let x = html_char(a[0]);
        let y = html_char(b[0]);
        let v = html_text(a.drop_first());
        let w = html_text(b.drop_first());
        assert(html_text(a) == x + v);
        assert(html_text(b) == y + w);
        assert((x + v)[0] == (y + w)[0]);
        if x.len() > 1 && y.len() > 1 {
            assert((x + v)[1] == (y + w)[1]);
        }
        assert(a[0] == b[0]);
        assert(v =~= w) by {
            assert(v =~= (x + v).skip(x.len() as int));
            assert(w =~= (y + w).skip(y.len() as int));
        }
        law_html_text_is_injective(a.drop_first(), b.drop_first());
        assert(a =~= seq![a[0]] + a.drop_first());
        assert(b =~= seq![b[0]] + b.drop_first());
    }
}

/// Text is written in HTML character by character: `&`, `<`, `>` and `"` as their entities, and every
/// other one as it is.
pub proof fn law_html_text_spells_the_text(s: Seq<char>, c: char)
    ensures
        html_text(Seq::empty()) == Seq::<char>::empty(),
        html_text(s.push(c)) == html_text(s) + (if c as int == 0x26 {
            "&amp;"@
        } else if c as int == 0x3c {
            "&lt;"@
        } else if c as int == 0x3e {
            "&gt;"@
        } else if c as int == 0x22 {
            "&quot;"@
        } else {
            seq![c]
        }),
{
    lemma_expand_push(s, c, |c: char| html_char(c));
}

/// JSON text is written in a script character by character: `<`, `>` and `&` by their code points, and
/// every other one as it is.
pub proof fn law_script_text_spells_the_text(s: Seq<char>, c: char)
    ensures
        script_text(Seq::empty()) == Seq::<char>::empty(),
        script_text(s.push(c)) == script_text(s) + (if c as int == 0x3c {
            "\\u003c"@
        } else if c as int == 0x3e {
            "\\u003e"@
        } else if c as int == 0x26 {
            "\\u0026"@
        } else {
            seq![c]
        }),
{
    lemma_expand_push(s, c, |c: char| script_char(c));
}

/// The page that tells of a failure shows what it is told, with a link home.
pub proof fn law_error_page_is_written(base_path: Seq<char>, detail: Seq<char>)
    ensures
        error_page_text(base_path, detail) == page_text(
            "登录失败"@,
            "<h1>登录未完成</h1><p>"@ + html_text(detail) + "</p><p><a href=\""@ + base_path
                + "/\">返回登录页重试</a></p>"@,
        ),
{
    reveal_strlit("/");
    reveal_strlit("\">返回登录页重试</a></p>");
    reveal_strlit("/\">返回登录页重试</a></p>");
    assert("/"@ + "\">返回登录页重试</a></p>"@ =~= "/\">返回登录页重试</a></p>"@);
    assert("<h1>登录未完成</h1><p>"@ + html_text(detail) + "</p><p><a href=\""@ + (base_path + "/"@)
        + "\">返回登录页重试</a></p>"@ =~= "<h1>登录未完成</h1><p>"@ + html_text(detail)
        + "</p><p><a href=\""@ + base_path + "/\">返回登录页重试</a></p>"@);
}

/// A page carries its title and its body where they belong.
pub proof fn law_page_is_written(title: Seq<char>, body: Seq<char>)
    ensures
        page_text(title, body) == "<!doctype html>
<html lang=\"zh-CN\">
  <head>
    <meta charset=\"utf-8\" />
    <meta name=\"viewport\" content=\"width=device-width, initial-scale=1\" />
    <meta name=\"color-scheme\" content=\"dark\" />
    <title>"@ + title + " · TapTap 登录</title>
    <style>
      body { margin: 0; min-height: 100vh; display: grid; place-items: center;
             background: #07111c; color: #ecf5ff;
             font-family: Inter, \"Segoe UI\", \"Microsoft YaHei\", sans-serif; }
      main { text-align: center; padding: 24px; }
      p { color: #9cafbf; font-size: 14px; }
      a { color: #79e4d6; }
    </style>
  </head>
  <body>
    <main>"@ + body + "</main>
  </body>
</html>"@,
{
}

/// A string in JSON, or `null` where there is none.
pub open spec fn quoted_or_null(text: Option<Seq<char>>) -> Seq<char> {
    match text {
        Some(text) => json_quoted(text),
        None => "null"@,
    }
}

/// What the script of the last page is told, as JSON text: the region, the token of the session, and
/// of the player the avatar, the name and the open ID, with `null` for what they do not have.
pub open spec fn told_text(
    region: Seq<char>,
    session_token: Seq<char>,
    avatar: Option<Seq<char>>,
    name: Option<Seq<char>>,
    openid: Seq<char>,
) -> Seq<char> {
    "{\"region\":"@ + (json_quoted(region) + (",\"session_token\":"@ + (json_quoted(session_token) + (
    ",\"user\":{\"avatar\":"@ + (quoted_or_null(avatar) + (",\"name\":"@ + (quoted_or_null(name) + (
    ",\"openid\":"@ + (json_quoted(openid) + "}}"@)))))))))
}

proof fn lemma_plain_name(name: Seq<char>)
    requires
        forall|i: int|
            0 <= i < name.len() ==> 'a' <= #[trigger] name[i] <= 'z' || name[i] == '_',
    ensures
        json_quoted(name) == seq!['"'] + name + seq!['"'],
    decreases name.len(),
{
    let f = |c: char| json_escape(c);
    if name.len() > 0 {
        let rest = name.drop_first();
        assert forall|i: int| 0 <= i < rest.len() implies 'a' <= #[trigger] rest[i] <= 'z' || rest[i]
            == '_' by {
            assert(rest[i] == name[i + 1]);
        }
        lemma_plain_name(rest);
        assert(expand(rest, f) =~= json_quoted(rest).subrange(1, json_quoted(rest).len() - 1));
        assert(rest =~= (seq!['"'] + rest + seq!['"']).subrange(1, rest.len() as int + 1));
        assert(f(name[0]) =~= seq![name[0]]);
        assert(expand(name, f) =~= seq![name[0]] + rest);
        assert(seq![name[0]] + rest =~= name);
    } else {
        assert(expand(name, f) =~= name);
    }
}

proof fn lemma_keys()
    ensures
        json_quoted("region"@) == seq!['"'] + "region"@ + seq!['"'],
        json_quoted("session_token"@) == seq!['"'] + "session_token"@ + seq!['"'],
        json_quoted("user"@) == seq!['"'] + "user"@ + seq!['"'],
        json_quoted("avatar"@) == seq!['"'] + "avatar"@ + seq!['"'],
        json_quoted("name"@) == seq!['"'] + "name"@ + seq!['"'],
        json_quoted("openid"@) == seq!['"'] + "openid"@ + seq!['"'],
        seq!['{', '"'] + "region"@ + seq!['"', ':'] == "{\"region\":"@,
        seq![',', '"'] + "session_token"@ + seq!['"', ':'] == ",\"session_token\":"@,
        (seq![',', '"'] + "user"@ + seq!['"', ':']) + (seq!['{', '"'] + "avatar"@ + seq!['"', ':'])
            == ",\"user\":{\"avatar\":"@,
        seq![',', '"'] + "name"@ + seq!['"', ':'] == ",\"name\":"@,
        seq![',', '"'] + "openid"@ + seq!['"', ':'] == ",\"openid\":"@,
        seq!['}'] + seq!['}'] == "}}"@,
{
    reveal_strlit("region");
    reveal_strlit("session_token");
    reveal_strlit("user");
    reveal_strlit("avatar");
    reveal_strlit("name");
    reveal_strlit("openid");
    reveal_strlit("{\"region\":");
    reveal_strlit(",\"session_token\":");
    reveal_strlit(",\"user\":{\"avatar\":");
    reveal_strlit(",\"name\":");
    reveal_strlit(",\"openid\":");
    reveal_strlit("}}");
    lemma_plain_name("region"@);
    lemma_plain_name("session_token"@);
    lemma_plain_name("user"@);
    lemma_plain_name("avatar"@);
    lemma_plain_name("name"@);
    lemma_plain_name("openid"@);
    assert(seq!['{', '"'] + "region"@ + seq!['"', ':'] =~= "{\"region\":"@);
    assert(seq![',', '"'] + "session_token"@ + seq!['"', ':'] =~= ",\"session_token\":"@);
    assert((seq![',', '"'] + "user"@ + seq!['"', ':']) + (seq!['{', '"'] + "avatar"@ + seq!['"', ':'])
        =~= ",\"user\":{\"avatar\":"@);
    assert(seq![',', '"'] + "name"@ + seq!['"', ':'] =~= ",\"name\":"@);
    assert(seq![',', '"'] + "openid"@ + seq!['"', ':'] =~= ",\"openid\":"@);
    assert(seq!['}'] + seq!['}'] =~= "}}"@);
}

/// The text of an object of three members.
proof fn lemma_three_members(list: Seq<(Seq<char>, JsonView)>)
    requires
        list.len() == 3,
    ensures
        object_text(list) == seq!['{'] + (member_text(list[0]) + (seq![','] + (member_text(list[1]) + (
        seq![','] + (member_text(list[2]) + seq!['}']))))),
{
    let l1 = list.drop_first();
    let l2 = l1.drop_first();
    assert(l2.len() == 1 && l2[0] == list[2]);
    assert(l1.len() == 2 && l1[0] == list[1]);
    assert(members_text(l2) == member_text(list[2]));
    assert(members_text(l1) == member_text(list[1]) + seq![','] + members_text(l2));
    assert(members_text(list) == member_text(list[0]) + seq![','] + members_text(l1));
    let m0 = member_text(list[0]);
    let m1 = member_text(list[1]);
    let m2 = member_text(list[2]);
    assert(seq!['{'] + (m0 + seq![','] + (m1 + seq![','] + m2)) + seq!['}'] =~= seq!['{'] + (m0 + (seq![
        ',',
    ] + (m1 + (seq![','] + (m2 + seq!['}']))))));
}

proof fn lemma_user_text(user: ProfileView)
    ensures
        object_text(user_members(user)) == (seq!['{', '"'] + "avatar"@ + seq!['"', ':']) + (
        quoted_or_null(user.avatar) + (",\"name\":"@ + (quoted_or_null(user.name) + (",\"openid\":"@
            + (json_quoted(user.openid) + seq!['}']))))),
{
    lemma_keys();
    let list = user_members(user);
    lemma_three_members(list);
    let r2 = json_quoted(user.openid) + seq!['}'];
    let r1 = quoted_or_null(user.name) + (",\"openid\":"@ + r2);
    lemma_member_behind(',', "openid"@, list[2].1, seq!['}']);
    lemma_member_behind(',', "name"@, list[1].1, ",\"openid\":"@ + r2);
    lemma_member_behind('{', "avatar"@, list[0].1, ",\"name\":"@ + r1);
}

/// The script of the last page is told the login that was issued.
pub proof fn law_script_is_told_the_login(login: LoginView)
    ensures
        object_text(login_members(login)) == told_text(
            match login.region {
                Region::Cn => "cn"@,
                Region::Global => "global"@,
            },
            login.session_token,
            login.user.avatar,
            login.user.name,
            login.user.openid,
        ),
{
    lemma_keys();
    let list = login_members(login);
    let user = login.user;
    lemma_three_members(list);
    lemma_user_text(user);
    let region = match login.region {
        Region::Cn => "cn"@,
        Region::Global => "global"@,
    };
    let inner = object_text(user_members(user));
    let r3 = quoted_or_null(user.name) + (",\"openid\":"@ + (json_quoted(user.openid) + seq!['}']));
    let t3 = quoted_or_null(user.name) + (",\"openid\":"@ + (json_quoted(user.openid) + "}}"@));
    let k1 = seq![',', '"'] + "user"@ + seq!['"', ':'];
    let k2 = seq!['{', '"'] + "avatar"@ + seq!['"', ':'];
    lemma_member_behind(',', "user"@, list[2].1, seq!['}']);
    assert(r3 + seq!['}'] =~= t3) by {
        let n = quoted_or_null(user.name);
        let o = json_quoted(user.openid);
        let k = ",\"openid\":"@;
        assert((n + (k + (o + seq!['}']))) + seq!['}'] =~= n + (k + (o + (seq!['}'] + seq!['}']))));
    }
    let a = quoted_or_null(user.avatar);
    let k = ",\"name\":"@;
    assert(k1 + ((k2 + (a + (k + r3))) + seq!['}']) =~= (k1 + k2) + (a + (k + (r3 + seq!['}']))));
    let r2 = json_quoted(login.session_token) + (",\"user\":{\"avatar\":"@ + (a + (k + t3)));
    lemma_member_behind(',', "session_token"@, list[1].1, ",\"user\":{\"avatar\":"@ + (a + (k + t3)));
    lemma_member_behind('{', "region"@, list[0].1, ",\"session_token\":"@ + r2);
}

/// The player that the script of the last page is told of is the one in the profile: looking up their
/// avatar, name and open ID gives those of the profile, and `null` only where it has none.
pub proof fn law_script_is_told_the_player(user: ProfileView)
    ensures
        value_of(user_members(user), "avatar"@) == Some(
            match user.avatar {
                Some(avatar) => JsonView::Text(avatar),
                None => JsonView::Null,
            },
        ),
        value_of(user_members(user), "name"@) == Some(
            match user.name {
                Some(name) => JsonView::Text(name),
                None => JsonView::Null,
            },
        ),
        value_of(user_members(user), "openid"@) == Some(JsonView::Text(user.openid)),
{
    reveal_strlit("avatar");
    reveal_strlit("name");
    reveal_strlit("openid");
    reveal_with_fuel(value_of, 4);
    let list = user_members(user);
    assert(list.drop_first()[0] == list[1]);
    assert(list.drop_first().drop_first()[0] == list[2]);
    assert("openid"@[0] != "avatar"@[0]);
    assert("name"@.len() == 4);
}

/// The last page stores the token of the session and the profile in the browser, and leads home.
pub proof fn law_success_page_is_written(base_path: Seq<char>, login: LoginView)
    ensures
        success_page_text(base_path, login) == page_text(
            "登录成功"@,
            "<h1>授权成功</h1><p>正在返回游戏…</p>
    <script>
      const login = "@ + script_text(object_text(login_members(login))) + ";
      sessionStorage.setItem(\"taptap_game_session\", login.session_token);
      sessionStorage.setItem(
        \"taptap_game_profile\",
        JSON.stringify({
          sub: login.user.openid,
          region: login.region,
          name: login.user.name || \"TapTap 玩家\",
          avatar: login.user.avatar || null,
        }),
      );
      location.replace(\""@ + (base_path + seq!['/']) + "\");
    </script>
    <noscript><p><a href=\""@ + (base_path + seq!['/'])
                + "\">返回登录页</a></p></noscript>"@,
        ),
{
    reveal_strlit("/");
    assert("/"@ =~= seq!['/']);
}

/// How a character of a string is written inside a script element.
spec fn told_char(c: char) -> Seq<char> {
    script_text(json_escape(c))
}

proof fn lemma_script_join(a: Seq<char>, b: Seq<char>)
    ensures
        script_text(a + b) == script_text(a) + script_text(b),
{
    lemma_expand_join(a, b, |c: char| script_char(c));
}

proof fn lemma_script_one(c: char)
    ensures
        script_text(seq![c]) == script_char(c),
{
    let f = |c: char| script_char(c);
    assert(seq![c].drop_first() =~= Seq::empty());
    assert(expand(seq![c].drop_first(), f) =~= Seq::empty());
    assert(expand(seq![c], f) =~= f(c));
}

proof fn lemma_script_plain(s: Seq<char>)
    requires
        forall|i: int|
            0 <= i < s.len() ==> #[trigger] s[i] != '<' && s[i] != '>' && s[i] != '&',
    ensures
        script_text(s) == s,
    decreases s.len(),
{
    if s.len() == 0 {
        assert(script_text(s) =~= s);
    } else {
        let rest = s.drop_last();
        assert forall|i: int| 0 <= i < rest.len() implies #[trigger] rest[i] != '<' && rest[i] != '>'
            && rest[i] != '&' by {
            assert(rest[i] == s[i]);
        }
        lemma_script_plain(rest);
        law_script_text_spells_the_text(rest, s.last());
        assert(rest.push(s.last()) =~= s);
        assert(script_text(s) =~= s);
    }
}

proof fn lemma_told_char(c: char)
    ensures
        told_char(c).len() > 0,
        told_char(c)[0] != '"',
        told_char(c)[0] == '\\' ==> told_char(c).len() == if told_char(c)[1] == 'u' {
            6int
        } else {
            2
        },
        told_char(c)[0] != '\\' ==> told_char(c) == seq![c],
{
    reveal_strlit("\\u003c");
    reveal_strlit("\\u003e");
    reveal_strlit("\\u0026");
    if c == '<' || c == '>' || c == '&' {
        lemma_script_one(c);
        assert(json_escape(c) =~= seq![c]);
    } else {
        lemma_script_plain(json_escape(c));
    }
}

proof fn lemma_told_chars_differ(c: char, d: char)
    requires
        told_char(c) == told_char(d),
    ensures
        c == d,
{
    reveal_strlit("\\u003c");
    reveal_strlit("\\u003e");
    reveal_strlit("\\u0026");
    lemma_script_one(c);
    lemma_script_one(d);
    if !(c == '<' || c == '>' || c == '&') {
        lemma_script_plain(json_escape(c));
    } else {
        assert(json_escape(c) =~= seq![c]);
    }
    if !(d == '<' || d == '>' || d == '&') {
        lemma_script_plain(json_escape(d));
    } else {
        assert(json_escape(d) =~= seq![d]);
    }
    let x = told_char(c);
    let y = told_char(d);
    assert(x[0] == y[0]);
    if x.len() > 1 {
        assert(x[1] == y[1]);
    }
    if x.len() > 5 {
        assert(x[2] == y[2] && x[3] == y[3] && x[4] == y[4] && x[5] == y[5]);
    }
}

proof fn lemma_told_front(s: Seq<char>)
    requires
        s.len() > 0,
    ensures
        script_text(expand(s, |c: char| json_escape(c))) == told_char(s[0]) + script_text(
            expand(s.drop_first(), |c: char| json_escape(c)),
        ),
{
    lemma_script_join(json_escape(s[0]), expand(s.drop_first(), |c: char| json_escape(c)));
}

/// A string that is told ends at its quotation mark, and tells which string it is.
proof fn lemma_told_string_splits(s: Seq<char>, x: Seq<char>, t: Seq<char>, y: Seq<char>)
    requires
        script_text(expand(s, |c: char| json_escape(c))) + seq!['"'] + x == script_text(
            expand(t, |c: char| json_escape(c)),
        ) + seq!['"'] + y,
    ensures
        s == t,
        x == y,
    decreases s.len(),
{
    let f = |c: char| json_escape(c);
    let es = script_text(expand(s, f));
    let et = script_text(expand(t, f));
    let a = es + seq!['"'] + x;
    let b = et + seq!['"'] + y;
    if s.len() > 0 {
        lemma_told_front(s);
        lemma_told_char(s[0]);
    } else {
        assert(expand(s, f) =~= Seq::empty());
        assert(es =~= Seq::empty());
    }
    if t.len() > 0 {
        lemma_told_front(t);
        lemma_told_char(t[0]);
    } else {
        assert(expand(t, f) =~= Seq::empty());
        assert(et =~= Seq::empty());
    }
    if s.len() == 0 && t.len() == 0 {
        assert(s =~= t);
        assert(x =~= a.skip(1));
        assert(y =~= b.skip(1));
    } else if s.len() == 0 {
        assert(a[0] == '"');
        assert(b[0] == told_char(t[0])[0]);
    } else if t.len() == 0 {
        assert(b[0] == '"');
        assert(a[0] == told_char(s[0])[0]);
    } else {
        let c = told_char(s[0]);
        let d = told_char(t[0]);
        let s1 = script_text(expand(s.drop_first(), f));
        let t1 = script_text(expand(t.drop_first(), f));
        assert(a =~= c + (s1 + seq!['"'] + x));
        assert(b =~= d + (t1 + seq!['"'] + y));
        assert(a[0] == c[0] && b[0] == d[0]);
        if c[0] == '\\' {
            assert(a[1] == c[1] && b[1] == d[1]);
        }
        assert(c.len() == d.len());
        assert(c =~= a.take(c.len() as int));
        assert(d =~= b.take(d.len() as int));
        lemma_told_chars_differ(s[0], t[0]);
        assert(s1 + seq!['"'] + x =~= a.skip(c.len() as int));
        assert(t1 + seq!['"'] + y =~= b.skip(d.len() as int));
        lemma_told_string_splits(s.drop_first(), x, t.drop_first(), y);
        assert(s =~= seq![s[0]] + s.drop_first());
        assert(t =~= seq![t[0]] + t.drop_first());
    }
}

proof fn lemma_quoted_splits(s: Seq<char>, x: Seq<char>, t: Seq<char>, y: Seq<char>)
    requires
        script_text(json_quoted(s)) + x == script_text(json_quoted(t)) + y,
    ensures
        s == t,
        x == y,
{
    let f = |c: char| json_escape(c);
    lemma_script_one('"');
    lemma_script_join(seq!['"'], expand(s, f));
    lemma_script_join(seq!['"'] + expand(s, f), seq!['"']);
    lemma_script_join(seq!['"'], expand(t, f));
    lemma_script_join(seq!['"'] + expand(t, f), seq!['"']);
    let es = script_text(expand(s, f));
    let et = script_text(expand(t, f));
    let a = script_text(json_quoted(s)) + x;
    let b = script_text(json_quoted(t)) + y;
    assert(a =~= seq!['"'] + (es + seq!['"'] + x));
    assert(b =~= seq!['"'] + (et + seq!['"'] + y));
    assert(es + seq!['"'] + x =~= a.skip(1));
    assert(et + seq!['"'] + y =~= b.skip(1));
    lemma_told_string_splits(s, x, t, y);
}

proof fn lemma_optional_splits(
    s: Option<Seq<char>>,
    x: Seq<char>,
    t: Option<Seq<char>>,
    y: Seq<char>,
)
    requires
        script_text(quoted_or_null(s)) + x == script_text(quoted_or_null(t)) + y,
    ensures
        s == t,
        x == y,
{
    reveal_strlit("null");
    lemma_script_plain("null"@);
    let a = script_text(quoted_or_null(s)) + x;
    let b = script_text(quoted_or_null(t)) + y;
    if s is Some {
        lemma_told_begins(s->0);
        assert(a[0] == '"');
    } else {
        assert(a[0] == 'n');
        assert(x =~= a.skip(4));
    }
    if t is Some {
        lemma_told_begins(t->0);
        assert(b[0] == '"');
    } else {
        assert(b[0] == 'n');
        assert(y =~= b.skip(4));
    }
    if s is Some && t is Some {
        lemma_quoted_splits(s->0, x, t->0, y);
    }
}

proof fn lemma_told_begins(s: Seq<char>)
    ensures
        script_text(json_quoted(s)).len() > 0,
        script_text(json_quoted(s))[0] == '"',
{
    let f = |c: char| json_escape(c);
    lemma_script_one('"');
    lemma_script_join(seq!['"'], expand(s, f) + seq!['"']);
    assert(json_quoted(s) =~= seq!['"'] + (expand(s, f) + seq!['"']));
}

/// What the script is told, as it is written in the page.
proof fn lemma_told_text(login: LoginView)
    ensures
        ({
            let region = match login.region {
                Region::Cn => "cn"@,
                Region::Global => "global"@,
            };
            let user = login.user;
            script_text(object_text(login_members(login))) == "{\"region\":"@ + (script_text(
                json_quoted(region),
            ) + (",\"session_token\":"@ + (script_text(json_quoted(login.session_token)) + (
            ",\"user\":{\"avatar\":"@ + (script_text(quoted_or_null(user.avatar)) + (",\"name\":"@ + (
            script_text(quoted_or_null(user.name)) + (",\"openid\":"@ + (script_text(
                json_quoted(user.openid),
            ) + "}}"@)))))))))
        }),
{
    law_script_is_told_the_login(login);
    let region = match login.region {
        Region::Cn => "cn"@,
        Region::Global => "global"@,
    };
    let user = login.user;
    reveal_strlit("{\"region\":");
    reveal_strlit(",\"session_token\":");
    reveal_strlit(",\"user\":{\"avatar\":");
    reveal_strlit(",\"name\":");
    reveal_strlit(",\"openid\":");
    reveal_strlit("}}");
    lemma_script_plain("}}"@);
    let t5 = json_quoted(user.openid) + "}}"@;
    let t4 = quoted_or_null(user.name) + (",\"openid\":"@ + t5);
    let t3 = quoted_or_null(user.avatar) + (",\"name\":"@ + t4);
    let t2 = json_quoted(login.session_token) + (",\"user\":{\"avatar\":"@ + t3);
    lemma_script_step(",\"openid\":"@, json_quoted(user.openid), "}}"@);
    lemma_script_step(",\"name\":"@, quoted_or_null(user.name), ",\"openid\":"@ + t5);
    lemma_script_step(",\"user\":{\"avatar\":"@, quoted_or_null(user.avatar), ",\"name\":"@ + t4);
    lemma_script_step(
        ",\"session_token\":"@,
        json_quoted(login.session_token),
        ",\"user\":{\"avatar\":"@ + t3,
    );
    lemma_script_step("{\"region\":"@, json_quoted(region), ",\"session_token\":"@ + t2);
}

/// What the script is told, taken from the front: a part that is written as it is, and a value.
proof fn lemma_script_step(p: Seq<char>, q: Seq<char>, rest: Seq<char>)
    requires
        forall|i: int|
            0 <= i < p.len() ==> #[trigger] p[i] != '<' && p[i] != '>' && p[i] != '&',
    ensures
        script_text(p + (q + rest)) == p + (script_text(q) + script_text(rest)),
{
    lemma_script_plain(p);
    lemma_script_join(p, q + rest);
    lemma_script_join(q, rest);
}

proof fn lemma_cancel(p: Seq<char>, x: Seq<char>, y: Seq<char>)
    requires
        p + x == p + y,
    ensures
        x == y,
{
    assert(x =~= (p + x).skip(p.len() as int));
    assert(y =~= (p + y).skip(p.len() as int));
}

/// The last page tells whom it is for: two pages of one service are the same only if the region, the
/// token of the session and the player's open ID, name and avatar are.
pub proof fn law_success_page_tells_the_login(base_path: Seq<char>, a: LoginView, b: LoginView)
    requires
        success_page_text(base_path, a) == success_page_text(base_path, b),
    ensures
        a.region == b.region,
        a.session_token == b.session_token,
        a.user.openid == b.user.openid,
        a.user.name == b.user.name,
        a.user.avatar == b.user.avatar,
{
    let home = base_path + "/"@;
    let before = PAGE_START@ + "登录成功"@ + PAGE_MIDDLE@ + SUCCESS_START@;
    let after = SUCCESS_MIDDLE@ + home + SUCCESS_LINK@ + home + SUCCESS_END@ + PAGE_END@;
    let x = script_text(object_text(login_members(a)));
    let y = script_text(object_text(login_members(b)));
    let page = success_page_text(base_path, a);
    assert(page =~= before + x + after);
    assert(success_page_text(base_path, b) =~= before + y + after);
    assert(x.len() == y.len()) by {
        assert(page.len() == before.len() + x.len() + after.len());
        assert(page.len() == before.len() + y.len() + after.len());
    }
    assert(x =~= page.subrange(before.len() as int, (before.len() + x.len()) as int));
    assert(y =~= page.subrange(before.len() as int, (before.len() + y.len()) as int));
    lemma_told_text(a);
    lemma_told_text(b);
    let ra = match a.region {
        Region::Cn => "cn"@,
        Region::Global => "global"@,
    };
    let rb = match b.region {
        Region::Cn => "cn"@,
        Region::Global => "global"@,
    };
    let a5 = script_text(json_quoted(a.user.openid)) + "}}"@;
    let a4 = script_text(quoted_or_null(a.user.name)) + (",\"openid\":"@ + a5);
    let a3 = script_text(quoted_or_null(a.user.avatar)) + (",\"name\":"@ + a4);
    let a2 = script_text(json_quoted(a.session_token)) + (",\"user\":{\"avatar\":"@ + a3);
    let a1 = script_text(json_quoted(ra)) + (",\"session_token\":"@ + a2);
    let b5 = script_text(json_quoted(b.user.openid)) + "}}"@;
    let b4 = script_text(quoted_or_null(b.user.name)) + (",\"openid\":"@ + b5);
    let b3 = script_text(quoted_or_null(b.user.avatar)) + (",\"name\":"@ + b4);
    let b2 = script_text(json_quoted(b.session_token)) + (",\"user\":{\"avatar\":"@ + b3);
    let b1 = script_text(json_quoted(rb)) + (",\"session_token\":"@ + b2);
    lemma_cancel("{\"region\":"@, a1, b1);
    lemma_quoted_splits(ra, ",\"session_token\":"@ + a2, rb, ",\"session_token\":"@ + b2);
    lemma_cancel(",\"session_token\":"@, a2, b2);
    lemma_quoted_splits(
        a.session_token,
        ",\"user\":{\"avatar\":"@ + a3,
        b.session_token,
        ",\"user\":{\"avatar\":"@ + b3,
    );
    lemma_cancel(",\"user\":{\"avatar\":"@, a3, b3);
    lemma_optional_splits(a.user.avatar, ",\"name\":"@ + a4, b.user.avatar, ",\"name\":"@ + b4);
    lemma_cancel(",\"name\":"@, a4, b4);
    lemma_optional_splits(a.user.name, ",\"openid\":"@ + a5, b.user.name, ",\"openid\":"@ + b5);
    lemma_cancel(",\"openid\":"@, a5, b5);
    lemma_quoted_splits(a.user.openid, "}}"@, b.user.openid, "}}"@);
    reveal_strlit("cn");
    reveal_strlit("global");
    assert("cn"@.len() != "global"@.len());
}

} // verus!
