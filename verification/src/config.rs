//! How the service is set up.

use vstd::prelude::*;
use vstd::utf8::encode_utf8;

use crate::taptap::Region;
use crate::text::all_chars;
use crate::text::blank;
use crate::text::chars_of;
use crate::text::join;
use crate::text::law_slashes_are_trimmed;
use crate::text::law_white_space_is_trimmed;
use crate::text::optional_text;
use crate::text::slash;
use crate::text::slashes;
use crate::text::strip_prefix;
use crate::text::trim;
use crate::text::trim_end;
use crate::text::trim_end_slashes;
use crate::text::trim_start;
use crate::text::trim_start_slashes;
use crate::text::white_space;

verus! {

/// The settings as they stand in the environment.
pub struct Variables {
    /// `TAPTAP_CN_CLIENT_ID`
    pub cn_client_id: Option<String>,
    /// `TAPTAP_GLOBAL_CLIENT_ID`
    pub global_client_id: Option<String>,
    /// `SESSION_SECRET`
    pub session_secret: Option<String>,
    /// `PUBLIC_BASE_URL`
    pub public_base_url: Option<String>,
    /// `PUBLIC_BASE_PATH`
    pub public_base_path: Option<String>,
}

/// What `Variables` stand for.
pub struct VariablesView {
    pub cn_client_id: Option<Seq<char>>,
    pub global_client_id: Option<Seq<char>>,
    pub session_secret: Option<Seq<char>>,
    pub public_base_url: Option<Seq<char>>,
    pub public_base_path: Option<Seq<char>>,
}

impl View for Variables {
    type V = VariablesView;

    open spec fn view(&self) -> VariablesView {
        VariablesView {
            cn_client_id: optional_text(self.cn_client_id),
            global_client_id: optional_text(self.global_client_id),
            session_secret: optional_text(self.session_secret),
            public_base_url: optional_text(self.public_base_url),
            public_base_path: optional_text(self.public_base_path),
        }
    }
}

/// The settings of the service.
pub struct Config {
    pub cn_client_id: Option<String>,
    pub global_client_id: Option<String>,
    pub session_secret: Vec<u8>,
    pub public_base_url: Option<String>,
    /// The path under which the service is reachable from outside: empty, or `/prefix` without a
    /// slash at its end. Only links that the service makes carry it; a reverse proxy strips it from
    /// requests.
    pub public_base_path: String,
}

/// What a `Config` stands for.
pub struct ConfigView {
    pub cn_client_id: Option<Seq<char>>,
    pub global_client_id: Option<Seq<char>>,
    pub session_secret: Seq<u8>,
    pub public_base_url: Option<Seq<char>>,
    pub public_base_path: Seq<char>,
}

impl View for Config {
    type V = ConfigView;

    open spec fn view(&self) -> ConfigView {
        ConfigView {
            cn_client_id: optional_text(self.cn_client_id),
            global_client_id: optional_text(self.global_client_id),
            session_secret: self.session_secret@,
            public_base_url: optional_text(self.public_base_url),
            public_base_path: self.public_base_path@,
        }
    }
}

impl ConfigView {
    /// The client ID for a region.
    pub open spec fn client(self, region: Region) -> Option<Seq<char>> {
        match region {
            Region::Cn => self.cn_client_id,
            Region::Global => self.global_client_id,
        }
    }
}

/// What the front page has to know of the settings.
pub struct PublicConfig {
    pub cn: bool,
    pub global: bool,
    pub web: bool,
}

/// A setting counts as missing where it is empty.
pub open spec fn unless_empty(value: Option<Seq<char>>) -> Option<Seq<char>> {
    match value {
        Some(text) => if text.len() == 0 {
            None
        } else {
            value
        },
        None => None,
    }
}

/// The characters that a base path may hold. None of them ends a string or an attribute in the HTML
/// and scripts that the path becomes part of.
pub open spec fn base_path_char(c: char) -> bool {
    ||| 'a' <= c <= 'z'
    ||| 'A' <= c <= 'Z'
    ||| '0' <= c <= '9'
    ||| c == '/'
    ||| c == '-'
    ||| c == '_'
}

/// A base path without the white space around it and the slashes at its ends.
pub open spec fn bare_base_path(raw: Seq<char>) -> Seq<char> {
    let trimmed = trim_end(trim_start(raw, |c: char| white_space(c)), |c: char| white_space(c));
    trim_start(trim_end(trimmed, |c: char| slash(c)), |c: char| slash(c))
}

/// The base path that a setting stands for: empty, or with a slash in front; `None` where it holds
/// other characters than it may.
pub open spec fn normalized_base_path(raw: Option<Seq<char>>) -> Option<Seq<char>> {
    match raw {
        None => Some(Seq::empty()),
        Some(raw) => {
            let bare = bare_base_path(raw);
            if bare.len() == 0 {
                Some(Seq::empty())
            } else if all_chars(bare, |c: char| base_path_char(c)) {
                Some("/"@ + bare)
            } else {
                None
            }
        },
    }
}

/// A base path in its normal form: empty, or with a slash in front and none at the end, and nothing
/// but permitted characters.
pub open spec fn normal_base_path(path: Seq<char>) -> bool {
    ||| path.len() == 0
    ||| {
        &&& path.len() > 1
        &&& path[0] == '/'
        &&& path[1] != '/'
        &&& path.last() != '/'
        &&& all_chars(path, |c: char| base_path_char(c))
    }
}

/// Whether a base URL has one of the two schemes.
pub open spec fn web_scheme(url: Seq<char>) -> bool {
    "https://"@.is_prefix_of(url) || "http://"@.is_prefix_of(url)
}

/// The settings that the environment stands for, or what is wrong with them.
pub open spec fn config_outcome(vars: VariablesView) -> Result<ConfigView, Seq<char>> {
    let cn_client_id = unless_empty(vars.cn_client_id);
    let global_client_id = unless_empty(vars.global_client_id);
    let public_base_url = unless_empty(vars.public_base_url);
    if cn_client_id is None && global_client_id is None {
        Err("set TAPTAP_CN_CLIENT_ID and/or TAPTAP_GLOBAL_CLIENT_ID"@)
    } else if vars.session_secret is None {
        Err("set SESSION_SECRET to a random value of at least 32 bytes"@)
    } else if encode_utf8(vars.session_secret->0).len() < 32 {
        Err("SESSION_SECRET must contain at least 32 bytes"@)
    } else if public_base_url is Some && !web_scheme(public_base_url->0) {
        Err("PUBLIC_BASE_URL must start with https:// or http://"@)
    } else {
        match normalized_base_path(vars.public_base_path) {
            None => Err(
                "PUBLIC_BASE_PATH may only contain ASCII letters, digits, '/', '-' and '_'"@,
            ),
            Some(public_base_path) => Ok(
                ConfigView {
                    cn_client_id,
                    global_client_id,
                    session_secret: encode_utf8(vars.session_secret->0),
                    public_base_url,
                    public_base_path,
                },
            ),
        }
    }
}

/// A setting counts as missing where it is empty.
fn filter_empty(value: Option<String>) -> (res: Option<String>)
    ensures
        optional_text(res) == unless_empty(optional_text(value)),
{
    match value {
        Some(text) => if text.as_str().is_empty() {
            None
        } else {
            Some(text)
        },
        None => None,
    }
}

impl Config {
    /// Reads the settings from the environment.
    pub fn from_env(vars: Variables) -> (res: Result<Config, String>)
        ensures
            match res {
                Ok(config) => config_outcome(vars@) == Ok::<ConfigView, Seq<char>>(config@),
                Err(message) => config_outcome(vars@) == Err::<ConfigView, Seq<char>>(message@),
            },
    {
        let cn_client_id = filter_empty(vars.cn_client_id);
        let global_client_id = filter_empty(vars.global_client_id);
        if cn_client_id.is_none() && global_client_id.is_none() {
            return Err("set TAPTAP_CN_CLIENT_ID and/or TAPTAP_GLOBAL_CLIENT_ID".to_owned());
        }
        let session_secret = match vars.session_secret {
            Some(secret) => secret.as_str().as_bytes_vec(),
            None => return Err(
                "set SESSION_SECRET to a random value of at least 32 bytes".to_owned(),
            ),
        };
        if session_secret.len() < 32 {
            return Err("SESSION_SECRET must contain at least 32 bytes".to_owned());
        }
        let public_base_url = filter_empty(vars.public_base_url);
        if let Some(base) = &public_base_url {
            if strip_prefix(base.as_str(), "https://").is_none() && strip_prefix(
                base.as_str(),
                "http://",
            ).is_none() {
                return Err("PUBLIC_BASE_URL must start with https:// or http://".to_owned());
            }
        }
        let public_base_path = match normalize_base_path(vars.public_base_path) {
            Ok(path) => path,
            Err(message) => return Err(message),
        };
        Ok(
            Config {
                cn_client_id,
                global_client_id,
                session_secret,
                public_base_url,
                public_base_path,
            },
        )
    }

    /// The client ID for a region.
    pub fn client_id(&self, region: Region) -> (res: Option<&str>)
        ensures
            res is Some <==> self@.client(region) is Some,
            res matches Some(id) ==> self@.client(region) == Some(id@),
    {
        let id = match region {
            Region::Cn => &self.cn_client_id,
            Region::Global => &self.global_client_id,
        };
        match id {
            Some(id) => Some(id.as_str()),
            None => None,
        }
    }
}

/// What the front page has to know of the settings.
pub fn public_config(config: &Config) -> (res: PublicConfig)
    ensures
        res.cn == (config@.cn_client_id is Some),
        res.global == (config@.global_client_id is Some),
        res.web == (config@.public_base_url is Some),
{
    PublicConfig {
        cn: config.cn_client_id.is_some(),
        global: config.global_client_id.is_some(),
        web: config.public_base_url.is_some(),
    }
}

/// Whether a base path holds nothing but permitted characters.
fn base_path_is_permitted(path: &str) -> (res: bool)
    ensures
        res == all_chars(path@, |c: char| base_path_char(c)),
{
    let chars = chars_of(path);
    for i in 0..chars.len()
        invariant
            chars@ == path@,
            forall|j: int| 0 <= j < i ==> base_path_char(#[trigger] path@[j]),
    {
        let c: char = chars[i];
        if !(('a' <= c && c <= 'z') || ('A' <= c && c <= 'Z') || ('0' <= c && c <= '9') || c == '/'
            || c == '-' || c == '_') {
            assert(!base_path_char(path@[i as int]));
            return false;
        }
    }
    true
}

/// Brings `PUBLIC_BASE_PATH` into the form of an empty text or `/prefix`. A missing or empty value
/// and `/` all stand for the root.
pub fn normalize_base_path(raw: Option<String>) -> (res: Result<String, String>)
    ensures
        match res {
            Ok(path) => normalized_base_path(optional_text(raw)) == Some(path@),
            Err(message) => normalized_base_path(optional_text(raw)) is None && message@
                == "PUBLIC_BASE_PATH may only contain ASCII letters, digits, '/', '-' and '_'"@,
        },
{
    let raw = match raw {
        Some(raw) => raw,
        None => return Ok(String::new()),
    };
    let trimmed = trim_end_slashes(trim(raw.as_str()).as_str());
    let trimmed = trim_start_slashes(trimmed.as_str());
    if trimmed.as_str().is_empty() {
        return Ok(String::new());
    }
    if !base_path_is_permitted(trimmed.as_str()) {
        return Err(
            "PUBLIC_BASE_PATH may only contain ASCII letters, digits, '/', '-' and '_'".to_owned(),
        );
    }
    Ok(join("/", trimmed.as_str()))
}

proof fn lemma_trim_start(s: Seq<char>, p: spec_fn(char) -> bool)
    ensures
        trim_start(s, p).len() > 0 ==> !p(trim_start(s, p)[0]),
        s.len() > 0 && trim_start(s, p).len() > 0 ==> trim_start(s, p).last() == s.last(),
        s.len() == 0 ==> trim_start(s, p).len() == 0,
    decreases s.len(),
{
    if s.len() > 0 && p(s[0]) {
        lemma_trim_start(s.drop_first(), p);
    }
}

proof fn lemma_trim_end(s: Seq<char>, p: spec_fn(char) -> bool)
    ensures
        trim_end(s, p).len() > 0 ==> !p(trim_end(s, p).last()),
    decreases s.len(),
{
    if s.len() > 0 && p(s.last()) {
        lemma_trim_end(s.drop_last(), p);
    }
}

/// Whatever the setting, the base path comes out in its normal form.
pub proof fn law_base_path_is_normal(raw: Option<Seq<char>>)
    ensures
        normalized_base_path(raw) matches Some(path) ==> normal_base_path(path),
{
    reveal_strlit("/");
    if let Some(path) = normalized_base_path(raw) {
        if path.len() > 0 {
            let white = |c: char| white_space(c);
            let slashes = |c: char| slash(c);
            let trimmed = trim_end(trim_start(raw->0, white), white);
            lemma_trim_end(trimmed, slashes);
            lemma_trim_start(trim_end(trimmed, slashes), slashes);
            let bare = bare_base_path(raw->0);
            assert(path =~= seq!['/'] + bare);
            assert forall|i: int| 0 <= i < path.len() implies base_path_char(#[trigger] path[i]) by {
                if i > 0 {
                    assert(path[i] == bare[i - 1]);
                }
            }
        }
    }
}

/// A base path in its normal form stays as it is.
pub proof fn law_normal_base_path_is_kept(path: Seq<char>)
    requires
        normal_base_path(path),
    ensures
        normalized_base_path(Some(path)) == Some(path),
{
    reveal_strlit("/");
    if path.len() > 0 {
        let white = |c: char| white_space(c);
        let slashes = |c: char| slash(c);
        assert(base_path_char(path[0]));
        assert(base_path_char(path.last()));
        assert(trim_start(path, white) == path);
        assert(trim_end(path, white) == path);
        assert(trim_end(path, slashes) == path);
        let bare = path.drop_first();
        assert(trim_start(bare, slashes) == bare);
        assert(trim_start(path, slashes) == bare);
        assert forall|i: int| 0 <= i < bare.len() implies base_path_char(#[trigger] bare[i]) by {
            assert(bare[i] == path[i + 1]);
        }
        assert("/"@ + bare =~= path);
    } else {
        assert(path =~= Seq::<char>::empty());
    }
}

/// Settings that were read without complaint name a client for some region and hold a secret of at
/// least 32 bytes, a base URL with a web scheme if any, and a base path in its normal form.
pub proof fn law_config_is_usable(vars: VariablesView)
    ensures
        config_outcome(vars) matches Ok(config) ==> {
            &&& exists|region: Region| #[trigger] config.client(region) is Some
            &&& forall|region: Region| #[trigger] config.client(region) matches Some(id) ==> id.len() > 0
            &&& config.session_secret.len() >= 32
            &&& config.public_base_url matches Some(url) ==> web_scheme(url)
            &&& normal_base_path(config.public_base_path)
        },
{
    law_base_path_is_normal(vars.public_base_path);
    if let Ok(config) = config_outcome(vars) {
        assert(config.client(Region::Cn) is Some || config.client(Region::Global) is Some);
    }
}

/// Whether a character may stand in a base path.
pub open spec fn permitted_code(c: int) -> bool {
    0x30 <= c <= 0x39 || 0x41 <= c <= 0x5a || 0x61 <= c <= 0x7a || c == 0x2d || c == 0x2f || c == 0x5f
}

/// A base path is found inside the white space and the slashes around it, and then gets one slash in
/// front. It is refused exactly where it holds anything but ASCII letters, digits, `/`, `-` and `_`.
pub proof fn law_base_path_is_cut_out(
    blank_before: Seq<char>,
    slashes_before: Seq<char>,
    core: Seq<char>,
    slashes_after: Seq<char>,
    blank_after: Seq<char>,
)
    requires
        blank(blank_before) && blank(blank_after),
        slashes(slashes_before) && slashes(slashes_after),
        core.len() > 0,
        core[0] as int != 0x2f && core.last() as int != 0x2f,
        slashes_before.len() == 0 ==> !blank(seq![core[0]]),
        slashes_after.len() == 0 ==> !blank(seq![core.last()]),
    ensures
        normalized_base_path(
            Some(blank_before + (slashes_before + core + slashes_after) + blank_after),
        ) == if forall|i: int| 0 <= i < core.len() ==> permitted_code(#[trigger] core[i] as int) {
            Some(seq!['/'] + core)
        } else {
            None
        },
{
    let inner = slashes_before + core + slashes_after;
    if slashes_before.len() > 0 {
        assert(inner[0] == slashes_before[0]);
        let first = seq![inner[0]];
        assert(!blank(first)) by {
            assert(first[0] as int == 0x2f);
        }
    } else {
        assert(inner[0] == core[0]);
    }
    if slashes_after.len() > 0 {
        assert(inner.last() == slashes_after.last());
        let last = seq![inner.last()];
        assert(!blank(last)) by {
            assert(last[0] as int == 0x2f);
        }
    } else {
        assert(inner.last() == core.last());
    }
    law_white_space_is_trimmed(blank_before, inner, blank_after);
    law_slashes_are_trimmed(slashes_before, core, slashes_after);
    reveal_strlit("/");
    assert("/"@ =~= seq!['/']);
    let p = |c: char| base_path_char(c);
    if forall|i: int| 0 <= i < core.len() ==> permitted_code(#[trigger] core[i] as int) {
        assert forall|i: int| 0 <= i < core.len() implies p(#[trigger] core[i]) by {
            assert(permitted_code(core[i] as int));
        }
        assert(all_chars(core, p));
    } else {
        let i = choose|i: int| 0 <= i < core.len() && !permitted_code(#[trigger] core[i] as int);
        assert(!p(core[i]));
    }
}

/// A base path that is missing, or made of white space around slashes, stands for the root.
pub proof fn law_root_has_no_base_path(before: Seq<char>, run: Seq<char>, after: Seq<char>)
    requires
        blank(before) && blank(after),
        slashes(run),
    ensures
        normalized_base_path(None) == Some(Seq::<char>::empty()),
        normalized_base_path(Some(before + run + after)) == Some(Seq::<char>::empty()),
{
    if run.len() > 0 {
        let first = seq![run[0]];
        let last = seq![run.last()];
        assert(first[0] as int == 0x2f);
        assert(last[0] as int == 0x2f);
        assert(!blank(first));
        assert(!blank(last));
    }
    law_white_space_is_trimmed(before, run, after);
    law_slashes_are_trimmed(run, Seq::empty(), Seq::empty());
    assert(run + Seq::<char>::empty() + Seq::<char>::empty() =~= run);
}

/// Whether a base path is written as the service writes it.
pub open spec fn written_base_path(path: Seq<char>) -> bool {
    path.len() == 0 || {
        &&& path.len() > 1
        &&& path[0] as int == 0x2f
        &&& path[1] as int != 0x2f
        &&& path.last() as int != 0x2f
        &&& forall|i: int| 0 <= i < path.len() ==> permitted_code(#[trigger] path[i] as int)
    }
}

/// Whether a setting says something.
pub open spec fn says_something(value: Option<Seq<char>>) -> bool {
    value is Some && value->0.len() > 0
}

/// Whether a base URL, where there is one, begins with one of the two schemes.
pub open spec fn begins_with_a_scheme(url: Option<Seq<char>>) -> bool {
    says_something(url) ==> {
        ||| exists|rest: Seq<char>| url->0 == "https://"@ + rest
        ||| exists|rest: Seq<char>| url->0 == "http://"@ + rest
    }
}

proof fn lemma_scheme(url: Seq<char>)
    ensures
        web_scheme(url) <==> (exists|rest: Seq<char>| url == "https://"@ + rest) || (exists|
            rest: Seq<char>,
        | url == "http://"@ + rest),
{
    if "https://"@.is_prefix_of(url) {
        assert(url =~= "https://"@ + url.skip("https://"@.len() as int));
    }
    if "http://"@.is_prefix_of(url) {
        assert(url =~= "http://"@ + url.skip("http://"@.len() as int));
    }
    if exists|rest: Seq<char>| url == "https://"@ + rest {
        let rest = choose|rest: Seq<char>| url == "https://"@ + rest;
        assert(url.subrange(0, "https://"@.len() as int) =~= "https://"@);
    }
    if exists|rest: Seq<char>| url == "http://"@ + rest {
        let rest = choose|rest: Seq<char>| url == "http://"@ + rest;
        assert(url.subrange(0, "http://"@.len() as int) =~= "http://"@);
    }
}

/// Settings that are in order are accepted and kept as they are; an empty one counts as missing.
pub proof fn law_settings_in_order_are_accepted(vars: VariablesView)
    requires
        says_something(vars.cn_client_id) || says_something(vars.global_client_id),
        vars.session_secret is Some,
        encode_utf8(vars.session_secret->0).len() >= 32,
        begins_with_a_scheme(vars.public_base_url),
        vars.public_base_path is Some ==> written_base_path(vars.public_base_path->0),
    ensures
        config_outcome(vars) matches Ok(config) && {
            &&& config.client(Region::Cn) == if says_something(vars.cn_client_id) {
                vars.cn_client_id
            } else {
                None
            }
            &&& config.client(Region::Global) == if says_something(vars.global_client_id) {
                vars.global_client_id
            } else {
                None
            }
            &&& config.session_secret == encode_utf8(vars.session_secret->0)
            &&& config.public_base_url == if says_something(vars.public_base_url) {
                vars.public_base_url
            } else {
                None
            }
            &&& config.public_base_path == if vars.public_base_path is Some {
                vars.public_base_path->0
            } else {
                Seq::empty()
            }
        },
{
    if says_something(vars.public_base_url) {
        lemma_scheme(vars.public_base_url->0);
    }
    if vars.public_base_path is Some {
        let path = vars.public_base_path->0;
        if path.len() > 0 {
            let p = |c: char| base_path_char(c);
            assert forall|i: int| 0 <= i < path.len() implies p(#[trigger] path[i]) by {
                assert(permitted_code(path[i] as int));
            }
        }
        law_normal_base_path_is_kept(path);
    }
}

/// Settings that are not in order are refused, and the first thing that is wrong with them is named. All
/// others are kept as they are, with the base path in its normal form.
pub proof fn law_settings_out_of_order_are_refused(vars: VariablesView)
    ensures
        ({
            let clients = says_something(vars.cn_client_id) || says_something(vars.global_client_id);
            let secret = encode_utf8(vars.session_secret->0).len();
            let path = normalized_base_path(vars.public_base_path);
            &&& !clients ==> config_outcome(vars) == Err::<ConfigView, Seq<char>>(
                "set TAPTAP_CN_CLIENT_ID and/or TAPTAP_GLOBAL_CLIENT_ID"@,
            )
            &&& clients && vars.session_secret is None ==> config_outcome(vars) == Err::<
                ConfigView,
                Seq<char>,
            >("set SESSION_SECRET to a random value of at least 32 bytes"@)
            &&& clients && vars.session_secret is Some && secret < 32 ==> config_outcome(vars)
                == Err::<ConfigView, Seq<char>>("SESSION_SECRET must contain at least 32 bytes"@)
            &&& clients && vars.session_secret is Some && secret >= 32 && !begins_with_a_scheme(
                vars.public_base_url,
            ) ==> config_outcome(vars) == Err::<ConfigView, Seq<char>>(
                "PUBLIC_BASE_URL must start with https:// or http://"@,
            )
            &&& clients && vars.session_secret is Some && secret >= 32 && begins_with_a_scheme(
                vars.public_base_url,
            ) && path is None ==> config_outcome(vars) == Err::<ConfigView, Seq<char>>(
                "PUBLIC_BASE_PATH may only contain ASCII letters, digits, '/', '-' and '_'"@,
            )
            &&& clients && vars.session_secret is Some && secret >= 32 && begins_with_a_scheme(
                vars.public_base_url,
            ) && path is Some ==> {
                &&& config_outcome(vars) matches Ok(config)
                &&& config.public_base_path == path->0
                &&& config.session_secret == encode_utf8(vars.session_secret->0)
                &&& config.cn_client_id == if says_something(vars.cn_client_id) {
                    vars.cn_client_id
                } else {
                    None
                }
                &&& config.global_client_id == if says_something(vars.global_client_id) {
                    vars.global_client_id
                } else {
                    None
                }
                &&& config.public_base_url == if says_something(vars.public_base_url) {
                    vars.public_base_url
                } else {
                    None
                }
            }
        }),
{
    if says_something(vars.public_base_url) {
        lemma_scheme(vars.public_base_url->0);
    }
}

/// Settings stand for the values of all their fields.
pub proof fn law_settings_stand_for_their_fields(vars: Variables, config: Config)
    ensures
        vars@.cn_client_id == match vars.cn_client_id {
            Some(text) => Some(text@),
            None => None,
        },
        vars@.global_client_id == match vars.global_client_id {
            Some(text) => Some(text@),
            None => None,
        },
        vars@.session_secret == match vars.session_secret {
            Some(text) => Some(text@),
            None => None,
        },
        vars@.public_base_url == match vars.public_base_url {
            Some(text) => Some(text@),
            None => None,
        },
        vars@.public_base_path == match vars.public_base_path {
            Some(text) => Some(text@),
            None => None,
        },
        config@.client(Region::Cn) == match config.cn_client_id {
            Some(text) => Some(text@),
            None => None,
        },
        config@.client(Region::Global) == match config.global_client_id {
            Some(text) => Some(text@),
            None => None,
        },
        config@.session_secret == config.session_secret@,
        config@.public_base_url == match config.public_base_url {
            Some(text) => Some(text@),
            None => None,
        },
        config@.public_base_path == config.public_base_path@,
{
}

} // verus!
