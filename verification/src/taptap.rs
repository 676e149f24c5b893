//! The TapTap Open API: regions, credentials, signed requests and replies.

use vstd::prelude::*;
use vstd::utf8::encode_utf8;
use vstd::utf8::is_ascii_chars_encode_utf8;

use crate::crypto::hmac_sha1;
use crate::crypto::hmac_sha1_of;
use crate::crypto::hmac_sha256;
use crate::crypto::hmac_sha256_of;
use crate::crypto::random_bytes;
use crate::crypto::unix_time;
use crate::encoding::base64_padded;
use crate::encoding::encode_standard;
use crate::encoding::hex_lower;
use crate::encoding::hex_text;
use crate::json::Json;
use crate::json::JsonView;
use crate::json::copy_json;
use crate::json::find_member;
use crate::json::json_object;
use crate::json::law_lookup_finds_nothing_else;
use crate::json::law_lookup_finds_the_first;
use crate::json::optional_members_of;
use crate::json::read_object;
use crate::json::value_of;
use crate::text::all_chars;
use crate::text::chars_of;
use crate::text::decimal;
use crate::text::decimal_digits;
use crate::text::join;
use crate::text::law_decimal_digits_are_injective;
use crate::text::lemma_decimal_digits;
use crate::text::lemma_split_first;
use crate::text::optional_text;
use crate::text::same_text;
use crate::url::UrlView;
use crate::url::built_url;
use crate::url::form_bytes;
use crate::url::form_plain;
use crate::url::form_query;
use crate::url::https_url;
use crate::url::pairs_size;
use crate::url::pairs_of;
use crate::url::plain_address;
use crate::url::plain_host;
use crate::url::plain_path;
use crate::url::url_at;
use crate::url::url_fits;
use crate::url::url_with_pairs;

verus! {

/// The two separate TapTap services.
#[derive(Clone, Copy, Debug, PartialEq, Eq, Structural)]
pub enum Region {
    Cn,
    Global,
}

impl Region {
    /// The host that hands out device codes and tokens.
    pub fn accounts_host(self) -> (res: &'static str)
        ensures
            res@ == self.accounts_text(),
    {
        match self {
            Region::Cn => "https://accounts.tapapis.cn",
            Region::Global => "https://accounts.tapapis.com",
        }
    }

    pub open spec fn accounts_text(self) -> Seq<char> {
        match self {
            Region::Cn => "https://accounts.tapapis.cn"@,
            Region::Global => "https://accounts.tapapis.com"@,
        }
    }

    /// The host of the Open API.
    pub fn open_host(self) -> (res: &'static str)
        ensures
            res@ == self.open_text(),
    {
        match self {
            Region::Cn => "https://open.tapapis.cn",
            Region::Global => "https://open.tapapis.com",
        }
    }

    pub open spec fn open_text(self) -> Seq<char> {
        match self {
            Region::Cn => "https://open.tapapis.cn"@,
            Region::Global => "https://open.tapapis.com"@,
        }
    }

    /// The host of the page on which a player grants access.
    pub fn authorize_host(self) -> (res: &'static str)
        ensures
            res@ == self.authorize_text(),
    {
        match self {
            Region::Cn => "https://accounts.taptap.cn",
            Region::Global => "https://www.taptapauth.com",
        }
    }

    pub open spec fn authorize_text(self) -> Seq<char> {
        match self {
            Region::Cn => "https://accounts.taptap.cn"@,
            Region::Global => "https://www.taptapauth.com"@,
        }
    }

    /// The name of the region in requests and answers.
    pub fn name(self) -> (res: &'static str)
        ensures
            res@ == self.name_text(),
    {
        match self {
            Region::Cn => "cn",
            Region::Global => "global",
        }
    }

    pub open spec fn name_text(self) -> Seq<char> {
        match self {
            Region::Cn => "cn"@,
            Region::Global => "global"@,
        }
    }

    /// The host of the Open API without the scheme.
    pub open spec fn open_name(self) -> Seq<char> {
        match self {
            Region::Cn => "open.tapapis.cn"@,
            Region::Global => "open.tapapis.com"@,
        }
    }

    /// The host of the page on which a player grants access, without the scheme.
    pub open spec fn authorize_name(self) -> Seq<char> {
        match self {
            Region::Cn => "accounts.taptap.cn"@,
            Region::Global => "www.taptapauth.com"@,
        }
    }
}

/// A MAC credential.
#[derive(Clone)]
pub struct AccessToken {
    pub kid: String,
    pub mac_key: String,
    pub mac_algorithm: Option<String>,
}

/// What an `AccessToken` stands for.
pub struct AccessTokenView {
    pub kid: Seq<char>,
    pub mac_key: Seq<char>,
    pub mac_algorithm: Option<Seq<char>>,
}

impl View for AccessToken {
    type V = AccessTokenView;

    open spec fn view(&self) -> AccessTokenView {
        AccessTokenView {
            kid: self.kid@,
            mac_key: self.mac_key@,
            mac_algorithm: optional_text(self.mac_algorithm),
        }
    }
}

/// A player as TapTap knows them.
#[derive(Clone, Debug)]
pub struct Profile {
    pub openid: String,
    pub unionid: String,
    pub name: Option<String>,
    pub avatar: Option<String>,
}

/// What a `Profile` stands for.
pub struct ProfileView {
    pub openid: Seq<char>,
    pub unionid: Seq<char>,
    pub name: Option<Seq<char>>,
    pub avatar: Option<Seq<char>>,
}

impl View for Profile {
    type V = ProfileView;

    open spec fn view(&self) -> ProfileView {
        ProfileView {
            openid: self.openid@,
            unionid: self.unionid@,
            name: optional_text(self.name),
            avatar: optional_text(self.avatar),
        }
    }
}

/// The start of a device code login, as TapTap answers it.
pub struct DeviceCode {
    pub device_code: String,
    pub qrcode_url: String,
    pub expires_in: u64,
    pub interval: u64,
}

/// What a `DeviceCode` stands for.
pub struct DeviceCodeView {
    pub device_code: Seq<char>,
    pub qrcode_url: Seq<char>,
    pub expires_in: u64,
    pub interval: u64,
}

impl View for DeviceCode {
    type V = DeviceCodeView;

    open spec fn view(&self) -> DeviceCodeView {
        DeviceCodeView {
            device_code: self.device_code@,
            qrcode_url: self.qrcode_url@,
            expires_in: self.expires_in,
            interval: self.interval,
        }
    }
}

/// Why a request to TapTap came to nothing.
#[derive(Debug)]
pub enum TapError {
    /// TapTap could not be reached.
    Upstream,
    /// TapTap, or the check of the credential, refused with this code.
    Rejected(String),
    /// What came back makes no sense.
    Malformed,
}

/// What a `TapError` stands for.
pub enum TapErrorView {
    Upstream,
    Rejected(Seq<char>),
    Malformed,
}

impl View for TapError {
    type V = TapErrorView;

    open spec fn view(&self) -> TapErrorView {
        match self {
            TapError::Upstream => TapErrorView::Upstream,
            TapError::Rejected(code) => TapErrorView::Rejected(code@),
            TapError::Malformed => TapErrorView::Malformed,
        }
    }
}

/// A `POST` request with a form.
pub struct FormRequest {
    pub url: String,
    pub form: Vec<(String, String)>,
}

/// What a `FormRequest` stands for.
pub struct FormRequestView {
    pub url: Seq<char>,
    pub form: Seq<(Seq<char>, Seq<char>)>,
}

impl View for FormRequest {
    type V = FormRequestView;

    open spec fn view(&self) -> FormRequestView {
        FormRequestView { url: self.url@, form: pairs_of(self.form@) }
    }
}

/// A `GET` request with an `Authorization` header.
pub struct SignedRequest {
    pub url: String,
    pub authorization: String,
}

/// What a `SignedRequest` stands for.
pub struct SignedRequestView {
    pub url: Seq<char>,
    pub authorization: Seq<char>,
}

impl View for SignedRequest {
    type V = SignedRequestView;

    open spec fn view(&self) -> SignedRequestView {
        SignedRequestView { url: self.url@, authorization: self.authorization@ }
    }
}

/// The characters, or the error, of an outcome.
pub open spec fn text_outcome(res: Result<String, TapError>) -> Result<Seq<char>, TapErrorView> {
    match res {
        Ok(text) => Ok(text@),
        Err(e) => Err(e@),
    }
}

/// The request, or the error, of an outcome.
pub open spec fn request_outcome(res: Result<SignedRequest, TapError>) -> Result<
    SignedRequestView,
    TapErrorView,
> {
    match res {
        Ok(request) => Ok(request@),
        Err(e) => Err(e@),
    }
}

/// The hosts that requests go to. They are fixed at startup and never taken from request data.
#[derive(Clone)]
pub struct TapClient {
    accounts_cn: String,
    accounts_global: String,
    open_cn: String,
    open_global: String,
}

/// The path of the profile with name and avatar, or of the basic one.
pub open spec fn profile_path(detailed: bool) -> Seq<char> {
    if detailed {
        "/account/profile/v1"@
    } else {
        "/account/basic-info/v1"@
    }
}

/// Whether a host is short enough for the places in a URL to be counted with 32 bits.
pub open spec fn usable_host(host: Seq<char>) -> bool {
    host.len() <= 0x00ff_0000
}

/// Whether a client ID is short enough for a request to a host: it has to be only where the host has
/// a fragment.
pub open spec fn client_fits(host: Seq<char>, client_id: Seq<char>) -> bool {
    host.contains('#') ==> client_id.len() <= 0x03ff_0000
}

/// The request that starts a device code login.
pub open spec fn device_code_request(
    accounts_host: Seq<char>,
    client_id: Seq<char>,
) -> FormRequestView {
    FormRequestView {
        url: accounts_host + "/oauth2/v1/device/code"@,
        form: seq![
            ("client_id"@, client_id),
            ("response_type"@, "device_code"@),
            ("scope"@, "public_profile"@),
        ],
    }
}

/// The request for the credential of a player who may have confirmed a device code.
pub open spec fn device_token_request(
    accounts_host: Seq<char>,
    client_id: Seq<char>,
    code: Seq<char>,
) -> FormRequestView {
    FormRequestView {
        url: accounts_host + "/oauth2/v1/token"@,
        form: seq![
            ("grant_type"@, "device_token"@),
            ("client_id"@, client_id),
            ("secret_type"@, "hmac-sha-1"@),
            ("code"@, code),
        ],
    }
}

/// The request that exchanges an authorization code for the credential of a player.
pub open spec fn exchange_request(
    accounts_host: Seq<char>,
    client_id: Seq<char>,
    code: Seq<char>,
    redirect_uri: Seq<char>,
    code_verifier: Seq<char>,
) -> FormRequestView {
    FormRequestView {
        url: accounts_host + "/oauth2/v1/token"@,
        form: seq![
            ("client_id"@, client_id),
            ("grant_type"@, "authorization_code"@),
            ("secret_type"@, "hmac-sha-1"@),
            ("code"@, code),
            ("redirect_uri"@, redirect_uri),
            ("code_verifier"@, code_verifier),
        ],
    }
}

/// What a signature covers: `timestamp`, `nonce`, `method`, `uri`, `host` and `port`, each followed
/// by a line feed, and one line feed more.
pub open spec fn mac_message(
    ts: u64,
    nonce: Seq<char>,
    method: Seq<char>,
    uri: Seq<char>,
    host: Seq<char>,
    port: Seq<char>,
) -> Seq<char> {
    decimal_digits(ts as nat) + "\n"@ + nonce + "\n"@ + method + "\n"@ + uri + "\n"@ + host + "\n"@
        + port + "\n\n"@
}

/// The code for `message` under `key` by the named algorithm, where it is one of the two known.
pub open spec fn mac_code(algorithm: Seq<char>, key: Seq<u8>, message: Seq<u8>) -> Option<Seq<u8>> {
    if algorithm == "hmac-sha-1"@ {
        Some(hmac_sha1_of(key, message))
    } else if algorithm == "hmac-sha-256"@ {
        Some(hmac_sha256_of(key, message))
    } else {
        None
    }
}

/// The algorithm of a credential; HMAC-SHA1 where it names none.
pub open spec fn token_algorithm(token: AccessTokenView) -> Seq<char> {
    match token.mac_algorithm {
        Some(algorithm) => algorithm,
        None => "hmac-sha-1"@,
    }
}

/// Visible ASCII characters other than the quotation mark.
pub open spec fn kid_char(c: char) -> bool {
    '!' <= c <= '~' && c != '"'
}

/// The `Authorization` header that carries a code.
pub open spec fn mac_header_text(kid: Seq<char>, ts: u64, nonce: Seq<char>, code: Seq<u8>) -> Seq<
    char,
> {
    "MAC id=\""@ + kid + "\",ts=\""@ + decimal_digits(ts as nat) + "\",nonce=\""@ + nonce
        + "\",mac=\""@ + base64_padded(code) + "\""@
}

/// The `Authorization` header for a request, or why there is none.
pub open spec fn mac_outcome(
    token: AccessTokenView,
    ts: u64,
    nonce: Seq<char>,
    method: Seq<char>,
    uri: Seq<char>,
    host: Seq<char>,
    port: Seq<char>,
) -> Result<Seq<char>, TapErrorView> {
    if !all_chars(token.kid, |c: char| kid_char(c)) {
        Err(TapErrorView::Rejected("invalid_token"@))
    } else {
        match mac_code(
            token_algorithm(token),
            encode_utf8(token.mac_key),
            encode_utf8(mac_message(ts, nonce, method, uri, host, port)),
        ) {
            Some(code) => Ok(mac_header_text(token.kid, ts, nonce, code)),
            None => Err(TapErrorView::Rejected("invalid_token"@)),
        }
    }
}

/// What is asked of a URL as the signature sees it: its path with the complete query string.
pub open spec fn signed_uri(url: UrlView) -> Seq<char> {
    match url.query {
        Some(query) => url.path + "?"@ + query,
        None => url.path,
    }
}

/// The request for a profile at the given URL, or why there is none.
pub open spec fn signed_request(
    url: Option<UrlView>,
    token: AccessTokenView,
    ts: Option<u64>,
    nonce: Option<Seq<u8>>,
) -> Result<SignedRequestView, TapErrorView> {
    match (url, ts, nonce) {
        (Some(url), Some(ts), Some(nonce)) => match url.host {
            Some(host) => match mac_outcome(
                token,
                ts,
                hex_text(nonce),
                "GET"@,
                signed_uri(url),
                host,
                "443"@,
            ) {
                Ok(authorization) => Ok(SignedRequestView { url: url.text, authorization }),
                Err(e) => Err(e),
            },
            None => Err(TapErrorView::Malformed),
        },
        _ => Err(TapErrorView::Malformed),
    }
}

/// The request for the profile of the player that `token` belongs to, or why there is none. `ts` is
/// the time in seconds and `nonce` the random bytes that go into the signature, if they can be had.
pub open spec fn profile_outcome(
    open_host: Seq<char>,
    client_id: Seq<char>,
    token: AccessTokenView,
    detailed: bool,
    ts: Option<u64>,
    nonce: Option<Seq<u8>>,
) -> Result<SignedRequestView, TapErrorView> {
    if token.kid.len() == 0 || token.mac_key.len() == 0 {
        Err(TapErrorView::Rejected("invalid_token"@))
    } else {
        signed_request(
            built_url(open_host, profile_path(detailed), seq![("client_id"@, client_id)]),
            token,
            ts,
            nonce,
        )
    }
}

/// Whether `outcome` can come of asking for a profile, whatever the clock and the source of
/// randomness answer.
pub open spec fn profile_possible(
    open_host: Seq<char>,
    client_id: Seq<char>,
    token: AccessTokenView,
    detailed: bool,
    outcome: Result<SignedRequestView, TapErrorView>,
) -> bool {
    exists|ts: Option<u64>, nonce: Option<Seq<u8>>|
        (nonce is Some ==> nonce->0.len() == 16) && outcome == #[trigger] profile_outcome(
            open_host,
            client_id,
            token,
            detailed,
            ts,
            nonce,
        )
}

/// How a reply of TapTap reads before its data are taken apart.
pub enum Reply {
    /// It is no object, or one without data.
    Malformed,
    /// It reports success.
    Data(Json),
    /// It reports no success.
    Refusal(Json),
}

/// What a `Reply` stands for.
pub enum ReplyView {
    Malformed,
    Data(JsonView),
    Refusal(JsonView),
}

impl View for Reply {
    type V = ReplyView;

    open spec fn view(&self) -> ReplyView {
        match self {
            Reply::Malformed => ReplyView::Malformed,
            Reply::Data(data) => ReplyView::Data(data@),
            Reply::Refusal(data) => ReplyView::Refusal(data@),
        }
    }
}

/// How the members of a reply are read.
pub open spec fn reply_of(body: Option<Seq<(Seq<char>, JsonView)>>) -> ReplyView {
    match body {
        None => ReplyView::Malformed,
        Some(list) => match value_of(list, "data"@) {
            None => ReplyView::Malformed,
            Some(data) => if value_of(list, "success"@) == Some(JsonView::Bool(true)) {
                ReplyView::Data(data)
            } else {
                ReplyView::Refusal(data)
            },
        },
    }
}

/// The code that the members of refused data state.
pub open spec fn refusal_code_of(data: Option<Seq<(Seq<char>, JsonView)>>) -> Seq<char> {
    match data {
        Some(list) => match value_of(list, "error"@) {
            Some(JsonView::Text(code)) => code,
            _ => "unknown_error"@,
        },
        None => "unknown_error"@,
    }
}

/// The members of a nested value.
pub open spec fn nested_members(value: JsonView) -> Option<Seq<(Seq<char>, JsonView)>> {
    match value {
        JsonView::Other(text) => json_object(encode_utf8(text)),
        _ => None,
    }
}

/// The JSON text of data that report success: of an object or an array.
pub open spec fn data_outcome(data: JsonView) -> Result<Seq<char>, TapErrorView> {
    match data {
        JsonView::Other(text) => if text.len() > 0 && (text[0] == '{' || text[0] == '[') {
            Ok(text)
        } else {
            Err(TapErrorView::Malformed)
        },
        _ => Err(TapErrorView::Malformed),
    }
}

/// The JSON text of the data that a reply carries, or the error it amounts to.
pub open spec fn reply_outcome(body: Seq<u8>) -> Result<Seq<char>, TapErrorView> {
    match reply_of(json_object(body)) {
        ReplyView::Malformed => Err(TapErrorView::Malformed),
        ReplyView::Data(data) => data_outcome(data),
        ReplyView::Refusal(data) => Err(
            TapErrorView::Rejected(refusal_code_of(nested_members(data))),
        ),
    }
}

/// The Open API hosts are `https` hosts with plain names.
pub proof fn lemma_open_text(region: Region)
    ensures
        region.open_text() == "https://"@ + region.open_name(),
        plain_host(region.open_name()),
        plain_address(region.open_text()),
        region.open_text().skip("https://"@.len() as int) == region.open_name(),
        usable_host(region.open_text()),
        !region.open_text().contains('#'),
{
    reveal_strlit("https://");
    reveal_strlit("https://open.tapapis.cn");
    reveal_strlit("https://open.tapapis.com");
    reveal_strlit("open.tapapis.cn");
    reveal_strlit("open.tapapis.com");
    assert(region.open_text() =~= "https://"@ + region.open_name());
    assert(region.open_text().skip("https://"@.len() as int) =~= region.open_name());
}

/// The hosts of the pages on which players grant access are `https` hosts with plain names.
pub proof fn lemma_authorize_text(region: Region)
    ensures
        region.authorize_text() == "https://"@ + region.authorize_name(),
        plain_host(region.authorize_name()),
        plain_address(region.authorize_text()),
        region.authorize_text().skip("https://"@.len() as int) == region.authorize_name(),
        usable_host(region.authorize_text()),
        !region.authorize_text().contains('#'),
{
    reveal_strlit("https://");
    reveal_strlit("https://accounts.taptap.cn");
    reveal_strlit("https://www.taptapauth.com");
    reveal_strlit("accounts.taptap.cn");
    reveal_strlit("www.taptapauth.com");
    assert(region.authorize_text() =~= "https://"@ + region.authorize_name());
    assert(region.authorize_text().skip("https://"@.len() as int) =~= region.authorize_name());
}

/// A name with its value.
pub(crate) fn pair(name: &str, value: &str) -> (res: (String, String))
    ensures
        res.0@ == name@,
        res.1@ == value@,
{
    (name.to_owned(), value.to_owned())
}

impl TapClient {
    /// The host that hands out device codes and tokens in `region`.
    pub closed spec fn accounts_at(&self, region: Region) -> Seq<char> {
        match region {
            Region::Cn => self.accounts_cn@,
            Region::Global => self.accounts_global@,
        }
    }

    /// The host of the Open API in `region`.
    pub closed spec fn open_at(&self, region: Region) -> Seq<char> {
        match region {
            Region::Cn => self.open_cn@,
            Region::Global => self.open_global@,
        }
    }

    /// Whether requests can be built on the Open API hosts.
    pub open spec fn wf(&self) -> bool {
        usable_host(self.open_at(Region::Cn)) && usable_host(self.open_at(Region::Global))
    }

    /// Whether a client ID is short enough for requests to the Open API in `region`.
    pub open spec fn fits(&self, region: Region, client_id: Seq<char>) -> bool {
        client_fits(self.open_at(region), client_id)
    }

    /// A client for the hosts of TapTap.
    pub fn new() -> (res: TapClient)
        ensures
            res.wf(),
            forall|region: Region, client_id: Seq<char>| #[trigger] res.fits(region, client_id),
            forall|region: Region| #[trigger] res.accounts_at(region) == region.accounts_text(),
            forall|region: Region| #[trigger] res.open_at(region) == region.open_text(),
    {
        proof {
            lemma_open_text(Region::Cn);
            lemma_open_text(Region::Global);
        }
        TapClient {
            accounts_cn: Region::Cn.accounts_host().to_owned(),
            accounts_global: Region::Global.accounts_host().to_owned(),
            open_cn: Region::Cn.open_host().to_owned(),
            open_global: Region::Global.open_host().to_owned(),
        }
    }

    /// The same client with other hosts for the region `Cn`.
    pub fn with_hosts(self, accounts: &str, open: &str) -> (res: TapClient)
        requires
            self.wf(),
            usable_host(open@),
        ensures
            res.wf(),
            res.accounts_at(Region::Cn) == accounts@,
            res.open_at(Region::Cn) == open@,
            res.accounts_at(Region::Global) == self.accounts_at(Region::Global),
            res.open_at(Region::Global) == self.open_at(Region::Global),
    {
        TapClient {
            accounts_cn: accounts.to_owned(),
            accounts_global: self.accounts_global,
            open_cn: open.to_owned(),
            open_global: self.open_global,
        }
    }

    fn accounts(&self, region: Region) -> (res: &str)
        ensures
            res@ == self.accounts_at(region),
    {
        match region {
            Region::Cn => self.accounts_cn.as_str(),
            Region::Global => self.accounts_global.as_str(),
        }
    }

    fn open(&self, region: Region) -> (res: &str)
        ensures
            res@ == self.open_at(region),
    {
        match region {
            Region::Cn => self.open_cn.as_str(),
            Region::Global => self.open_global.as_str(),
        }
    }

    /// The request that starts a device code login.
    pub fn device_code(&self, region: Region, client_id: &str) -> (res: FormRequest)
        ensures
            res@ == device_code_request(self.accounts_at(region), client_id@),
    {
        let url = join(self.accounts(region), "/oauth2/v1/device/code");
        let form = vec![
            pair("client_id", client_id),
            pair("response_type", "device_code"),
            pair("scope", "public_profile"),
        ];
        assert(pairs_of(form@) =~= device_code_request(self.accounts_at(region), client_id@).form);
        FormRequest { url, form }
    }

    /// The request for the credential of a player who may have confirmed a device code.
    pub fn device_token(&self, region: Region, client_id: &str, code: &str) -> (res: FormRequest)
        ensures
            res@ == device_token_request(self.accounts_at(region), client_id@, code@),
    {
        let url = join(self.accounts(region), "/oauth2/v1/token");
        let form = vec![
            pair("grant_type", "device_token"),
            pair("client_id", client_id),
            pair("secret_type", "hmac-sha-1"),
            pair("code", code),
        ];
        assert(pairs_of(form@) =~= device_token_request(
            self.accounts_at(region),
            client_id@,
            code@,
        ).form);
        FormRequest { url, form }
    }

    /// The request that exchanges an authorization code for the credential of a player.
    pub fn exchange_code(
        &self,
        region: Region,
        client_id: &str,
        code: &str,
        redirect_uri: &str,
        code_verifier: &str,
    ) -> (res: FormRequest)
        ensures
            res@ == exchange_request(
                self.accounts_at(region),
                client_id@,
                code@,
                redirect_uri@,
                code_verifier@,
            ),
    {
        let url = join(self.accounts(region), "/oauth2/v1/token");
        let form = vec![
            pair("client_id", client_id),
            pair("grant_type", "authorization_code"),
            pair("secret_type", "hmac-sha-1"),
            pair("code", code),
            pair("redirect_uri", redirect_uri),
            pair("code_verifier", code_verifier),
        ];
        assert(pairs_of(form@) =~= exchange_request(
            self.accounts_at(region),
            client_id@,
            code@,
            redirect_uri@,
            code_verifier@,
        ).form);
        FormRequest { url, form }
    }

    /// The signed request for the profile of the player that `token` belongs to, at the time `ts`
    /// and with the random bytes `nonce`.
    pub fn profile_at(
        &self,
        region: Region,
        client_id: &str,
        token: &AccessToken,
        detailed: bool,
        ts: Option<u64>,
        nonce: Option<Vec<u8>>,
    ) -> (res: Result<SignedRequest, TapError>)
        requires
            self.wf(),
            self.fits(region, client_id@),
        ensures
            request_outcome(res) == profile_outcome(
                self.open_at(region),
                client_id@,
                token@,
                detailed,
                ts,
                optional_bytes(nonce),
            ),
    {
        if token.kid.as_str().is_empty() || token.mac_key.as_str().is_empty() {
            return Err(TapError::Rejected("invalid_token".to_owned()));
        }
        let path = if detailed {
            "/account/profile/v1"
        } else {
            "/account/basic-info/v1"
        };
        let pairs = vec![pair("client_id", client_id)];
        proof {
            assert(pairs_of(pairs@) =~= seq![("client_id"@, client_id@)]);
            lemma_profile_path(detailed);
            reveal_strlit("client_id");
            reveal_with_fuel(pairs_size, 2);
            lemma_url_fits(self.open_at(region), path@, pairs_of(pairs@));
        }
        let url = match url_at(self.open(region), path, &pairs) {
            Some(url) => url,
            None => return Err(TapError::Malformed),
        };
        let uri = match &url.query {
            Some(query) => join(join(url.path.as_str(), "?").as_str(), query.as_str()),
            None => url.path.as_str().to_owned(),
        };
        let host = match &url.host {
            Some(host) => host.as_str(),
            None => return Err(TapError::Malformed),
        };
        let ts: u64 = match ts {
            Some(ts) => ts,
            None => return Err(TapError::Malformed),
        };
        let nonce = match nonce {
            Some(nonce) => hex_lower(nonce.as_slice()),
            None => return Err(TapError::Malformed),
        };
        match mac_header(token, ts, nonce.as_str(), "GET", uri.as_str(), host, "443") {
            Ok(authorization) => Ok(SignedRequest { url: url.text, authorization }),
            Err(e) => Err(e),
        }
    }

    /// The signed request for the profile of the player that `token` belongs to, with the present
    /// time and fresh random bytes.
    pub fn profile(
        &self,
        region: Region,
        client_id: &str,
        token: &AccessToken,
        detailed: bool,
    ) -> (res: Result<SignedRequest, TapError>)
        requires
            self.wf(),
            self.fits(region, client_id@),
        ensures
            profile_possible(
                self.open_at(region),
                client_id@,
                token@,
                detailed,
                request_outcome(res),
            ),
    {
        let ts: Option<u64> = unix_time();
        let nonce = random_bytes(16);
        self.profile_at(region, client_id, token, detailed, ts, nonce)
    }

    /// Takes the data out of the body of a reply, as JSON text. Data that are neither an object nor
    /// an array are of no use to any caller and count as malformed.
    pub fn parse_response(body: &[u8]) -> (res: Result<String, TapError>)
        ensures
            text_outcome(res) == reply_outcome(body@),
    {
        match read_reply(read_object(body)) {
            Reply::Malformed => Err(TapError::Malformed),
            Reply::Data(data) => accept_data(data),
            Reply::Refusal(data) => {
                let members = match &data {
                    Json::Other(text) => read_object(text.as_str().as_bytes()),
                    _ => None,
                };
                Err(TapError::Rejected(refusal_code(members)))
            },
        }
    }
}

/// Reads the members of a reply.
pub fn read_reply(body: Option<Vec<(String, Json)>>) -> (res: Reply)
    ensures
        res@ == reply_of(optional_members_of(body)),
{
    let list = match body {
        Some(list) => list,
        None => return Reply::Malformed,
    };
    let success = match find_member(&list, "success") {
        Some(Json::Bool(success)) => *success,
        _ => false,
    };
    match find_member(&list, "data") {
        None => Reply::Malformed,
        Some(data) => {
            let data = copy_json(data);
            if success {
                Reply::Data(data)
            } else {
                Reply::Refusal(data)
            }
        },
    }
}

/// Takes data that report success, where they are an object or an array.
pub fn accept_data(data: Json) -> (res: Result<String, TapError>)
    ensures
        text_outcome(res) == data_outcome(data@),
{
    match data {
        Json::Other(text) => {
            let chars = chars_of(text.as_str());
            if chars.len() > 0 && (chars[0] == '{' || chars[0] == '[') {
                Ok(text)
            } else {
                Err(TapError::Malformed)
            }
        },
        _ => Err(TapError::Malformed),
    }
}

/// The code that the members of refused data state.
pub fn refusal_code(data: Option<Vec<(String, Json)>>) -> (res: String)
    ensures
        res@ == refusal_code_of(optional_members_of(data)),
{
    if let Some(list) = data {
        if let Some(Json::Text(code)) = find_member(&list, "error") {
            return code.clone();
        }
    }
    "unknown_error".to_owned()
}

/// The bytes of a buffer that may be missing.
pub open spec fn optional_bytes(bytes: Option<Vec<u8>>) -> Option<Seq<u8>> {
    match bytes {
        Some(bytes) => Some(bytes@),
        None => None,
    }
}

proof fn lemma_profile_path(detailed: bool)
    ensures
        plain_path(profile_path(detailed)),
        profile_path(detailed).len() <= 100,
        !profile_path(detailed).contains('#'),
{
    reveal_strlit("/account/profile/v1");
    reveal_strlit("/account/basic-info/v1");
}

/// A short path behind a usable host makes a URL, with any pairs where the host has no fragment.
pub proof fn lemma_url_fits(
    host: Seq<char>,
    path: Seq<char>,
    pairs: Seq<(Seq<char>, Seq<char>)>,
)
    requires
        usable_host(host),
        path.len() <= 100,
        !path.contains('#'),
        host.contains('#') ==> pairs_size(pairs) <= 0x0400_0000,
    ensures
        url_fits(host + path, pairs),
{
    if (host + path).contains('#') {
        let i = choose|i: int| 0 <= i < (host + path).len() && (host + path)[i] == '#';
        if i < host.len() {
            assert(host[i] == '#');
        } else {
            assert(path[i - host.len()] == '#');
        }
    }
}

/// The text that a signature covers.
pub fn normalized_request(
    ts: u64,
    nonce: &str,
    method: &str,
    uri: &str,
    host: &str,
    port: &str,
) -> (res: String)
    ensures
        res@ == mac_message(ts, nonce@, method@, uri@, host@, port@),
{
    let mut text = decimal(ts);
    text.append("\n");
    text.append(nonce);
    text.append("\n");
    text.append(method);
    text.append("\n");
    text.append(uri);
    text.append("\n");
    text.append(host);
    text.append("\n");
    text.append(port);
    text.append("\n\n");
    text
}

/// The `Authorization` header that carries a code.
pub fn mac_header_with(kid: &str, ts: u64, nonce: &str, code: &[u8]) -> (res: String)
    ensures
        res@ == mac_header_text(kid@, ts, nonce@, code@),
{
    let mut text = "MAC id=\"".to_owned();
    text.append(kid);
    text.append("\",ts=\"");
    text.append(decimal(ts).as_str());
    text.append("\",nonce=\"");
    text.append(nonce);
    text.append("\",mac=\"");
    text.append(encode_standard(code).as_str());
    text.append("\"");
    text
}

/// Whether a key ID can stand inside the quotation marks of the header.
pub fn kid_is_valid(kid: &str) -> (res: bool)
    ensures
        res == all_chars(kid@, |c: char| kid_char(c)),
{
    let chars = chars_of(kid);
    for i in 0..chars.len()
        invariant
            chars@ == kid@,
            forall|j: int| 0 <= j < i ==> kid_char(#[trigger] kid@[j]),
    {
        let c: char = chars[i];
        if !('!' <= c && c <= '~' && c != '"') {
            assert(!kid_char(kid@[i as int]));
            return false;
        }
    }
    true
}

/// Signs a request with a credential.
pub fn mac_header(
    token: &AccessToken,
    ts: u64,
    nonce: &str,
    method: &str,
    uri: &str,
    host: &str,
    port: &str,
) -> (res: Result<String, TapError>)
    ensures
        text_outcome(res) == mac_outcome(token@, ts, nonce@, method@, uri@, host@, port@),
{
    if !kid_is_valid(token.kid.as_str()) {
        return Err(TapError::Rejected("invalid_token".to_owned()));
    }
    let normalized = normalized_request(ts, nonce, method, uri, host, port);
    let algorithm = match &token.mac_algorithm {
        Some(algorithm) => algorithm.as_str(),
        None => "hmac-sha-1",
    };
    let key = token.mac_key.as_str().as_bytes();
    let code = if same_text(algorithm, "hmac-sha-1") {
        hmac_sha1(key, normalized.as_str().as_bytes())
    } else if same_text(algorithm, "hmac-sha-256") {
        hmac_sha256(key, normalized.as_str().as_bytes())
    } else {
        return Err(TapError::Rejected("invalid_token".to_owned()));
    };
    match code {
        Some(code) => Ok(mac_header_with(token.kid.as_str(), ts, nonce, code.as_slice())),
        None => Err(TapError::Malformed),
    }
}

/// What a URL asks for stands in the signed text as it is sent: the path with the complete query.
pub proof fn law_signature_covers_the_url(
    host: Seq<char>,
    path: Seq<char>,
    pairs: Seq<(Seq<char>, Seq<char>)>,
)
    ensures
        https_url(host, path, pairs).text == "https://"@ + host + signed_uri(
            https_url(host, path, pairs),
        ),
{
    assert(https_url(host, path, pairs).text =~= "https://"@ + host + signed_uri(
        https_url(host, path, pairs),
    ));
}

/// At the hosts of TapTap, a profile is asked for at the Open API host of the region, with the client
/// ID as the only pair of the query, and the signature covers that host and that query.
pub proof fn law_profile_is_asked_in_the_region(
    region: Region,
    client_id: Seq<char>,
    token: AccessTokenView,
    detailed: bool,
    ts: u64,
    nonce: Seq<u8>,
)
    requires
        token.kid.len() > 0,
        token.mac_key.len() > 0,
    ensures
        ({
            let uri = profile_path(detailed) + "?"@ + form_query(seq![("client_id"@, client_id)]);
            profile_outcome(
                region.open_text(),
                client_id,
                token,
                detailed,
                Some(ts),
                Some(nonce),
            ) == match mac_outcome(
                token,
                ts,
                hex_text(nonce),
                "GET"@,
                uri,
                region.open_name(),
                "443"@,
            ) {
                Ok(authorization) => Ok::<SignedRequestView, TapErrorView>(
                    SignedRequestView { url: region.open_text() + uri, authorization },
                ),
                Err(e) => Err(e),
            }
        }),
{
    let pairs = seq![("client_id"@, client_id)];
    lemma_open_text(region);
    lemma_profile_path(detailed);
    law_signature_covers_the_url(region.open_name(), profile_path(detailed), pairs);
    assert(built_url(region.open_text(), profile_path(detailed), pairs) == Some(
        https_url(region.open_name(), profile_path(detailed), pairs),
    ));
}

/// A credential that lacks its key ID or its key, or whose key ID cannot stand in the header, or that
/// names an algorithm other than the two known, never makes a request.
pub proof fn law_unusable_credential_makes_no_request(
    open_host: Seq<char>,
    client_id: Seq<char>,
    token: AccessTokenView,
    detailed: bool,
    ts: Option<u64>,
    nonce: Option<Seq<u8>>,
)
    requires
        token.kid.len() == 0 || token.mac_key.len() == 0 || !all_chars(
            token.kid,
            |c: char| kid_char(c),
        ) || (token_algorithm(token) != "hmac-sha-1"@ && token_algorithm(token)
            != "hmac-sha-256"@),
    ensures
        profile_outcome(open_host, client_id, token, detailed, ts, nonce) matches Err(e) && (e
            == TapErrorView::Rejected("invalid_token"@) || e == TapErrorView::Malformed),
        plain_address(open_host) && ts is Some && nonce is Some ==> profile_outcome(
            open_host,
            client_id,
            token,
            detailed,
            ts,
            nonce,
        ) == Err::<SignedRequestView, TapErrorView>(TapErrorView::Rejected("invalid_token"@)),
{
    lemma_profile_path(detailed);
}

/// A header names one key ID: what stands in it cannot end the field and begin another.
pub proof fn law_header_names_one_key(
    kid: Seq<char>,
    ts: u64,
    nonce: Seq<char>,
    code: Seq<u8>,
    other_kid: Seq<char>,
    other_ts: u64,
    other_nonce: Seq<char>,
    other_code: Seq<u8>,
)
    requires
        all_chars(kid, |c: char| kid_char(c)),
        all_chars(other_kid, |c: char| kid_char(c)),
        mac_header_text(kid, ts, nonce, code) == mac_header_text(
            other_kid,
            other_ts,
            other_nonce,
            other_code,
        ),
    ensures
        kid == other_kid,
{
    reveal_strlit("MAC id=\"");
    reveal_strlit("\",ts=\"");
    let start = "MAC id=\""@.len() as int;
    let a = mac_header_text(kid, ts, nonce, code);
    let b = mac_header_text(other_kid, other_ts, other_nonce, other_code);
    assert(a[start + kid.len()] == '"');
    assert(b[start + other_kid.len()] == '"');
    if kid.len() < other_kid.len() {
        assert(b[start + kid.len()] == other_kid[kid.len() as int]);
    }
    if other_kid.len() < kid.len() {
        assert(a[start + other_kid.len()] == kid[other_kid.len() as int]);
    }
    assert(kid =~= a.subrange(start, start + kid.len()));
    assert(other_kid =~= b.subrange(start, start + other_kid.len()));
}

/// The text that a signature covers, with its parts from the back.
proof fn lemma_message_parts(
    ts: u64,
    nonce: Seq<char>,
    method: Seq<char>,
    uri: Seq<char>,
    host: Seq<char>,
    port: Seq<char>,
)
    ensures
        ({
            let line = seq!['\n'];
            let rest_host = host + line + (port + "\n\n"@);
            let rest_uri = uri + line + rest_host;
            let rest_method = method + line + rest_uri;
            let rest_nonce = nonce + line + rest_method;
            &&& mac_message(ts, nonce, method, uri, host, port) == decimal_digits(ts as nat) + line
                + rest_nonce
            &&& port + "\n\n"@ == port + line + line
        }),
{
    reveal_strlit("\n");
    reveal_strlit("\n\n");
    let line = seq!['\n'];
    assert("\n"@ =~= line);
    assert("\n\n"@ =~= line + line);
    assert(port + "\n\n"@ =~= port + line + line);
    let rest_host = host + line + (port + "\n\n"@);
    let rest_uri = uri + line + rest_host;
    let rest_method = method + line + rest_uri;
    let rest_nonce = nonce + line + rest_method;
    assert(mac_message(ts, nonce, method, uri, host, port) =~= decimal_digits(ts as nat) + line
        + rest_nonce);
}

/// A signature covers one request only: two requests whose parts are free of line feeds have the same
/// signed text only if all their parts are the same.
pub proof fn law_signed_text_names_one_request(
    ts: u64,
    nonce: Seq<char>,
    method: Seq<char>,
    uri: Seq<char>,
    host: Seq<char>,
    port: Seq<char>,
    other_ts: u64,
    other_nonce: Seq<char>,
    other_method: Seq<char>,
    other_uri: Seq<char>,
    other_host: Seq<char>,
    other_port: Seq<char>,
)
    requires
        !nonce.contains('\n') && !method.contains('\n') && !uri.contains('\n') && !host.contains(
            '\n',
        ) && !port.contains('\n'),
        !other_nonce.contains('\n') && !other_method.contains('\n') && !other_uri.contains('\n')
            && !other_host.contains('\n') && !other_port.contains('\n'),
        mac_message(ts, nonce, method, uri, host, port) == mac_message(
            other_ts,
            other_nonce,
            other_method,
            other_uri,
            other_host,
            other_port,
        ),
    ensures
        ts == other_ts,
        nonce == other_nonce,
        method == other_method,
        uri == other_uri,
        host == other_host,
        port == other_port,
{
    let line = seq!['\n'];
    lemma_message_parts(ts, nonce, method, uri, host, port);
    lemma_message_parts(other_ts, other_nonce, other_method, other_uri, other_host, other_port);
    lemma_decimal_digits(ts as nat);
    lemma_decimal_digits(other_ts as nat);
    let a_port = port + "\n\n"@;
    let a_host = host + line + a_port;
    let a_uri = uri + line + a_host;
    let a_method = method + line + a_uri;
    let a_nonce = nonce + line + a_method;
    let b_port = other_port + "\n\n"@;
    let b_host = other_host + line + b_port;
    let b_uri = other_uri + line + b_host;
    let b_method = other_method + line + b_uri;
    let b_nonce = other_nonce + line + b_method;
    lemma_split_first(
        decimal_digits(ts as nat),
        a_nonce,
        decimal_digits(other_ts as nat),
        b_nonce,
        '\n',
    );
    law_decimal_digits_are_injective(ts as nat, other_ts as nat);
    lemma_split_first(nonce, a_method, other_nonce, b_method, '\n');
    lemma_split_first(method, a_uri, other_method, b_uri, '\n');
    lemma_split_first(uri, a_host, other_uri, b_host, '\n');
    lemma_split_first(host, a_port, other_host, b_port, '\n');
    lemma_split_first(port, line, other_port, line, '\n');
}

/// Whether a key ID is made of visible ASCII characters without the quotation mark.
pub open spec fn visible_key_id(kid: Seq<char>) -> bool {
    forall|i: int|
        0 <= i < kid.len() ==> 0x21 <= #[trigger] kid[i] as int <= 0x7e && kid[i] as int != 0x22
}

/// Whether a credential can sign: it has a key, a visible key ID, and names a known algorithm or none.
pub open spec fn usable_credential(token: AccessTokenView) -> bool {
    &&& token.kid.len() > 0
    &&& token.mac_key.len() > 0
    &&& visible_key_id(token.kid)
    &&& token.mac_algorithm is None || token.mac_algorithm->0 == "hmac-sha-1"@
        || token.mac_algorithm->0 == "hmac-sha-256"@
}

proof fn lemma_visible_key_id(kid: Seq<char>)
    ensures
        visible_key_id(kid) <==> all_chars(kid, |c: char| kid_char(c)),
{
    let p = |c: char| kid_char(c);
    if visible_key_id(kid) {
        assert forall|i: int| 0 <= i < kid.len() implies p(#[trigger] kid[i]) by {
            assert(0x21 <= kid[i] as int <= 0x7e);
        }
    }
    if all_chars(kid, p) {
        assert forall|i: int| 0 <= i < kid.len() implies 0x21 <= #[trigger] kid[i] as int <= 0x7e
            && kid[i] as int != 0x22 by {
            assert(p(kid[i]));
        }
    }
}

/// What is signed: the time, the nonce, the method, the path with its query, the host and the port,
/// each on a line of its own, and an empty line.
pub proof fn law_signed_text_is_written(
    ts: u64,
    nonce: Seq<char>,
    method: Seq<char>,
    uri: Seq<char>,
    host: Seq<char>,
    port: Seq<char>,
)
    ensures
        mac_message(ts, nonce, method, uri, host, port) == decimal_digits(ts as nat) + seq!['\n']
            + nonce + seq!['\n'] + method + seq!['\n'] + uri + seq!['\n'] + host + seq!['\n'] + port
            + seq!['\n', '\n'],
{
    reveal_strlit("\n");
    reveal_strlit("\n\n");
    assert("\n"@ =~= seq!['\n']);
    assert("\n\n"@ =~= seq!['\n', '\n']);
}

/// A credential whose key ID can stand in the header signs every request: with HMAC-SHA1 where it names
/// that algorithm or none, and with HMAC-SHA256 where it names that. The header carries the key ID, the
/// time, the nonce and the code in Base64. Every other credential is refused.
pub proof fn law_credential_signs_a_request(
    token: AccessTokenView,
    ts: u64,
    nonce: Seq<char>,
    method: Seq<char>,
    uri: Seq<char>,
    host: Seq<char>,
    port: Seq<char>,
)
    ensures
        ({
            let message = encode_utf8(mac_message(ts, nonce, method, uri, host, port));
            let key = encode_utf8(token.mac_key);
            let outcome = mac_outcome(token, ts, nonce, method, uri, host, port);
            let start = "MAC id=\""@ + token.kid + "\",ts=\""@ + decimal_digits(ts as nat)
                + "\",nonce=\""@ + nonce + "\",mac=\""@;
            &&& visible_key_id(token.kid) && (token.mac_algorithm is None || token.mac_algorithm->0
                == "hmac-sha-1"@) ==> outcome == Ok::<Seq<char>, TapErrorView>(
                start + base64_padded(hmac_sha1_of(key, message)) + "\""@,
            )
            &&& visible_key_id(token.kid) && token.mac_algorithm == Some("hmac-sha-256"@) ==> outcome
                == Ok::<Seq<char>, TapErrorView>(
                start + base64_padded(hmac_sha256_of(key, message)) + "\""@,
            )
            &&& !visible_key_id(token.kid) || (token.mac_algorithm is Some && token.mac_algorithm->0
                != "hmac-sha-1"@ && token.mac_algorithm->0 != "hmac-sha-256"@) ==> outcome == Err::<
                Seq<char>,
                TapErrorView,
            >(TapErrorView::Rejected("invalid_token"@))
        }),
{
    lemma_visible_key_id(token.kid);
    reveal_strlit("hmac-sha-1");
    reveal_strlit("hmac-sha-256");
    assert("hmac-sha-1"@.len() != "hmac-sha-256"@.len());
}

proof fn lemma_client_query(client_id: Seq<char>)
    ensures
        form_query(seq![("client_id"@, client_id)]) == "client_id="@ + form_bytes(
            encode_utf8(client_id),
        ),
{
    reveal_strlit("client_id");
    reveal_strlit("client_id=");
    let name = "client_id"@;
    is_ascii_chars_encode_utf8(name);
    let bytes = encode_utf8(name);
    assert(bytes =~= seq![
        'c' as u8,
        'l' as u8,
        'i' as u8,
        'e' as u8,
        'n' as u8,
        't' as u8,
        '_' as u8,
        'i' as u8,
        'd' as u8,
    ]);
    lemma_plain_form(bytes);
    assert(form_bytes(bytes) =~= name);
    assert(name + seq!['='] =~= "client_id="@);
}

proof fn lemma_plain_form(bytes: Seq<u8>)
    requires
        forall|i: int| 0 <= i < bytes.len() ==> form_plain(#[trigger] bytes[i]),
    ensures
        form_bytes(bytes) == Seq::new(bytes.len(), |i: int| bytes[i] as char),
    decreases bytes.len(),
{
    if bytes.len() > 0 {
        lemma_plain_form(bytes.drop_last());
    }
    assert(form_bytes(bytes) =~= Seq::new(bytes.len(), |i: int| bytes[i] as char));
}

/// A usable credential makes a request: at the hosts of TapTap, with a clock and a nonce, whoever has a
/// key ID of visible characters and a key, and names a known algorithm or none, asks for the profile at
/// the Open API of the region, with the client ID in the query, and the header carries the key ID.
pub proof fn law_usable_credential_makes_a_request(
    region: Region,
    client_id: Seq<char>,
    token: AccessTokenView,
    detailed: bool,
    ts: u64,
    nonce: Seq<u8>,
)
    requires
        token.kid.len() > 0,
        token.mac_key.len() > 0,
        visible_key_id(token.kid),
        token.mac_algorithm is Some ==> token.mac_algorithm->0 == "hmac-sha-1"@
            || token.mac_algorithm->0 == "hmac-sha-256"@,
    ensures
        ({
            let host = match region {
                Region::Cn => "open.tapapis.cn"@,
                Region::Global => "open.tapapis.com"@,
            };
            let path = if detailed {
                "/account/profile/v1"@
            } else {
                "/account/basic-info/v1"@
            };
            let uri = path + "?"@ + ("client_id="@ + form_bytes(encode_utf8(client_id)));
            let message = encode_utf8(mac_message(ts, hex_text(nonce), "GET"@, uri, host, "443"@));
            let code = if token.mac_algorithm == Some("hmac-sha-256"@) {
                hmac_sha256_of(encode_utf8(token.mac_key), message)
            } else {
                hmac_sha1_of(encode_utf8(token.mac_key), message)
            };
            let outcome = profile_outcome(
                region.open_text(),
                client_id,
                token,
                detailed,
                Some(ts),
                Some(nonce),
            );
            &&& outcome matches Ok(request)
            &&& request.url == "https://"@ + host + uri
            &&& request.authorization == "MAC id=\""@ + token.kid + "\",ts=\""@ + decimal_digits(
                ts as nat,
            ) + "\",nonce=\""@ + hex_text(nonce) + "\",mac=\""@ + base64_padded(code) + "\""@
        }),
{
    lemma_client_query(client_id);
    lemma_open_text(region);
    law_profile_is_asked_in_the_region(region, client_id, token, detailed, ts, nonce);
    let host = match region {
        Region::Cn => "open.tapapis.cn"@,
        Region::Global => "open.tapapis.com"@,
    };
    let path = if detailed {
        "/account/profile/v1"@
    } else {
        "/account/basic-info/v1"@
    };
    let uri = path + "?"@ + ("client_id="@ + form_bytes(encode_utf8(client_id)));
    law_credential_signs_a_request(token, ts, hex_text(nonce), "GET"@, uri, host, "443"@);
    reveal_strlit("hmac-sha-1");
    reveal_strlit("hmac-sha-256");
    assert("hmac-sha-1"@.len() != "hmac-sha-256"@.len());
}

/// A credential that is not usable makes no request at the hosts of TapTap: it is refused as such.
pub proof fn law_other_credentials_are_refused(
    region: Region,
    client_id: Seq<char>,
    token: AccessTokenView,
    detailed: bool,
    ts: u64,
    nonce: Seq<u8>,
)
    requires
        token.kid.len() == 0 || token.mac_key.len() == 0 || !visible_key_id(token.kid) || (
        token.mac_algorithm is Some && token.mac_algorithm->0 != "hmac-sha-1"@
            && token.mac_algorithm->0 != "hmac-sha-256"@),
    ensures
        profile_outcome(region.open_text(), client_id, token, detailed, Some(ts), Some(nonce))
            == Err::<SignedRequestView, TapErrorView>(TapErrorView::Rejected("invalid_token"@)),
{
    lemma_open_text(region);
    lemma_visible_key_id(token.kid);
    law_unusable_credential_makes_no_request(
        region.open_text(),
        client_id,
        token,
        detailed,
        Some(ts),
        Some(nonce),
    );
}

/// Without a clock or a nonce no request is made.
pub proof fn law_no_request_without_time_and_nonce(
    open_host: Seq<char>,
    client_id: Seq<char>,
    token: AccessTokenView,
    detailed: bool,
    ts: Option<u64>,
    nonce: Option<Seq<u8>>,
)
    requires
        token.kid.len() > 0 && token.mac_key.len() > 0,
        ts is None || nonce is None,
    ensures
        profile_outcome(open_host, client_id, token, detailed, ts, nonce) == Err::<
            SignedRequestView,
            TapErrorView,
        >(TapErrorView::Malformed),
{
}

/// At any host, the request goes to the URL that the host and the path make, and the signature covers
/// the host, the path and the query of that URL.
pub proof fn law_request_follows_the_url(
    open_host: Seq<char>,
    client_id: Seq<char>,
    token: AccessTokenView,
    detailed: bool,
    ts: u64,
    nonce: Seq<u8>,
)
    requires
        token.kid.len() > 0 && token.mac_key.len() > 0,
    ensures
        !plain_address(open_host) ==> built_url(
            open_host,
            profile_path(detailed),
            seq![("client_id"@, client_id)],
        ) == url_with_pairs(open_host + profile_path(detailed), seq![("client_id"@, client_id)]),
        ({
            let path = if detailed {
                "/account/profile/v1"@
            } else {
                "/account/basic-info/v1"@
            };
            let outcome = profile_outcome(
                open_host,
                client_id,
                token,
                detailed,
                Some(ts),
                Some(nonce),
            );
            match built_url(open_host, path, seq![("client_id"@, client_id)]) {
                None => outcome == Err::<SignedRequestView, TapErrorView>(TapErrorView::Malformed),
                Some(url) => {
                    let uri = match url.query {
                        Some(query) => url.path + "?"@ + query,
                        None => url.path,
                    };
                    match url.host {
                        None => outcome == Err::<SignedRequestView, TapErrorView>(
                            TapErrorView::Malformed,
                        ),
                        Some(host) => match mac_outcome(
                            token,
                            ts,
                            hex_text(nonce),
                            "GET"@,
                            uri,
                            host,
                            "443"@,
                        ) {
                            Ok(header) => outcome == Ok::<SignedRequestView, TapErrorView>(
                                SignedRequestView { url: url.text, authorization: header },
                            ),
                            Err(e) => outcome == Err::<SignedRequestView, TapErrorView>(e),
                        },
                    }
                },
            }
        }),
{
}

/// Each region has hosts of its own, and requests go to those of the region.
pub proof fn law_regions_have_hosts_of_their_own()
    ensures
        Region::Cn.accounts_text() == "https://accounts.tapapis.cn"@,
        Region::Cn.open_text() == "https://open.tapapis.cn"@,
        Region::Cn.authorize_text() == "https://accounts.taptap.cn"@,
        Region::Cn.name_text() == "cn"@,
        Region::Global.accounts_text() == "https://accounts.tapapis.com"@,
        Region::Global.open_text() == "https://open.tapapis.com"@,
        Region::Global.authorize_text() == "https://www.taptapauth.com"@,
        Region::Global.name_text() == "global"@,
{
}

/// The requests for a device code and for credentials carry what they are about, each part under its
/// name.
pub proof fn law_forms_carry_their_parts(
    accounts_host: Seq<char>,
    client_id: Seq<char>,
    code: Seq<char>,
    redirect_uri: Seq<char>,
    code_verifier: Seq<char>,
)
    ensures
        ({
            let start = device_code_request(accounts_host, client_id);
            &&& start.url == accounts_host + "/oauth2/v1/device/code"@
            &&& start.form.len() == 3
            &&& start.form.contains(("client_id"@, client_id))
            &&& start.form.contains(("response_type"@, "device_code"@))
            &&& start.form.contains(("scope"@, "public_profile"@))
        }),
        ({
            let poll = device_token_request(accounts_host, client_id, code);
            &&& poll.url == accounts_host + "/oauth2/v1/token"@
            &&& poll.form.len() == 4
            &&& poll.form.contains(("grant_type"@, "device_token"@))
            &&& poll.form.contains(("client_id"@, client_id))
            &&& poll.form.contains(("secret_type"@, "hmac-sha-1"@))
            &&& poll.form.contains(("code"@, code))
        }),
        ({
            let exchange = exchange_request(
                accounts_host,
                client_id,
                code,
                redirect_uri,
                code_verifier,
            );
            &&& exchange.url == accounts_host + "/oauth2/v1/token"@
            &&& exchange.form.len() == 6
            &&& exchange.form.contains(("client_id"@, client_id))
            &&& exchange.form.contains(("grant_type"@, "authorization_code"@))
            &&& exchange.form.contains(("secret_type"@, "hmac-sha-1"@))
            &&& exchange.form.contains(("code"@, code))
            &&& exchange.form.contains(("redirect_uri"@, redirect_uri))
            &&& exchange.form.contains(("code_verifier"@, code_verifier))
        }),
{
    let start = device_code_request(accounts_host, client_id).form;
    assert(start[0] == ("client_id"@, client_id));
    assert(start[1] == ("response_type"@, "device_code"@));
    assert(start[2] == ("scope"@, "public_profile"@));
    let poll = device_token_request(accounts_host, client_id, code).form;
    assert(poll[0] == ("grant_type"@, "device_token"@));
    assert(poll[1] == ("client_id"@, client_id));
    assert(poll[2] == ("secret_type"@, "hmac-sha-1"@));
    assert(poll[3] == ("code"@, code));
    let exchange = exchange_request(accounts_host, client_id, code, redirect_uri, code_verifier).form;
    assert(exchange[0] == ("client_id"@, client_id));
    assert(exchange[1] == ("grant_type"@, "authorization_code"@));
    assert(exchange[2] == ("secret_type"@, "hmac-sha-1"@));
    assert(exchange[3] == ("code"@, code));
    assert(exchange[4] == ("redirect_uri"@, redirect_uri));
    assert(exchange[5] == ("code_verifier"@, code_verifier));
}

/// Whether a list has one member with a name, with the given value.
pub open spec fn has_only(
    list: Seq<(Seq<char>, JsonView)>,
    name: Seq<char>,
    value: JsonView,
) -> bool {
    exists|i: int|
        {
            &&& 0 <= i < list.len()
            &&& #[trigger] list[i] == (name, value)
            &&& forall|j: int| 0 <= j < list.len() && j != i ==> (#[trigger] list[j]).0 != name
        }
}

/// Whether no member of a list has a name.
pub open spec fn has_none(list: Seq<(Seq<char>, JsonView)>, name: Seq<char>) -> bool {
    forall|j: int| 0 <= j < list.len() ==> (#[trigger] list[j]).0 != name
}

proof fn lemma_has_only(list: Seq<(Seq<char>, JsonView)>, name: Seq<char>, value: JsonView)
    requires
        has_only(list, name, value),
    ensures
        value_of(list, name) == Some(value),
{
    let i = choose|i: int|
        {
            &&& 0 <= i < list.len()
            &&& #[trigger] list[i] == (name, value)
            &&& forall|j: int| 0 <= j < list.len() && j != i ==> (#[trigger] list[j]).0 != name
        };
    law_lookup_finds_the_first(list, name, i);
}

/// A reply that says `"success": true` gives its data, where they are an object or an array.
pub proof fn law_success_gives_the_data(
    body: Seq<u8>,
    list: Seq<(Seq<char>, JsonView)>,
    text: Seq<char>,
)
    requires
        json_object(body) == Some(list),
        has_only(list, "success"@, JsonView::Bool(true)),
        has_only(list, "data"@, JsonView::Other(text)),
        text.len() > 0,
    ensures
        reply_outcome(body) == if text[0] as int == 0x7b || text[0] as int == 0x5b {
            Ok::<Seq<char>, TapErrorView>(text)
        } else {
            Err(TapErrorView::Malformed)
        },
{
    lemma_has_only(list, "success"@, JsonView::Bool(true));
    lemma_has_only(list, "data"@, JsonView::Other(text));
}

/// A reply that is no object, has no data, or says `"success": true` of data that are neither an object
/// nor an array, makes no sense.
pub proof fn law_other_bodies_make_no_sense(
    body: Seq<u8>,
    list: Seq<(Seq<char>, JsonView)>,
    data: JsonView,
)
    requires
        json_object(body) is None || (json_object(body) == Some(list) && (has_none(list, "data"@) || (
        has_only(list, "success"@, JsonView::Bool(true)) && has_only(list, "data"@, data) && !(
        data is Other)))),
    ensures
        reply_outcome(body) == Err::<Seq<char>, TapErrorView>(TapErrorView::Malformed),
{
    if json_object(body) == Some(list) {
        if has_none(list, "data"@) {
            law_lookup_finds_nothing_else(list, "data"@);
        } else {
            lemma_has_only(list, "success"@, JsonView::Bool(true));
            lemma_has_only(list, "data"@, data);
        }
    }
}

/// A reply that has data but does not say `"success": true` is a refusal, whatever else it says: with
/// the code that its data give under `error`, or with `unknown_error` where they give none.
pub proof fn law_everything_else_is_a_refusal(
    body: Seq<u8>,
    list: Seq<(Seq<char>, JsonView)>,
    success: JsonView,
    data: JsonView,
    nested: Seq<(Seq<char>, JsonView)>,
    code: JsonView,
)
    requires
        json_object(body) == Some(list),
        has_none(list, "success"@) || (has_only(list, "success"@, success) && success
            != JsonView::Bool(true)),
        has_only(list, "data"@, data),
    ensures
        !(data is Other) || json_object(encode_utf8(data->Other_0)) is None ==> reply_outcome(body)
            == Err::<Seq<char>, TapErrorView>(TapErrorView::Rejected("unknown_error"@)),
        data is Other && json_object(encode_utf8(data->Other_0)) == Some(nested) && has_only(
            nested,
            "error"@,
            code,
        ) ==> reply_outcome(body) == Err::<Seq<char>, TapErrorView>(
            TapErrorView::Rejected(
                match code {
                    JsonView::Text(text) => text,
                    _ => "unknown_error"@,
                },
            ),
        ),
        data is Other && json_object(encode_utf8(data->Other_0)) == Some(nested) && has_none(
            nested,
            "error"@,
        ) ==> reply_outcome(body) == Err::<Seq<char>, TapErrorView>(
            TapErrorView::Rejected("unknown_error"@),
        ),
{
    lemma_has_only(list, "data"@, data);
    if has_none(list, "success"@) {
        law_lookup_finds_nothing_else(list, "success"@);
    } else {
        lemma_has_only(list, "success"@, success);
    }
    if has_only(nested, "error"@, code) {
        lemma_has_only(nested, "error"@, code);
    }
    if has_none(nested, "error"@) {
        law_lookup_finds_nothing_else(nested, "error"@);
    }
}

/// What is exchanged with TapTap stands for the values of all its fields.
pub proof fn law_messages_stand_for_their_fields(
    token: AccessToken,
    user: Profile,
    code: DeviceCode,
    form: FormRequest,
    signed: SignedRequest,
)
    ensures
        token@.kid == token.kid@,
        token@.mac_key == token.mac_key@,
        token@.mac_algorithm == match token.mac_algorithm {
            Some(text) => Some(text@),
            None => None,
        },
        user@.openid == user.openid@,
        user@.unionid == user.unionid@,
        user@.name == match user.name {
            Some(text) => Some(text@),
            None => None,
        },
        user@.avatar == match user.avatar {
            Some(text) => Some(text@),
            None => None,
        },
        code@.device_code == code.device_code@,
        code@.qrcode_url == code.qrcode_url@,
        code@.expires_in == code.expires_in,
        code@.interval == code.interval,
        form@.url == form.url@,
        form@.form.len() == form.form@.len(),
        forall|i: int|
            0 <= i < form.form@.len() ==> #[trigger] form@.form[i] == (
                form.form@[i].0@,
                form.form@[i].1@,
            ),
        signed@.url == signed.url@,
        signed@.authorization == signed.authorization@,
{
}

/// Outcomes stand for what they hold.
pub proof fn law_results_stand_for_what_they_hold(
    text: String,
    request: SignedRequest,
    e: TapError,
    bytes: Vec<u8>,
)
    ensures
        TapError::Upstream@ == TapErrorView::Upstream,
        TapError::Malformed@ == TapErrorView::Malformed,
        TapError::Rejected(text)@ == TapErrorView::Rejected(text@),
        text_outcome(Ok(text)) == Ok::<Seq<char>, TapErrorView>(text@),
        text_outcome(Err(e)) == Err::<Seq<char>, TapErrorView>(e@),
        request_outcome(Ok(request)) == Ok::<SignedRequestView, TapErrorView>(request@),
        request_outcome(Err(e)) == Err::<SignedRequestView, TapErrorView>(e@),
        optional_bytes(Some(bytes)) == Some(bytes@),
        optional_bytes(None) is None,
{
}

} // verus!
