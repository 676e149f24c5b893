//! Login in the browser: an authorization code with proof of possession (PKCE).

use vstd::prelude::*;
use vstd::slice::slice_subrange;
use vstd::utf8::encode_utf8;

use crate::api::ApiError;
use crate::api::ApiErrorView;
use crate::api::LoginView;
use crate::api::Status;
use crate::api::WebStartResponse;
use crate::api::WebStartView;
use crate::api::api_outcome;
use crate::api::error;
use crate::api::refusal;
use crate::api::refused_with;
use crate::api::tap_error;
use crate::api::tap_refusal;
use crate::config::Config;
use crate::config::ConfigView;
use crate::crypto::hmac_sha256_of;
use crate::crypto::random_bytes;
use crate::crypto::sha256;
use crate::crypto::sha256_of;
use crate::crypto::unix_time;
use crate::device::token_reply;
use crate::encoding::base64_letter;
use crate::encoding::base64_url;
use crate::encoding::encode_url_safe;
use crate::encoding::law_base64_url_is_injective;
use crate::encoding::lemma_sextet_range;
use crate::encoding::sextet;
use crate::flows::Flow;
use crate::flows::FlowTable;
use crate::flows::LATEST;
use crate::flows::MAX_FLOWS;
use crate::flows::NANOS;
use crate::flows::cleared;
use crate::jwt::signed_part;
use crate::pages::callback_error_page;
use crate::pages::callback_success_page;
use crate::pages::error_page_text;
use crate::pages::law_success_page_tells_the_login;
use crate::pages::success_page_text;
use crate::session::asked_or_refused;
use crate::session::asked_url;
use crate::session::finished_login;
use crate::session::issue_session_at;
use crate::session::law_profile_is_asked_for_the_client;
use crate::session::login_holds;
use crate::session::login_owed;
use crate::session::login_outcome;
use crate::session::me_outcome;
use crate::session::profile_asked;
use crate::session::profile_reply;
use crate::taptap::AccessToken;
use crate::taptap::AccessTokenView;
use crate::taptap::FormRequest;
use crate::taptap::FormRequestView;
use crate::taptap::Profile;
use crate::taptap::ProfileView;
use crate::taptap::Region;
use crate::taptap::SignedRequest;
use crate::taptap::SignedRequestView;
use crate::taptap::TapClient;
use crate::taptap::TapError;
use crate::taptap::TapErrorView;
use crate::taptap::exchange_request;
use crate::taptap::lemma_authorize_text;
use crate::taptap::lemma_url_fits;
use crate::taptap::optional_bytes;
use crate::taptap::pair;
use crate::taptap::profile_possible;
use crate::taptap::request_outcome;
use crate::taptap::usable_credential;
use crate::text::all_chars;
use crate::text::join;
use crate::text::optional_text;
use crate::text::slash;
use crate::text::slashes;
use crate::text::trim_end;
use crate::text::trim_end_slashes;
use crate::url::form_query;
use crate::url::https_url;
use crate::url::pairs_of;
use crate::url::plain_path;
use crate::url::url_at;

verus! {

/// How long a player has to grant access, in seconds.
pub const WEB_FLOW_SECONDS: u64 = 600;

/// A login in the browser that has been started.
pub struct WebFlow {
    pub region: Region,
    pub code_verifier: String,
    pub redirect_uri: String,
    /// The moment at which the login expires.
    pub expires_at: u128,
    pub finished: bool,
}

/// What a `WebFlow` stands for.
pub struct WebFlowView {
    pub region: Region,
    pub code_verifier: Seq<char>,
    pub redirect_uri: Seq<char>,
    pub expires_at: u128,
    pub finished: bool,
}

impl View for WebFlow {
    type V = WebFlowView;

    open spec fn view(&self) -> WebFlowView {
        WebFlowView {
            region: self.region,
            code_verifier: self.code_verifier@,
            redirect_uri: self.redirect_uri@,
            expires_at: self.expires_at,
            finished: self.finished,
        }
    }
}

impl Flow for WebFlow {
    open spec fn ends_at(flow: WebFlowView) -> u128 {
        flow.expires_at
    }

    open spec fn is_used(flow: WebFlowView) -> bool {
        flow.finished
    }

    fn expires_at(&self) -> (res: u128) {
        self.expires_at
    }

    fn finished(&self) -> (res: bool) {
        self.finished
    }
}

/// The logins in the browser by their names.
pub type WebTable = Map<Seq<char>, Option<WebFlowView>>;

/// What TapTap hands back through the browser.
pub struct WebCallbackQuery {
    pub code: Option<String>,
    pub state: Option<String>,
    pub error: Option<String>,
}

/// What a `WebCallbackQuery` stands for.
pub struct WebCallbackView {
    pub code: Option<Seq<char>>,
    pub state: Option<Seq<char>>,
    pub error: Option<Seq<char>>,
}

impl View for WebCallbackQuery {
    type V = WebCallbackView;

    open spec fn view(&self) -> WebCallbackView {
        WebCallbackView {
            code: optional_text(self.code),
            state: optional_text(self.state),
            error: optional_text(self.error),
        }
    }
}

/// A page with its status.
pub struct Page {
    pub status: Status,
    pub html: String,
}

/// What a `Page` stands for.
pub struct PageView {
    pub status: Status,
    pub html: Seq<char>,
}

impl View for Page {
    type V = PageView;

    open spec fn view(&self) -> PageView {
        PageView { status: self.status, html: self.html@ }
    }
}

/// A login taken out of its slot to exchange its authorization code.
pub struct WebExchange {
    pub flow_id: String,
    pub client_id: String,
    pub flow: WebFlow,
    /// Whether a session has been issued.
    pub complete: bool,
}

/// What a `WebExchange` stands for.
pub struct WebExchangeView {
    pub flow_id: Seq<char>,
    pub client_id: Seq<char>,
    pub flow: WebFlowView,
    pub complete: bool,
}

impl View for WebExchange {
    type V = WebExchangeView;

    open spec fn view(&self) -> WebExchangeView {
        WebExchangeView {
            flow_id: self.flow_id@,
            client_id: self.client_id@,
            flow: self.flow@,
            complete: self.complete,
        }
    }
}

/// What is to be done on a callback.
pub enum CallbackStart {
    /// Answer it.
    Answer(Page),
    /// Wait until whoever is working on the login is done, and then answer.
    Wait(Page),
    /// Ask TapTap for the credential.
    Ask(WebExchange, FormRequest),
}

/// What a `CallbackStart` stands for.
pub enum CallbackStartView {
    Answer(PageView),
    Wait(PageView),
    Ask(WebExchangeView, FormRequestView),
}

impl View for CallbackStart {
    type V = CallbackStartView;

    open spec fn view(&self) -> CallbackStartView {
        match self {
            CallbackStart::Answer(page) => CallbackStartView::Answer(page@),
            CallbackStart::Wait(page) => CallbackStartView::Wait(page@),
            CallbackStart::Ask(exchange, request) => CallbackStartView::Ask(exchange@, request@),
        }
    }
}

/// What is to be done once TapTap has answered the request for the credential.
pub enum CallbackNext {
    /// Answer the callback.
    Answer(Page),
    /// Ask TapTap for the profile.
    Ask(SignedRequest),
}

/// What a `CallbackNext` stands for.
pub enum CallbackNextView {
    Answer(PageView),
    Ask(SignedRequestView),
}

impl View for CallbackNext {
    type V = CallbackNextView;

    open spec fn view(&self) -> CallbackNextView {
        match self {
            CallbackNext::Answer(page) => CallbackNextView::Answer(page@),
            CallbackNext::Ask(request) => CallbackNextView::Ask(request@),
        }
    }
}

/// Where TapTap sends the browser back to.
pub open spec fn callback_url(base: Seq<char>) -> Seq<char> {
    trim_end(base, |c: char| slash(c)) + "/auth/taptap/web/callback"@
}

/// The proof of possession that belongs to a code verifier.
pub open spec fn code_challenge(code_verifier: Seq<char>) -> Seq<char> {
    base64_url(sha256_of(encode_utf8(code_verifier)))
}

/// The page on which a player grants access to a login.
pub open spec fn authorize_url(
    region: Region,
    client_id: Seq<char>,
    flow_id: Seq<char>,
    redirect_uri: Seq<char>,
    code_verifier: Seq<char>,
) -> Seq<char> {
    https_url(
        region.authorize_name(),
        "/authorize"@,
        seq![
            ("client_id"@, client_id),
            ("response_type"@, "code"@),
            ("redirect_uri"@, redirect_uri),
            ("state"@, flow_id),
            ("code_challenge"@, code_challenge(code_verifier)),
            ("code_challenge_method"@, "S256"@),
            ("scope"@, "public_profile"@),
        ],
    ).text
}

/// The name of a login: the first half of its random bytes.
pub open spec fn web_flow_id(random: Seq<u8>) -> Seq<char> {
    base64_url(random.subrange(0, 32))
}

/// The code verifier of a login: the second half of its random bytes.
pub open spec fn web_verifier(random: Seq<u8>) -> Seq<char> {
    base64_url(random.subrange(32, 64))
}

/// A login that is started at the moment `now`.
pub open spec fn fresh_web_flow(
    region: Region,
    base: Seq<char>,
    random: Seq<u8>,
    now: u128,
) -> WebFlowView {
    WebFlowView {
        region,
        code_verifier: web_verifier(random),
        redirect_uri: callback_url(base),
        expires_at: (now + WEB_FLOW_SECONDS * NANOS) as u128,
        finished: false,
    }
}

/// What becomes of the table, and what is answered, when a login is started at the moment `now` with
/// the random bytes `random`, if they can be had.
pub open spec fn web_opened(
    table: WebTable,
    config: ConfigView,
    region: Region,
    random: Option<Seq<u8>>,
    now: u128,
) -> (WebTable, Result<WebStartView, ApiErrorView>) {
    match (config.public_base_url, config.client(region), random) {
        (None, _, _) => (table, Err(refusal(Status::BadRequest, "web_login_not_configured"@))),
        (_, None, _) => (table, Err(refusal(Status::BadRequest, "region_not_configured"@))),
        (_, _, None) => (table, Err(refusal(Status::InternalServerError, "random_error"@))),
        (Some(base), Some(client_id), Some(random)) => {
            let open = cleared::<WebFlow>(table, now);
            if open.len() >= MAX_FLOWS {
                (open, Err(refusal(Status::ServiceUnavailable, "too_many_flows"@)))
            } else {
                (
                    open.insert(
                        web_flow_id(random),
                        Some(fresh_web_flow(region, base, random, now)),
                    ),
                    Ok(
                        WebStartView {
                            authorize_url: authorize_url(
                                region,
                                client_id,
                                web_flow_id(random),
                                callback_url(base),
                                web_verifier(random),
                            ),
                            expires_in: WEB_FLOW_SECONDS,
                        },
                    ),
                )
            }
        },
    }
}

/// A page that tells of a failure.
pub open spec fn failure(config: ConfigView, status: Status, detail: Seq<char>) -> PageView {
    PageView { status, html: error_page_text(config.public_base_path, detail) }
}

/// The page that tells that a login has been used up.
pub open spec fn used_up(config: ConfigView) -> PageView {
    failure(config, Status::NotFound, "登录流程已被使用，请重新发起"@)
}

/// What becomes of the table, and what is to be done, on a callback at the moment `now`.
pub open spec fn web_called(
    table: WebTable,
    config: ConfigView,
    tap: TapClient,
    query: WebCallbackView,
    now: u128,
) -> (WebTable, CallbackStartView) {
    match (query.error, query.code, query.state) {
        (Some(denied), _, _) => (
            table,
            CallbackStartView::Answer(
                failure(config, Status::BadRequest, "TapTap 返回错误："@ + denied),
            ),
        ),
        (None, Some(code), Some(flow_id)) => if !table.contains_key(flow_id) {
            (
                table,
                CallbackStartView::Answer(
                    failure(config, Status::NotFound, "登录流程不存在或已过期，请重新发起"@),
                ),
            )
        } else {
            match table[flow_id] {
                None => (table, CallbackStartView::Wait(used_up(config))),
                Some(flow) => if flow.finished {
                    (table, CallbackStartView::Answer(used_up(config)))
                } else if now >= flow.expires_at {
                    (
                        table.remove(flow_id),
                        CallbackStartView::Answer(
                            failure(config, Status::Gone, "登录流程已过期，请重新发起"@),
                        ),
                    )
                } else {
                    let used = WebFlowView { finished: true, ..flow };
                    match config.client(flow.region) {
                        None => (
                            table.insert(flow_id, Some(used)),
                            CallbackStartView::Answer(
                                failure(config, Status::BadRequest, "该区域未配置"@),
                            ),
                        ),
                        Some(client_id) => (
                            table.insert(flow_id, None),
                            CallbackStartView::Ask(
                                WebExchangeView { flow_id, client_id, flow: used, complete: false },
                                exchange_request(
                                    tap.accounts_at(flow.region),
                                    client_id,
                                    code,
                                    flow.redirect_uri,
                                    flow.code_verifier,
                                ),
                            ),
                        ),
                    }
                },
            }
        },
        _ => (
            table,
            CallbackStartView::Answer(failure(config, Status::BadRequest, "回调参数不完整"@)),
        ),
    }
}

/// What is to be done when the profile has been asked for, or why it has not.
pub open spec fn ask_or_page(
    config: ConfigView,
    asked: Result<SignedRequestView, TapErrorView>,
) -> CallbackNextView {
    match asked {
        Ok(request) => CallbackNextView::Ask(request),
        Err(e) => CallbackNextView::Answer(
            failure(config, tap_refusal(e).status, "获取用户信息失败，请重试"@),
        ),
    }
}

/// Whether `next` can be what is to be done after TapTap has handed out the credential `token`,
/// whatever the clock and the source of randomness answer.
pub open spec fn exchange_accepted(
    config: ConfigView,
    open_host: Seq<char>,
    client_id: Seq<char>,
    token: AccessTokenView,
    next: CallbackNextView,
) -> bool {
    exists|asked: Result<SignedRequestView, TapErrorView>|
        #[trigger] profile_possible(open_host, client_id, token, true, asked) && next
            == ask_or_page(config, asked)
}

/// The page that a login, or its failure, amounts to.
pub open spec fn login_page(
    config: ConfigView,
    login: Result<LoginView, ApiErrorView>,
) -> PageView {
    match login {
        Ok(login) => PageView {
            status: Status::Success,
            html: success_page_text(config.public_base_path, login),
        },
        Err(e) => failure(config, e.status, "建立游戏会话失败，请重试"@),
    }
}

/// The page that answers a callback once TapTap has answered the request for the profile, and
/// whether a session has been issued.
pub open spec fn web_finished(
    config: ConfigView,
    region: Region,
    reply: Result<ProfileView, TapErrorView>,
    clock: Option<u64>,
) -> (PageView, bool) {
    match reply {
        Ok(user) => {
            let login = login_outcome(config.session_secret, region, user, clock);
            (login_page(config, login), login is Ok)
        },
        Err(e) => (failure(config, tap_refusal(e).status, "获取用户信息失败，请重试"@), false),
    }
}

/// Whether a page hands over a session: it is the page for a login that is for the profile that TapTap
/// answered and the region, and bears a token that stands for the player and is bound to the secret.
pub open spec fn page_hands_over(
    config: ConfigView,
    region: Region,
    reply: Result<ProfileView, TapErrorView>,
    page: PageView,
    clock: Option<u64>,
) -> bool {
    exists|login: LoginView|
        {
            &&& page.html == #[trigger] success_page_text(config.public_base_path, login)
            &&& reply == Ok::<ProfileView, TapErrorView>(login.user)
            &&& login.region == region
            &&& login.expires_in == 86400
            &&& login_holds(config.session_secret, Ok(login), clock)
        }
}

/// What becomes of the table when the work on a login ends: a complete one is gone, any other returns
/// to its slot.
pub open spec fn web_ended(table: WebTable, exchange: WebExchangeView) -> WebTable {
    if exchange.complete {
        table.remove(exchange.flow_id)
    } else if table.contains_key(exchange.flow_id) {
        table.insert(exchange.flow_id, Some(exchange.flow))
    } else {
        table
    }
}

/// Starts a login at the moment `now` with the random bytes `random`, of which there are 64.
pub fn open_web_flow(
    flows: &mut FlowTable<WebFlow>,
    config: &Config,
    region: Region,
    random: Option<Vec<u8>>,
    now: u128,
) -> (res: Result<WebStartResponse, ApiError>)
    requires
        old(flows).wf(),
        now <= LATEST,
        random matches Some(random) ==> random@.len() == 64,
    ensures
        final(flows).wf(),
        (final(flows)@, api_outcome(res)) == web_opened(
            old(flows)@,
            config@,
            region,
            optional_bytes(random),
            now,
        ),
{
    let base = match &config.public_base_url {
        Some(base) => base.as_str(),
        None => return Err(error(Status::BadRequest, "web_login_not_configured")),
    };
    let client_id = match config.client_id(region) {
        Some(client_id) => client_id,
        None => return Err(error(Status::BadRequest, "region_not_configured")),
    };
    let redirect_uri = join(trim_end_slashes(base).as_str(), "/auth/taptap/web/callback");
    let random = match random {
        Some(random) => random,
        None => return Err(error(Status::InternalServerError, "random_error")),
    };
    let flow_id = encode_url_safe(slice_subrange(random.as_slice(), 0, 32));
    let code_verifier = encode_url_safe(slice_subrange(random.as_slice(), 32, 64));
    let challenge = encode_url_safe(sha256(code_verifier.as_str().as_bytes()).as_slice());
    let pairs = vec![
        pair("client_id", client_id),
        pair("response_type", "code"),
        pair("redirect_uri", redirect_uri.as_str()),
        pair("state", flow_id.as_str()),
        pair("code_challenge", challenge.as_str()),
        pair("code_challenge_method", "S256"),
        pair("scope", "public_profile"),
    ];
    proof {
        reveal_strlit("/authorize");
        lemma_authorize_text(region);
        assert(plain_path("/authorize"@));
        lemma_url_fits(region.authorize_text(), "/authorize"@, pairs_of(pairs@));
        assert(pairs_of(pairs@) =~= seq![
            ("client_id"@, client_id@),
            ("response_type"@, "code"@),
            ("redirect_uri"@, redirect_uri@),
            ("state"@, flow_id@),
            ("code_challenge"@, challenge@),
            ("code_challenge_method"@, "S256"@),
            ("scope"@, "public_profile"@),
        ]);
    }
    let url = match url_at(region.authorize_host(), "/authorize", &pairs) {
        Some(url) => url,
        None => return Err(error(Status::InternalServerError, "authorize_url_error")),
    };
    flows.clear_stale(now);
    if flows.len() >= MAX_FLOWS {
        return Err(error(Status::ServiceUnavailable, "too_many_flows"));
    }
    let flow = WebFlow {
        region,
        code_verifier,
        redirect_uri,
        expires_at: now + WEB_FLOW_SECONDS as u128 * NANOS,
        finished: false,
    };
    flows.insert(flow_id, flow);
    Ok(WebStartResponse { authorize_url: url.text, expires_in: WEB_FLOW_SECONDS })
}

/// Starts a login at the moment `now`.
pub fn web_start(
    flows: &mut FlowTable<WebFlow>,
    config: &Config,
    region: Region,
    now: u128,
) -> (res: Result<WebStartResponse, ApiError>)
    requires
        old(flows).wf(),
        now <= LATEST,
    ensures
        final(flows).wf(),
        exists|random: Option<Seq<u8>>|
            (random is Some ==> random->0.len() == 64) && (final(flows)@, api_outcome(res))
                == #[trigger] web_opened(old(flows)@, config@, region, random, now),
{
    let random = random_bytes(64);
    open_web_flow(flows, config, region, random, now)
}

fn failure_page(config: &Config, status: Status, detail: &str) -> (res: Page)
    ensures
        res@ == failure(config@, status, detail@),
{
    Page { status, html: callback_error_page(config.public_base_path.as_str(), detail) }
}

fn used_up_page(config: &Config) -> (res: Page)
    ensures
        res@ == used_up(config@),
{
    failure_page(config, Status::NotFound, "登录流程已被使用，请重新发起")
}

/// Begins to answer a callback at the moment `now`.
pub fn web_callback(
    flows: &mut FlowTable<WebFlow>,
    config: &Config,
    tap: &TapClient,
    query: &WebCallbackQuery,
    now: u128,
) -> (res: CallbackStart)
    requires
        old(flows).wf(),
    ensures
        final(flows).wf(),
        (final(flows)@, res@) == web_called(old(flows)@, config@, *tap, query@, now),
{
    if let Some(denied) = &query.error {
        return CallbackStart::Answer(
            failure_page(
                config,
                Status::BadRequest,
                join("TapTap 返回错误：", denied.as_str()).as_str(),
            ),
        );
    }
    let (code, flow_id) = match (&query.code, &query.state) {
        (Some(code), Some(flow_id)) => (code.as_str(), flow_id.as_str()),
        _ => return CallbackStart::Answer(
            failure_page(config, Status::BadRequest, "回调参数不完整"),
        ),
    };
    let (finished, expires_at, region) = match flows.get(flow_id) {
        None => return CallbackStart::Answer(
            failure_page(config, Status::NotFound, "登录流程不存在或已过期，请重新发起"),
        ),
        Some(None) => return CallbackStart::Wait(used_up_page(config)),
        Some(Some(flow)) => (flow.finished, flow.expires_at, flow.region),
    };
    if finished {
        return CallbackStart::Answer(used_up_page(config));
    }
    if now >= expires_at {
        flows.remove(flow_id);
        return CallbackStart::Answer(
            failure_page(config, Status::Gone, "登录流程已过期，请重新发起"),
        );
    }
    let ghost before = flows@;
    let mut flow = match flows.take(flow_id) {
        Some(flow) => flow,
        None => return CallbackStart::Wait(used_up_page(config)),
    };
    flow.finished = true;
    match config.client_id(region) {
        Some(client_id) => {
            let request = tap.exchange_code(
                region,
                client_id,
                code,
                flow.redirect_uri.as_str(),
                flow.code_verifier.as_str(),
            );
            CallbackStart::Ask(
                WebExchange {
                    flow_id: flow_id.to_owned(),
                    client_id: client_id.to_owned(),
                    flow,
                    complete: false,
                },
                request,
            )
        },
        None => {
            flows.put_back(flow_id, flow);
            assert(flows@ =~= before.insert(flow_id@, Some(flow@)));
            CallbackStart::Answer(failure_page(config, Status::BadRequest, "该区域未配置"))
        },
    }
}

/// Goes on with a callback once TapTap has answered the request for the credential.
pub fn web_callback_token(
    config: &Config,
    tap: &TapClient,
    exchange: &WebExchange,
    reply: Result<AccessToken, TapError>,
) -> (res: CallbackNext)
    requires
        tap.wf(),
        tap.fits(exchange@.flow.region, exchange@.client_id),
    ensures
        match token_reply(reply) {
            Err(e) => res@ == CallbackNextView::Answer(
                failure(config@, tap_refusal(e).status, "授权凭证校验失败，请重试"@),
            ),
            Ok(token) => exchange_accepted(
                config@,
                tap.open_at(exchange@.flow.region),
                exchange@.client_id,
                token,
                res@,
            ),
        },
{
    let token = match reply {
        Ok(token) => token,
        Err(e) => {
            let status = tap_error(e).status;
            return CallbackNext::Answer(
                failure_page(config, status, "授权凭证校验失败，请重试"),
            );
        },
    };
    let asked = tap.profile(exchange.flow.region, exchange.client_id.as_str(), &token, true);
    let ghost view = request_outcome(asked);
    let res = match asked {
        Ok(request) => CallbackNext::Ask(request),
        Err(e) => {
            let status = tap_error(e).status;
            CallbackNext::Answer(failure_page(config, status, "获取用户信息失败，请重试"))
        },
    };
    assert(res@ == ask_or_page(config@, view));
    res
}

/// Answers a callback once TapTap has answered the request for the profile, when the clock shows
/// `clock`.
pub fn web_callback_profile_at(
    config: &Config,
    exchange: &mut WebExchange,
    reply: Result<Profile, TapError>,
    clock: Option<u64>,
) -> (res: Page)
    ensures
        ({
            let (page, complete) = web_finished(
                config@,
                old(exchange)@.flow.region,
                profile_reply(reply),
                clock,
            );
            &&& res@ == page
            &&& final(exchange)@ == WebExchangeView {
                complete: old(exchange)@.complete || complete,
                ..old(exchange)@
            }
        }),
        login_holds(
            config@.session_secret,
            finished_login(
                config@.session_secret,
                old(exchange)@.flow.region,
                profile_reply(reply),
                clock,
            ),
            clock,
        ),
        login_owed(profile_reply(reply), clock) <==> res@.status == Status::Success,
        res@.status == Status::Success ==> page_hands_over(
            config@,
            old(exchange)@.flow.region,
            profile_reply(reply),
            res@,
            clock,
        ),
{
    let user = match reply {
        Ok(user) => user,
        Err(e) => {
            let status = tap_error(e).status;
            return failure_page(config, status, "获取用户信息失败，请重试");
        },
    };
    match issue_session_at(config, exchange.flow.region, user, clock) {
        Ok(login) => {
            exchange.complete = true;
            Page {
                status: Status::Success,
                html: callback_success_page(config.public_base_path.as_str(), &login),
            }
        },
        Err(e) => failure_page(config, e.status, "建立游戏会话失败，请重试"),
    }
}

/// Answers a callback once TapTap has answered the request for the profile.
pub fn web_callback_profile(
    config: &Config,
    exchange: &mut WebExchange,
    reply: Result<Profile, TapError>,
) -> (res: Page)
    ensures
        exists|clock: Option<u64>|
            {
                let (page, complete) = #[trigger] web_finished(
                    config@,
                    old(exchange)@.flow.region,
                    profile_reply(reply),
                    clock,
                );
                &&& res@ == page
                &&& final(exchange)@ == WebExchangeView {
                    complete: old(exchange)@.complete || complete,
                    ..old(exchange)@
                }
                &&& login_holds(
                    config@.session_secret,
                    finished_login(
                        config@.session_secret,
                        old(exchange)@.flow.region,
                        profile_reply(reply),
                        clock,
                    ),
                    clock,
                )
                &&& login_owed(profile_reply(reply), clock) <==> res@.status == Status::Success
                &&& res@.status == Status::Success ==> page_hands_over(
                    config@,
                    old(exchange)@.flow.region,
                    profile_reply(reply),
                    res@,
                    clock,
                )
            },
{
    let clock: Option<u64> = unix_time();
    web_callback_profile_at(config, exchange, reply, clock)
}

/// Ends the work on a login.
pub fn web_callback_end(flows: &mut FlowTable<WebFlow>, exchange: WebExchange)
    requires
        old(flows).wf(),
    ensures
        final(flows).wf(),
        final(flows)@ == web_ended(old(flows)@, exchange@),
{
    if exchange.complete {
        flows.remove(exchange.flow_id.as_str());
    } else {
        flows.put_back(exchange.flow_id.as_str(), exchange.flow);
    }
}

/// A callback that names a login and brings a code.
pub open spec fn brings_code(query: WebCallbackView, flow_id: Seq<char>) -> bool {
    query.error is None && query.code is Some && query.state == Some(flow_id)
}

/// A login is used up by the first callback that names it: while that one is being answered, another
/// gets nothing done, and afterwards, however it ended, every other is answered that there is no
/// login to be had.
pub proof fn law_login_is_used_once(
    table: WebTable,
    config: ConfigView,
    tap: TapClient,
    first: WebCallbackView,
    now: u128,
    complete: bool,
    second: WebCallbackView,
    later: u128,
)
    requires
        web_called(table, config, tap, first, now).1 is Ask,
        brings_code(second, first.state->0),
    ensures
        ({
            let (taken, start) = web_called(table, config, tap, first, now);
            let exchange = WebExchangeView { complete, ..start->Ask_0 };
            let left = web_ended(taken, exchange);
            let (kept, answer) = web_called(left, config, tap, second, later);
            &&& web_called(taken, config, tap, second, later) == (
                taken,
                CallbackStartView::Wait(used_up(config)),
            )
            &&& kept == left
            &&& answer matches CallbackStartView::Answer(page)
            &&& page.status == Status::NotFound
        }),
{
}

/// A login that is being worked on is not cleared away, so that no other can take its name.
pub proof fn law_login_under_way_stays(
    table: WebTable,
    config: ConfigView,
    tap: TapClient,
    query: WebCallbackView,
    now: u128,
    later: u128,
)
    requires
        web_called(table, config, tap, query, now).1 is Ask,
    ensures
        cleared::<WebFlow>(web_called(table, config, tap, query, now).0, later).contains_key(
            query.state->0,
        ),
{
}

/// TapTap is asked for a credential only on behalf of a login that is open, and only with the code
/// that the callback brings.
pub proof fn law_only_open_logins_are_exchanged(
    table: WebTable,
    config: ConfigView,
    tap: TapClient,
    query: WebCallbackView,
    now: u128,
)
    ensures
        web_called(table, config, tap, query, now).1 matches CallbackStartView::Ask(
            exchange,
            request,
        ) ==> {
            &&& query.error is None
            &&& query.code matches Some(code)
            &&& query.state matches Some(flow_id)
            &&& table.contains_key(flow_id)
            &&& table[flow_id] matches Some(flow)
            &&& !flow.finished
            &&& now < flow.expires_at
            &&& config.client(flow.region) matches Some(client_id)
            &&& exchange.flow_id == flow_id
            &&& exchange.client_id == client_id
            &&& request == exchange_request(
                tap.accounts_at(flow.region),
                client_id,
                code,
                flow.redirect_uri,
                flow.code_verifier,
            )
        },
{
}

/// A login that is started and called back before it expires is exchanged with the verifier whose
/// challenge went into the address of the page, and with the same address to return to.
pub proof fn law_exchange_proves_possession(
    table: WebTable,
    config: ConfigView,
    tap: TapClient,
    region: Region,
    random: Seq<u8>,
    now: u128,
    query: WebCallbackView,
    later: u128,
)
    requires
        now <= LATEST,
        web_opened(table, config, region, Some(random), now).1 is Ok,
        brings_code(query, web_flow_id(random)),
        later < now + WEB_FLOW_SECONDS * NANOS,
    ensures
        ({
            let (open, started) = web_opened(table, config, region, Some(random), now);
            let redirect_uri = callback_url(config.public_base_url->0);
            let client_id = config.client(region)->0;
            &&& started->Ok_0.authorize_url == authorize_url(
                region,
                client_id,
                web_flow_id(random),
                redirect_uri,
                web_verifier(random),
            )
            &&& web_called(open, config, tap, query, later).1 matches CallbackStartView::Ask(
                exchange,
                request,
            )
            &&& exchange.flow_id == web_flow_id(random)
            &&& request == exchange_request(
                tap.accounts_at(region),
                client_id,
                query.code->0,
                redirect_uri,
                web_verifier(random),
            )
        }),
{
}

/// A code verifier has 43 characters, all of them letters, digits, hyphens or underscores; and it is
/// not what names the login.
pub proof fn law_verifier_is_well_formed(random: Seq<u8>)
    requires
        random.len() == 64,
    ensures
        web_verifier(random).len() == 43,
        web_flow_id(random).len() == 43,
        all_chars(
            web_verifier(random),
            |c: char|
                'a' <= c <= 'z' || 'A' <= c <= 'Z' || '0' <= c <= '9' || c == '-' || c == '_',
        ),
        web_verifier(random) == web_flow_id(random) ==> random.subrange(0, 32) == random.subrange(
            32,
            64,
        ),
{
    let bytes = random.subrange(32, 64);
    assert forall|i: int| 0 <= i < web_verifier(random).len() implies {
        let c = #[trigger] web_verifier(random)[i];
        'a' <= c <= 'z' || 'A' <= c <= 'Z' || '0' <= c <= '9' || c == '-' || c == '_'
    } by {
        assert(web_verifier(random)[i] == base64_letter(sextet(bytes, i), true));
        lemma_sextet_range(bytes, i);
    }
    if web_verifier(random) == web_flow_id(random) {
        law_base64_url_is_injective(random.subrange(0, 32), bytes);
    }
}

/// Players return to the path of the callback, below the address at which the service is reached,
/// whether that is written with a slash at its end or without.
pub proof fn law_callback_stands_below_the_base(base: Seq<char>)
    ensures
        "/auth/taptap/web/callback"@.is_suffix_of(callback_url(base)),
        callback_url(base.push('/')) == callback_url(base),
        base.len() > 0 && base.last() != '/' ==> callback_url(base) == base
            + "/auth/taptap/web/callback"@,
{
    assert(base.push('/').drop_last() =~= base);
    assert(callback_url(base).subrange(
        callback_url(base).len() - "/auth/taptap/web/callback"@.len(),
        callback_url(base).len() as int,
    ) =~= "/auth/taptap/web/callback"@);
}

/// A login that has expired is answered as gone, and is gone from then on.
pub proof fn law_expired_login_is_gone(
    table: WebTable,
    config: ConfigView,
    tap: TapClient,
    flow_id: Seq<char>,
    first: WebCallbackView,
    now: u128,
    second: WebCallbackView,
    later: u128,
)
    requires
        table.contains_key(flow_id),
        table[flow_id] is Some,
        !table[flow_id]->0.finished,
        now >= table[flow_id]->0.expires_at,
        brings_code(first, flow_id),
        brings_code(second, flow_id),
    ensures
        ({
            let (left, start) = web_called(table, config, tap, first, now);
            &&& start matches CallbackStartView::Answer(page)
            &&& page.status == Status::Gone
            &&& !left.contains_key(flow_id)
            &&& web_called(left, config, tap, second, later).1 matches CallbackStartView::Answer(
                again,
            )
            &&& again.status == Status::NotFound
        }),
{
}

/// A callback leaves every login as it was but the one it names, and one that tells of an error, or
/// lacks the code or the name, leaves that one too.
pub proof fn law_callback_leaves_other_logins_alone(
    table: WebTable,
    config: ConfigView,
    tap: TapClient,
    query: WebCallbackView,
    now: u128,
    other: Seq<char>,
)
    requires
        !brings_code(query, other),
    ensures
        ({
            let left = web_called(table, config, tap, query, now).0;
            &&& left.contains_key(other) == table.contains_key(other)
            &&& table.contains_key(other) ==> left[other] == table[other]
        }),
{
}

/// A login is complete when TapTap has answered with a profile and a session has been issued to it,
/// and only then the page of success is shown.
pub proof fn law_success_follows_the_profile(
    config: ConfigView,
    region: Region,
    reply: Result<ProfileView, TapErrorView>,
    clock: Option<u64>,
)
    ensures
        web_finished(config, region, reply, clock).1 <==> web_finished(
            config,
            region,
            reply,
            clock,
        ).0.status == Status::Success,
        web_finished(config, region, reply, clock).1 ==> {
            &&& reply matches Ok(user)
            &&& login_outcome(config.session_secret, region, user, clock) matches Ok(login)
            &&& login.user == user
            &&& web_finished(config, region, reply, clock).0.html == success_page_text(
                config.public_base_path,
                login,
            )
        },
{
}

/// Two logins that are started with different random bytes go by different names.
pub proof fn law_logins_have_names_of_their_own(a: Seq<u8>, b: Seq<u8>)
    requires
        a.len() == 64,
        b.len() == 64,
        a.subrange(0, 32) != b.subrange(0, 32),
    ensures
        web_flow_id(a) != web_flow_id(b),
{
    if web_flow_id(a) == web_flow_id(b) {
        law_base64_url_is_injective(a.subrange(0, 32), b.subrange(0, 32));
    }
}

/// What is answered when a login is started tells of the code verifier no more than its challenge:
/// it is the same for any other verifier with that challenge.
pub proof fn law_verifier_stays_in_the_service(
    table: WebTable,
    config: ConfigView,
    region: Region,
    random: Seq<u8>,
    other: Seq<u8>,
    now: u128,
)
    requires
        web_flow_id(other) == web_flow_id(random),
        code_challenge(web_verifier(other)) == code_challenge(web_verifier(random)),
    ensures
        web_opened(table, config, region, Some(random), now).1 == web_opened(
            table,
            config,
            region,
            Some(other),
            now,
        ).1,
{
}

/// How a login in the browser is started: it needs an address to return to, a client in the region and
/// random bytes, in this order.
pub proof fn law_start_is_refused(
    table: WebTable,
    config: ConfigView,
    region: Region,
    random: Option<Seq<u8>>,
    now: u128,
)
    ensures
        ({
            let (after, answer) = web_opened(table, config, region, random, now);
            let base = config.public_base_url is Some;
            let client = config.client(region) is Some;
            &&& !base || !client || random is None ==> after == table
            &&& !base ==> refused_with(answer, 400, "web_login_not_configured"@)
            &&& base && !client ==> refused_with(answer, 400, "region_not_configured"@)
            &&& base && client && random is None ==> refused_with(answer, 500, "random_error"@)
        }),
{
}

/// A login in the browser that is started leads to the page of TapTap, with the client ID, the address
/// to return to, the name of the login and the challenge of its verifier; and it is in the table for ten
/// minutes, next to those that were open before. Slashes at the end of the base address do not count.
pub proof fn law_start_leads_to_taptap(
    table: WebTable,
    config: ConfigView,
    region: Region,
    base: Seq<char>,
    run: Seq<char>,
    random: Seq<u8>,
    now: u128,
    other: Seq<char>,
)
    requires
        now <= LATEST,
        random.len() == 64,
        config.public_base_url == Some(base + run),
        slashes(run),
        base.len() > 0 ==> base.last() as int != 0x2f,
        config.client(region) is Some,
    ensures
        ({
            let (after, answer) = web_opened(table, config, region, Some(random), now);
            let id = base64_url(random.subrange(0, 32));
            let verifier = base64_url(random.subrange(32, 64));
            let challenge = base64_url(sha256_of(encode_utf8(verifier)));
            let back = base + "/auth/taptap/web/callback"@;
            let kept = table.contains_key(other) && (table[other] is None || (
            table[other]->0.expires_at > now && !table[other]->0.finished));
            if cleared::<WebFlow>(table, now).len() < 10_000 {
                &&& answer matches Ok(start)
                &&& start.expires_in == 600
                &&& start.authorize_url == "https://"@ + match region {
                    Region::Cn => "accounts.taptap.cn"@,
                    Region::Global => "www.taptapauth.com"@,
                } + "/authorize"@ + "?"@ + form_query(
                    seq![
                        ("client_id"@, config.client(region)->0),
                        ("response_type"@, "code"@),
                        ("redirect_uri"@, back),
                        ("state"@, id),
                        ("code_challenge"@, challenge),
                        ("code_challenge_method"@, "S256"@),
                        ("scope"@, "public_profile"@),
                    ],
                )
                &&& after.contains_key(id)
                &&& after[id] matches Some(flow)
                &&& flow.region == region
                &&& flow.code_verifier == verifier
                &&& flow.redirect_uri == back
                &&& flow.expires_at == now + 600_000_000_000
                &&& !flow.finished
                &&& other != id ==> (after.contains_key(other) <==> kept)
                &&& other != id && kept ==> after[other] == table[other]
            } else {
                &&& refused_with(answer, 503, "too_many_flows"@)
                &&& after.contains_key(other) <==> kept
                &&& kept ==> after[other] == table[other]
            }
        }),
{
    lemma_trim_end_slashes(base, run);
    lemma_authorize_text(region);
}

proof fn lemma_trim_end_slashes(base: Seq<char>, run: Seq<char>)
    requires
        slashes(run),
        base.len() > 0 ==> base.last() as int != 0x2f,
    ensures
        trim_end(base + run, |c: char| slash(c)) == base,
    decreases run.len(),
{
    let p = |c: char| slash(c);
    if run.len() == 0 {
        assert(base + run =~= base);
        assert(base.len() > 0 ==> !p(base.last()));
    } else {
        assert((base + run).last() == run[run.len() - 1]);
        assert((base + run).drop_last() =~= base + run.drop_last());
        lemma_trim_end_slashes(base, run.drop_last());
    }
}

/// Whether a page has a status and tells of a failure.
pub open spec fn tells(page: PageView, number: u16, base_path: Seq<char>, detail: Seq<char>) -> bool {
    page.status.number() == number && page.html == error_page_text(base_path, detail)
}

/// How a callback is answered: an error of TapTap is shown; a callback without a code or a name is
/// incomplete; an unknown login is not found, a used one neither; an expired one is gone; one whose
/// region has lost its client is refused and used up; and an open one is used up and exchanges the code
/// at TapTap, with its verifier and the address it returned to.
pub proof fn law_callback_is_answered(
    table: WebTable,
    config: ConfigView,
    tap: TapClient,
    query: WebCallbackView,
    now: u128,
)
    ensures
        ({
            let (after, start) = web_called(table, config, tap, query, now);
            let path = config.public_base_path;
            if query.error is Some {
                after == table && start is Answer && tells(
                    start->Answer_0,
                    400,
                    path,
                    "TapTap 返回错误："@ + query.error->0,
                )
            } else if query.code is None || query.state is None {
                after == table && start is Answer && tells(
                    start->Answer_0,
                    400,
                    path,
                    "回调参数不完整"@,
                )
            } else if !table.contains_key(query.state->0) {
                after == table && start is Answer && tells(
                    start->Answer_0,
                    404,
                    path,
                    "登录流程不存在或已过期，请重新发起"@,
                )
            } else if table[query.state->0] is None {
                after == table && start is Wait && tells(
                    start->Wait_0,
                    404,
                    path,
                    "登录流程已被使用，请重新发起"@,
                )
            } else {
                let id = query.state->0;
                let flow = table[id]->0;
                if flow.finished {
                    after == table && start is Answer && tells(
                        start->Answer_0,
                        404,
                        path,
                        "登录流程已被使用，请重新发起"@,
                    )
                } else if flow.expires_at <= now {
                    &&& after == table.remove(id)
                    &&& start is Answer
                    &&& tells(start->Answer_0, 410, path, "登录流程已过期，请重新发起"@)
                } else if config.client(flow.region) is None {
                    &&& start is Answer
                    &&& tells(start->Answer_0, 400, path, "该区域未配置"@)
                    &&& after == table.insert(id, after[id])
                    &&& after[id] matches Some(used)
                    &&& used.finished
                    &&& used.region == flow.region
                    &&& used.code_verifier == flow.code_verifier
                    &&& used.redirect_uri == flow.redirect_uri
                    &&& used.expires_at == flow.expires_at
                } else {
                    &&& after == table.insert(id, None)
                    &&& start matches CallbackStartView::Ask(exchange, request)
                    &&& request == exchange_request(
                        tap.accounts_at(flow.region),
                        config.client(flow.region)->0,
                        query.code->0,
                        flow.redirect_uri,
                        flow.code_verifier,
                    )
                    &&& exchange.flow_id == id
                    &&& exchange.client_id == config.client(flow.region)->0
                    &&& exchange.flow.region == flow.region
                    &&& exchange.flow.code_verifier == flow.code_verifier
                    &&& exchange.flow.redirect_uri == flow.redirect_uri
                    &&& exchange.flow.expires_at == flow.expires_at
                    &&& exchange.flow.finished
                    &&& !exchange.complete
                }
            }
        }),
{
}

/// With the credential that TapTap handed out the detailed profile is asked for at the Open API of the
/// region; where no request can be made, a page tells so.
pub proof fn law_exchanged_credential_asks_for_the_profile(
    config: ConfigView,
    region: Region,
    client_id: Seq<char>,
    token: AccessTokenView,
    next: CallbackNextView,
)
    requires
        exchange_accepted(config, region.open_text(), client_id, token, next),
    ensures
        next matches CallbackNextView::Ask(request) ==> request.url == asked_url(
            region,
            client_id,
            true,
        ) && ("MAC id=\""@ + token.kid + seq!['"']).is_prefix_of(request.authorization),
        next matches CallbackNextView::Answer(page) ==> (!usable_credential(token) && tells(
            page,
            401,
            config.public_base_path,
            "获取用户信息失败，请重试"@,
        )) || tells(page, 502, config.public_base_path, "获取用户信息失败，请重试"@),
        !usable_credential(token) ==> next is Answer,
{
    let asked = choose|asked: Result<SignedRequestView, TapErrorView>|
        #[trigger] profile_possible(region.open_text(), client_id, token, true, asked) && next
            == ask_or_page(config, asked);
    let outcome = asked_or_refused(asked);
    assert(profile_asked(region.open_text(), client_id, token, true, outcome));
    law_profile_is_asked_for_the_client(region, client_id, token, true, outcome);
}

/// How a login in the browser ends: with the page that hands over the session that was issued for the
/// profile that TapTap answered, and else with a page that tells what failed.
pub proof fn law_browser_login_ends(
    config: ConfigView,
    region: Region,
    user: ProfileView,
    e: TapErrorView,
    clock: Option<u64>,
)
    ensures
        ({
            let (page, complete) = web_finished(config, region, Ok(user), clock);
            match login_outcome(config.session_secret, region, user, clock) {
                Ok(login) => complete && page.status.number() == 200 && page.html
                    == success_page_text(config.public_base_path, login),
                Err(refusal) => !complete && page.status == refusal.status && page.html
                    == error_page_text(config.public_base_path, "建立游戏会话失败，请重试"@),
            }
        }),
        ({
            let (page, complete) = web_finished(config, region, Err(e), clock);
            &&& !complete
            &&& page.status == tap_refusal(e).status
            &&& page.html == error_page_text(
                config.public_base_path,
                "获取用户信息失败，请重试"@,
            )
        }),
{
}

/// A page of failure has the status it is given and tells the detail it is given.
pub proof fn law_failure_is_told(config: ConfigView, status: Status, detail: Seq<char>)
    ensures
        failure(config, status, detail).status == status,
        failure(config, status, detail).html == error_page_text(config.public_base_path, detail),
{
}

/// When the work on a login ends, a complete one is gone and any other is back as it has become, if its
/// slot is still there; the others stay as they are.
pub proof fn law_exchange_ends(table: WebTable, exchange: WebExchangeView, other: Seq<char>)
    ensures
        ({
            let after = web_ended(table, exchange);
            &&& exchange.complete ==> !after.contains_key(exchange.flow_id)
            &&& !exchange.complete && table.contains_key(exchange.flow_id) ==> after.contains_key(
                exchange.flow_id,
            ) && after[exchange.flow_id] == Some(exchange.flow)
            &&& !table.contains_key(exchange.flow_id) ==> after =~= table
            &&& other != exchange.flow_id ==> (after.contains_key(other) <==> table.contains_key(
                other,
            ))
            &&& other != exchange.flow_id && table.contains_key(other) ==> after[other] == table[other]
        }),
{
}

/// Logins in the browser and what is to be done about them stand for the values of all their fields.
pub proof fn law_browser_logins_stand_for_their_fields(
    flow: WebFlow,
    query: WebCallbackQuery,
    page: Page,
    exchange: WebExchange,
    form: FormRequest,
    signed: SignedRequest,
)
    ensures
        flow@.region == flow.region,
        flow@.code_verifier == flow.code_verifier@,
        flow@.redirect_uri == flow.redirect_uri@,
        flow@.expires_at == flow.expires_at,
        flow@.finished == flow.finished,
        WebFlow::ends_at(flow@) == flow.expires_at,
        WebFlow::is_used(flow@) == flow.finished,
        query@.code == match query.code {
            Some(text) => Some(text@),
            None => None,
        },
        query@.state == match query.state {
            Some(text) => Some(text@),
            None => None,
        },
        query@.error == match query.error {
            Some(text) => Some(text@),
            None => None,
        },
        page@.status == page.status,
        page@.html == page.html@,
        exchange@.flow_id == exchange.flow_id@,
        exchange@.client_id == exchange.client_id@,
        exchange@.flow == exchange.flow@,
        exchange@.complete == exchange.complete,
        CallbackStart::Answer(page)@ == CallbackStartView::Answer(page@),
        CallbackStart::Wait(page)@ == CallbackStartView::Wait(page@),
        CallbackStart::Ask(exchange, form)@ == CallbackStartView::Ask(exchange@, form@),
        CallbackNext::Answer(page)@ == CallbackNextView::Answer(page@),
        CallbackNext::Ask(signed)@ == CallbackNextView::Ask(signed@),
{
}

/// The session that a page hands over is taken by this service: the token that the page shows, borne
/// within the day, stands for the player that TapTap answered, and the page shows that player. A service
/// whose secret signs differently refuses it.
pub proof fn law_shown_session_is_accepted(
    config: ConfigView,
    region: Region,
    user: ProfileView,
    page: PageView,
    shown: LoginView,
    issued: u64,
    now: u64,
)
    requires
        page_hands_over(config, region, Ok(user), page, Some(issued)),
        page.html == success_page_text(config.public_base_path, shown),
        60 <= now,
        issued <= now < issued + 86400 <= u64::MAX,
    ensures
        shown.region == region,
        shown.user.openid == user.openid,
        shown.user.name == user.name,
        shown.user.avatar == user.avatar,
        ({
            let header = Some("Bearer "@ + shown.session_token);
            &&& me_outcome(header, config.session_secret, now, Some(now)) matches Ok(claims)
            &&& claims.iss == "taptap-rback"@
            &&& claims.sub == user.openid
            &&& claims.region == region
            &&& claims.iat == issued
            &&& claims.exp == issued + 86400
            &&& forall|other: Seq<u8>|
                hmac_sha256_of(other, encode_utf8(signed_part(shown.session_token))) != hmac_sha256_of(
                    config.session_secret,
                    encode_utf8(signed_part(shown.session_token)),
                ) ==> refused_with(
                    #[trigger] me_outcome(header, other, now, Some(now)),
                    401,
                    "invalid_session"@,
                )
        }),
{
    let login = choose|login: LoginView|
        {
            &&& page.html == #[trigger] success_page_text(config.public_base_path, login)
            &&& Ok::<ProfileView, TapErrorView>(user) == Ok::<ProfileView, TapErrorView>(login.user)
            &&& login.region == region
            &&& login.expires_in == 86400
            &&& login_holds(config.session_secret, Ok(login), Some(issued))
        };
    law_success_page_tells_the_login(config.public_base_path, login, shown);
}

} // verus!
