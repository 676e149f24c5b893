//! Login with a device code: a player scans a QR code and confirms, while the service asks TapTap
//! whether they have.

use vstd::prelude::*;
use vstd::utf8::encode_utf8;

use crate::api::ApiError;
use crate::api::ApiErrorView;
use crate::api::DeviceStartResponse;
use crate::api::DeviceStartView;
use crate::api::LoginView;
use crate::api::PollResponse;
use crate::api::PollView;
use crate::api::Status;
use crate::api::api_outcome;
use crate::api::error;
use crate::api::refusal;
use crate::api::refused_with;
use crate::api::tap_error;
use crate::api::tap_refusal;
use crate::config::Config;
use crate::config::ConfigView;
use crate::crypto::hmac_sha256_of;
use crate::crypto::random_bytes;
use crate::crypto::unix_time;
use crate::encoding::base64_padded;
use crate::encoding::base64_url;
use crate::encoding::encode_standard;
use crate::encoding::encode_url_safe;
use crate::flows::Flow;
use crate::flows::FlowTable;
use crate::flows::LATEST;
use crate::flows::MAX_FLOWS;
use crate::flows::NANOS;
use crate::flows::cleared;
use crate::json::json_quoted;
use crate::jwt::signed_part;
use crate::jwt::signed_token;
use crate::qr::qr_image;
use crate::qr::render_qr;
use crate::session::ask_profile;
use crate::session::asked_url;
use crate::session::finish_login_at;
use crate::session::finished_login;
use crate::session::law_profile_is_asked_for_the_client;
use crate::session::law_session_is_issued;
use crate::session::login_holds;
use crate::session::login_owed;
use crate::session::me_outcome;
use crate::session::profile_asked;
use crate::session::profile_reply;
use crate::session::token_holds;
use crate::session::token_is_bound;
use crate::taptap::AccessToken;
use crate::taptap::AccessTokenView;
use crate::taptap::DeviceCode;
use crate::taptap::DeviceCodeView;
use crate::taptap::FormRequest;
use crate::taptap::FormRequestView;
use crate::taptap::Profile;
use crate::taptap::ProfileView;
use crate::taptap::Region;
use crate::taptap::SignedRequest;
use crate::taptap::SignedRequestView;
use crate::taptap::TapClient;
use crate::taptap::TapError;
use crate::taptap::TapErrorView;
use crate::taptap::device_code_request;
use crate::taptap::device_token_request;
use crate::taptap::optional_bytes;
use crate::taptap::usable_credential;
use crate::text::decimal_digits;
use crate::text::join;
use crate::text::optional_text;
use crate::text::same_text;

verus! {

/// The least width and height of a QR code, in pixels.
pub const QR_SIZE: u32 = 320;

/// By how many seconds the interval grows when TapTap asks to slow down.
pub const SLOW_DOWN_SECONDS: u64 = 5;

/// A login with a device code that has been started.
pub struct DeviceFlow {
    pub region: Region,
    pub device_code: String,
    /// The moment at which the device code expires.
    pub expires_at: u128,
    /// How many seconds have to pass between two questions to TapTap.
    pub interval: u64,
    /// The moment from which on TapTap may be asked again.
    pub next_poll_at: u128,
    pub finished: bool,
}

/// What a `DeviceFlow` stands for.
pub struct DeviceFlowView {
    pub region: Region,
    pub device_code: Seq<char>,
    pub expires_at: u128,
    pub interval: u64,
    pub next_poll_at: u128,
    pub finished: bool,
}

impl View for DeviceFlow {
    type V = DeviceFlowView;

    open spec fn view(&self) -> DeviceFlowView {
        DeviceFlowView {
            region: self.region,
            device_code: self.device_code@,
            expires_at: self.expires_at,
            interval: self.interval,
            next_poll_at: self.next_poll_at,
            finished: self.finished,
        }
    }
}

impl Flow for DeviceFlow {
    open spec fn ends_at(flow: DeviceFlowView) -> u128 {
        flow.expires_at
    }

    open spec fn is_used(flow: DeviceFlowView) -> bool {
        flow.finished
    }

    fn expires_at(&self) -> (res: u128) {
        self.expires_at
    }

    fn finished(&self) -> (res: bool) {
        self.finished
    }
}

/// The logins with a device code by their names.
pub type DeviceTable = Map<Seq<char>, Option<DeviceFlowView>>;

/// An answer to a poll.
pub struct PollReply {
    pub status: Status,
    pub body: PollResponse,
}

/// What a `PollReply` stands for.
pub struct PollReplyView {
    pub status: Status,
    pub body: PollView,
}

impl View for PollReply {
    type V = PollReplyView;

    open spec fn view(&self) -> PollReplyView {
        PollReplyView { status: self.status, body: self.body@ }
    }
}

/// A login taken out of its slot to ask TapTap about it.
pub struct DevicePoll {
    pub flow_id: String,
    pub client_id: String,
    pub flow: DeviceFlow,
}

/// What a `DevicePoll` stands for.
pub struct DevicePollView {
    pub flow_id: Seq<char>,
    pub client_id: Seq<char>,
    pub flow: DeviceFlowView,
}

impl View for DevicePoll {
    type V = DevicePollView;

    open spec fn view(&self) -> DevicePollView {
        DevicePollView {
            flow_id: self.flow_id@,
            client_id: self.client_id@,
            flow: self.flow@,
        }
    }
}

/// What is to be done on a poll.
pub enum PollStart {
    /// Answer it.
    Answer(Result<PollReply, ApiError>),
    /// Wait until whoever is working on the login is done, and begin again.
    Busy,
    /// Ask TapTap for the credential.
    Ask(DevicePoll, FormRequest),
}

/// What a `PollStart` stands for.
pub enum PollStartView {
    Answer(Result<PollReplyView, ApiErrorView>),
    Busy,
    Ask(DevicePollView, FormRequestView),
}

impl View for PollStart {
    type V = PollStartView;

    open spec fn view(&self) -> PollStartView {
        match self {
            PollStart::Answer(answer) => PollStartView::Answer(api_outcome(*answer)),
            PollStart::Busy => PollStartView::Busy,
            PollStart::Ask(poll, request) => PollStartView::Ask(poll@, request@),
        }
    }
}

/// What is to be done once TapTap has answered the request for the credential.
pub enum PollNext {
    /// Answer the poll.
    Answer(Result<PollReply, ApiError>),
    /// Ask TapTap for the profile.
    Ask(SignedRequest),
}

/// What a `PollNext` stands for.
pub enum PollNextView {
    Answer(Result<PollReplyView, ApiErrorView>),
    Ask(SignedRequestView),
}

impl View for PollNext {
    type V = PollNextView;

    open spec fn view(&self) -> PollNextView {
        match self {
            PollNext::Answer(answer) => PollNextView::Answer(api_outcome(*answer)),
            PollNext::Ask(request) => PollNextView::Ask(request@),
        }
    }
}

/// The device code, or the error, that TapTap answered.
pub open spec fn code_reply(reply: Result<DeviceCode, TapError>) -> Result<
    DeviceCodeView,
    TapErrorView,
> {
    match reply {
        Ok(code) => Ok(code@),
        Err(e) => Err(e@),
    }
}

/// The credential, or the error, that TapTap answered.
pub open spec fn token_reply(reply: Result<AccessToken, TapError>) -> Result<
    AccessTokenView,
    TapErrorView,
> {
    match reply {
        Ok(token) => Ok(token@),
        Err(e) => Err(e@),
    }
}

/// The request that starts a login, or why there is none.
pub open spec fn device_start_outcome(
    config: ConfigView,
    accounts_host: Seq<char>,
    region: Region,
) -> Result<FormRequestView, ApiErrorView> {
    match config.client(region) {
        Some(client_id) => Ok(device_code_request(accounts_host, client_id)),
        None => Err(refusal(Status::BadRequest, "region_not_configured"@)),
    }
}

/// The QR code for the page that a device code leads to.
pub open spec fn code_image(reply: Result<DeviceCodeView, TapErrorView>) -> Option<Seq<char>> {
    match reply {
        Ok(code) => qr_image(encode_utf8(code.qrcode_url), QR_SIZE, QR_SIZE),
        Err(_) => None,
    }
}

/// A device code that can be used.
pub open spec fn usable_code(code: DeviceCodeView) -> bool {
    code.device_code.len() > 0 && code.qrcode_url.len() > 0 && code.expires_in > 0
}

/// The interval that a device code asks for, but no less than a second.
pub open spec fn code_interval(code: DeviceCodeView) -> u64 {
    if code.interval < 1 {
        1
    } else {
        code.interval
    }
}

/// A login that is started at the moment `now`.
pub open spec fn fresh_device_flow(
    region: Region,
    code: DeviceCodeView,
    now: u128,
) -> DeviceFlowView {
    DeviceFlowView {
        region,
        device_code: code.device_code,
        expires_at: (now + code.expires_in * NANOS) as u128,
        interval: code_interval(code),
        next_poll_at: now,
        finished: false,
    }
}

/// What becomes of the table, and what is answered, when TapTap has answered the request that starts
/// a login. `image` is the QR code and `random` the bytes to name the login after, if they can be
/// had.
pub open spec fn device_opened(
    table: DeviceTable,
    region: Region,
    reply: Result<DeviceCodeView, TapErrorView>,
    image: Option<Seq<char>>,
    random: Option<Seq<u8>>,
    now: u128,
) -> (DeviceTable, Result<DeviceStartView, ApiErrorView>) {
    match reply {
        Err(e) => (table, Err(tap_refusal(e))),
        Ok(code) => if !usable_code(code) {
            (table, Err(refusal(Status::BadGateway, "invalid_device_code"@)))
        } else if image is None {
            (table, Err(refusal(Status::BadGateway, "invalid_qrcode_url"@)))
        } else if random is None {
            (table, Err(refusal(Status::InternalServerError, "random_error"@)))
        } else {
            let open = cleared::<DeviceFlow>(table, now);
            if open.len() >= MAX_FLOWS {
                (open, Err(refusal(Status::ServiceUnavailable, "too_many_flows"@)))
            } else {
                let flow_id = base64_url(random->0);
                (
                    open.insert(flow_id, Some(fresh_device_flow(region, code, now))),
                    Ok(
                        DeviceStartView {
                            flow_id,
                            qrcode_url: code.qrcode_url,
                            qr_image: "data:image/svg+xml;base64,"@ + base64_padded(
                                encode_utf8(image->0),
                            ),
                            expires_in: code.expires_in,
                            interval: code_interval(code),
                        },
                    ),
                )
            }
        },
    }
}

/// The answer that a login is not confirmed yet.
pub open spec fn pending(retry_after: u64) -> Result<PollReplyView, ApiErrorView> {
    Ok(PollReplyView { status: Status::Accepted, body: PollView::Pending { retry_after } })
}

/// How many whole seconds there are from `now` until `next`, but no less than one.
pub open spec fn seconds_until(next: u128, now: u128) -> u64 {
    let whole = (next - now) / NANOS as int;
    if whole < 1 {
        1
    } else if whole > u64::MAX {
        u64::MAX
    } else {
        whole as u64
    }
}

/// The login after TapTap has been asked about it at the moment `now`.
pub open spec fn asked_flow(flow: DeviceFlowView, now: u128) -> DeviceFlowView {
    DeviceFlowView { next_poll_at: (now + flow.interval * NANOS) as u128, ..flow }
}

/// What becomes of the table, and what is to be done, on a poll at the moment `now`.
pub open spec fn poll_started(
    table: DeviceTable,
    config: ConfigView,
    tap: TapClient,
    flow_id: Seq<char>,
    now: u128,
) -> (DeviceTable, PollStartView) {
    if !table.contains_key(flow_id) {
        (table, PollStartView::Answer(Err(refusal(Status::NotFound, "flow_not_found"@))))
    } else {
        match table[flow_id] {
            None => (table, PollStartView::Busy),
            Some(flow) => if flow.finished {
                (table, PollStartView::Answer(Err(refusal(Status::NotFound, "flow_not_found"@))))
            } else if now >= flow.expires_at {
                (
                    table.remove(flow_id),
                    PollStartView::Answer(Err(refusal(Status::Gone, "flow_expired"@))),
                )
            } else if now < flow.next_poll_at {
                (table, PollStartView::Answer(pending(seconds_until(flow.next_poll_at, now))))
            } else {
                match config.client(flow.region) {
                    None => (
                        table,
                        PollStartView::Answer(
                            Err(refusal(Status::BadRequest, "region_not_configured"@)),
                        ),
                    ),
                    Some(client_id) => (
                        table.insert(flow_id, None),
                        PollStartView::Ask(
                            DevicePollView { flow_id, client_id, flow: asked_flow(flow, now) },
                            device_token_request(
                                tap.accounts_at(flow.region),
                                client_id,
                                flow.device_code,
                            ),
                        ),
                    ),
                }
            },
        }
    }
}

/// Whether TapTap says that the player has not confirmed yet.
pub open spec fn says_pending(e: TapErrorView) -> bool {
    e matches TapErrorView::Rejected(code) && (code == "authorization_pending"@ || code
        == "authorization_waiting"@)
}

/// Whether TapTap asks to be asked less often.
pub open spec fn says_slow_down(e: TapErrorView) -> bool {
    e == TapErrorView::Rejected("slow_down"@)
}

/// The login after TapTap asked to slow down at the moment `now`.
pub open spec fn slowed_flow(flow: DeviceFlowView, now: u128) -> DeviceFlowView {
    let interval = (flow.interval + SLOW_DOWN_SECONDS) as u64;
    DeviceFlowView { interval, next_poll_at: (now + interval * NANOS) as u128, ..flow }
}

/// The login, and the answer to the poll, after TapTap has refused the credential.
pub open spec fn token_refused(flow: DeviceFlowView, e: TapErrorView, now: u128) -> (
    DeviceFlowView,
    Result<PollReplyView, ApiErrorView>,
) {
    if says_pending(e) {
        (flow, pending(flow.interval))
    } else if says_slow_down(e) {
        (slowed_flow(flow, now), pending(slowed_flow(flow, now).interval))
    } else {
        (flow, Err(tap_refusal(e)))
    }
}

/// What is to be done when the profile has been asked for, or why it has not.
pub open spec fn ask_or_answer(asked: Result<SignedRequestView, ApiErrorView>) -> PollNextView {
    match asked {
        Ok(request) => PollNextView::Ask(request),
        Err(e) => PollNextView::Answer(Err(e)),
    }
}

/// Whether `next` can be what is to be done after TapTap has handed out the credential `token`,
/// whatever the clock and the source of randomness answer.
pub open spec fn token_accepted(
    open_host: Seq<char>,
    client_id: Seq<char>,
    token: AccessTokenView,
    next: PollNextView,
) -> bool {
    exists|asked: Result<SignedRequestView, ApiErrorView>|
        #[trigger] profile_asked(open_host, client_id, token, true, asked) && next
            == ask_or_answer(asked)
}

/// The login after it is finished or not.
pub open spec fn after_login(
    flow: DeviceFlowView,
    login: Result<LoginView, ApiErrorView>,
) -> DeviceFlowView {
    DeviceFlowView { finished: flow.finished || login is Ok, ..flow }
}

/// The answer to a poll that a login, or its failure, amounts to.
pub open spec fn login_answer(login: Result<LoginView, ApiErrorView>) -> Result<
    PollReplyView,
    ApiErrorView,
> {
    match login {
        Ok(login) => Ok(
            PollReplyView { status: Status::Success, body: PollView::Complete { login } },
        ),
        Err(e) => Err(e),
    }
}

/// Whether an answer hands over a session: it is complete, and the login in it is for the profile that
/// TapTap answered and the region, lasts a day, and bears a token that stands for the player and is
/// bound to the secret.
pub open spec fn handed_over(
    secret: Seq<u8>,
    region: Region,
    reply: Result<ProfileView, TapErrorView>,
    answer: PollReplyView,
    clock: Option<u64>,
) -> bool {
    &&& answer.status == Status::Success
    &&& answer.body matches PollView::Complete { login }
    &&& reply == Ok::<ProfileView, TapErrorView>(login.user)
    &&& login.region == region
    &&& login.expires_in == 86400
    &&& clock is Some
    &&& token_holds(login.session_token, secret, login.user.openid, region, clock->0)
    &&& token_is_bound(login.session_token, secret)
}

/// What becomes of the table when the work on a login ends: a finished one is gone, any other returns
/// to its slot.
pub open spec fn poll_ended(table: DeviceTable, poll: DevicePollView) -> DeviceTable {
    if poll.flow.finished {
        table.remove(poll.flow_id)
    } else if table.contains_key(poll.flow_id) {
        table.insert(poll.flow_id, Some(poll.flow))
    } else {
        table
    }
}

/// The request that starts a login.
pub fn device_start(config: &Config, tap: &TapClient, region: Region) -> (res: Result<
    FormRequest,
    ApiError,
>)
    ensures
        api_outcome(res) == device_start_outcome(config@, tap.accounts_at(region), region),
{
    match config.client_id(region) {
        Some(client_id) => Ok(tap.device_code(region, client_id)),
        None => Err(error(Status::BadRequest, "region_not_configured")),
    }
}

/// Opens a login with TapTap's answer, the QR code `image` and the random bytes `random`.
pub fn open_device_flow(
    flows: &mut FlowTable<DeviceFlow>,
    region: Region,
    reply: Result<DeviceCode, TapError>,
    image: Option<String>,
    random: Option<Vec<u8>>,
    now: u128,
) -> (res: Result<DeviceStartResponse, ApiError>)
    requires
        old(flows).wf(),
        now <= LATEST,
    ensures
        final(flows).wf(),
        (final(flows)@, api_outcome(res)) == device_opened(
            old(flows)@,
            region,
            code_reply(reply),
            optional_text(image),
            optional_bytes(random),
            now,
        ),
{
    let code = match reply {
        Ok(code) => code,
        Err(e) => return Err(tap_error(e)),
    };
    if code.device_code.as_str().is_empty() || code.qrcode_url.as_str().is_empty()
        || code.expires_in == 0 {
        return Err(error(Status::BadGateway, "invalid_device_code"));
    }
    let image = match image {
        Some(image) => image,
        None => return Err(error(Status::BadGateway, "invalid_qrcode_url")),
    };
    let random = match random {
        Some(random) => random,
        None => return Err(error(Status::InternalServerError, "random_error")),
    };
    let qr_image = join(
        "data:image/svg+xml;base64,",
        encode_standard(image.as_str().as_bytes()).as_str(),
    );
    let interval: u64 = if code.interval < 1 {
        1
    } else {
        code.interval
    };
    let flow_id = encode_url_safe(random.as_slice());
    flows.clear_stale(now);
    if flows.len() >= MAX_FLOWS {
        return Err(error(Status::ServiceUnavailable, "too_many_flows"));
    }
    let flow = DeviceFlow {
        region,
        device_code: code.device_code,
        expires_at: now + code.expires_in as u128 * NANOS,
        interval,
        next_poll_at: now,
        finished: false,
    };
    flows.insert(flow_id.clone(), flow);
    Ok(
        DeviceStartResponse {
            flow_id,
            qrcode_url: code.qrcode_url,
            qr_image,
            expires_in: code.expires_in,
            interval,
        },
    )
}

/// Opens a login with TapTap's answer, at the moment `now`.
pub fn device_started(
    flows: &mut FlowTable<DeviceFlow>,
    region: Region,
    reply: Result<DeviceCode, TapError>,
    now: u128,
) -> (res: Result<DeviceStartResponse, ApiError>)
    requires
        old(flows).wf(),
        now <= LATEST,
    ensures
        final(flows).wf(),
        exists|random: Option<Seq<u8>>|
            (random is Some ==> random->0.len() == 32) && (final(flows)@, api_outcome(res))
                == #[trigger] device_opened(
                old(flows)@,
                region,
                code_reply(reply),
                code_image(code_reply(reply)),
                random,
                now,
            ),
{
    let image = match &reply {
        Ok(code) => render_qr(code.qrcode_url.as_str().as_bytes(), QR_SIZE, QR_SIZE),
        Err(_) => None,
    };
    assert(optional_text(image) == code_image(code_reply(reply)));
    let random = random_bytes(32);
    open_device_flow(flows, region, reply, image, random, now)
}

/// How a login stands when a poll comes in.
enum Standing {
    Used,
    Expired,
    Early(u64),
    Due,
}

fn standing(flow: &DeviceFlow, now: u128) -> (res: Standing)
    ensures
        match res {
            Standing::Used => flow.finished,
            Standing::Expired => !flow.finished && now >= flow.expires_at,
            Standing::Early(wait) => !flow.finished && now < flow.expires_at && now
                < flow.next_poll_at && wait == seconds_until(flow.next_poll_at, now),
            Standing::Due => !flow.finished && now < flow.expires_at && now >= flow.next_poll_at,
        },
{
    if flow.finished {
        return Standing::Used;
    }
    if now >= flow.expires_at {
        return Standing::Expired;
    }
    if now < flow.next_poll_at {
        let whole: u128 = (flow.next_poll_at - now) / NANOS;
        let wait: u64 = if whole < 1 {
            1
        } else if whole > u64::MAX as u128 {
            u64::MAX
        } else {
            whole as u64
        };
        return Standing::Early(wait);
    }
    Standing::Due
}

/// Begins to answer a poll at the moment `now`.
pub fn device_poll(
    flows: &mut FlowTable<DeviceFlow>,
    config: &Config,
    tap: &TapClient,
    flow_id: &str,
    now: u128,
) -> (res: PollStart)
    requires
        old(flows).wf(),
        now <= LATEST,
    ensures
        final(flows).wf(),
        (final(flows)@, res@) == poll_started(old(flows)@, config@, *tap, flow_id@, now),
{
    let (standing, region) = match flows.get(flow_id) {
        None => return PollStart::Answer(Err(error(Status::NotFound, "flow_not_found"))),
        Some(None) => return PollStart::Busy,
        Some(Some(flow)) => (standing(flow, now), flow.region),
    };
    match standing {
        Standing::Used => PollStart::Answer(Err(error(Status::NotFound, "flow_not_found"))),
        Standing::Expired => {
            flows.remove(flow_id);
            PollStart::Answer(Err(error(Status::Gone, "flow_expired")))
        },
        Standing::Early(retry_after) => PollStart::Answer(
            Ok(PollReply { status: Status::Accepted, body: PollResponse::Pending { retry_after } }),
        ),
        Standing::Due => {
            let client_id = match config.client_id(region) {
                Some(client_id) => client_id.to_owned(),
                None => return PollStart::Answer(
                    Err(error(Status::BadRequest, "region_not_configured")),
                ),
            };
            match flows.take(flow_id) {
                Some(taken) => {
                    let mut flow = taken;
                    flow.next_poll_at = now + flow.interval as u128 * NANOS;
                    let request = tap.device_token(
                        region,
                        client_id.as_str(),
                        flow.device_code.as_str(),
                    );
                    PollStart::Ask(
                        DevicePoll { flow_id: flow_id.to_owned(), client_id, flow },
                        request,
                    )
                },
                None => PollStart::Busy,
            }
        },
    }
}

/// Goes on with a poll once TapTap has answered the request for the credential, at the moment `now`.
pub fn device_poll_token(
    tap: &TapClient,
    poll: &mut DevicePoll,
    reply: Result<AccessToken, TapError>,
    now: u128,
) -> (res: PollNext)
    requires
        tap.wf(),
        tap.fits(old(poll)@.flow.region, old(poll)@.client_id),
        now <= LATEST,
        token_reply(reply) matches Err(e) ==> (says_slow_down(e) ==> old(poll).flow.interval
            <= u64::MAX - SLOW_DOWN_SECONDS),
    ensures
        final(poll)@.flow_id == old(poll)@.flow_id,
        final(poll)@.client_id == old(poll)@.client_id,
        match token_reply(reply) {
            Err(e) => (final(poll)@.flow, res@) == (
                token_refused(old(poll)@.flow, e, now).0,
                PollNextView::Answer(token_refused(old(poll)@.flow, e, now).1),
            ),
            Ok(token) => final(poll)@.flow == old(poll)@.flow && token_accepted(
                tap.open_at(old(poll)@.flow.region),
                old(poll)@.client_id,
                token,
                res@,
            ),
        },
{
    let token = match reply {
        Ok(token) => token,
        Err(TapError::Rejected(code)) => {
            if same_text(code.as_str(), "authorization_pending") || same_text(
                code.as_str(),
                "authorization_waiting",
            ) {
                return PollNext::Answer(
                    Ok(
                        PollReply {
                            status: Status::Accepted,
                            body: PollResponse::Pending { retry_after: poll.flow.interval },
                        },
                    ),
                );
            }
            if same_text(code.as_str(), "slow_down") {
                poll.flow.interval = poll.flow.interval + SLOW_DOWN_SECONDS;
                poll.flow.next_poll_at = now + poll.flow.interval as u128 * NANOS;
                return PollNext::Answer(
                    Ok(
                        PollReply {
                            status: Status::Accepted,
                            body: PollResponse::Pending { retry_after: poll.flow.interval },
                        },
                    ),
                );
            }
            return PollNext::Answer(Err(tap_error(TapError::Rejected(code))));
        },
        Err(e) => return PollNext::Answer(Err(tap_error(e))),
    };
    let asked = ask_profile(tap, poll.flow.region, poll.client_id.as_str(), &token, true);
    let ghost view = api_outcome(asked);
    let res = match asked {
        Ok(request) => PollNext::Ask(request),
        Err(e) => PollNext::Answer(Err(e)),
    };
    assert(res@ == ask_or_answer(view));
    res
}

/// Answers a poll once TapTap has answered the request for the profile, when the clock shows
/// `clock`.
pub fn device_poll_profile_at(
    config: &Config,
    poll: &mut DevicePoll,
    reply: Result<Profile, TapError>,
    clock: Option<u64>,
) -> (res: Result<PollReply, ApiError>)
    ensures
        final(poll)@.flow_id == old(poll)@.flow_id,
        final(poll)@.client_id == old(poll)@.client_id,
        ({
            let login = finished_login(
                config@.session_secret,
                old(poll)@.flow.region,
                profile_reply(reply),
                clock,
            );
            &&& final(poll)@.flow == after_login(old(poll)@.flow, login)
            &&& api_outcome(res) == login_answer(login)
            &&& login_holds(config@.session_secret, login, clock)
            &&& login_owed(profile_reply(reply), clock) <==> res is Ok
        }),
        res matches Ok(answer) ==> handed_over(
            config@.session_secret,
            old(poll)@.flow.region,
            profile_reply(reply),
            answer@,
            clock,
        ),
{
    match finish_login_at(config, poll.flow.region, reply, clock) {
        Ok(login) => {
            poll.flow.finished = true;
            Ok(PollReply { status: Status::Success, body: PollResponse::Complete { login } })
        },
        Err(e) => Err(e),
    }
}

/// Answers a poll once TapTap has answered the request for the profile.
pub fn device_poll_profile(
    config: &Config,
    poll: &mut DevicePoll,
    reply: Result<Profile, TapError>,
) -> (res: Result<PollReply, ApiError>)
    ensures
        final(poll)@.flow_id == old(poll)@.flow_id,
        final(poll)@.client_id == old(poll)@.client_id,
        exists|clock: Option<u64>|
            {
                let login = #[trigger] finished_login(
                    config@.session_secret,
                    old(poll)@.flow.region,
                    profile_reply(reply),
                    clock,
                );
                &&& final(poll)@.flow == after_login(old(poll)@.flow, login)
                &&& api_outcome(res) == login_answer(login)
                &&& login_holds(config@.session_secret, login, clock)
                &&& login_owed(profile_reply(reply), clock) <==> res is Ok
                &&& res matches Ok(answer) ==> handed_over(
                    config@.session_secret,
                    old(poll)@.flow.region,
                    profile_reply(reply),
                    answer@,
                    clock,
                )
            },
{
    let clock: Option<u64> = unix_time();
    device_poll_profile_at(config, poll, reply, clock)
}

/// Ends the work on a login.
pub fn device_poll_end(flows: &mut FlowTable<DeviceFlow>, poll: DevicePoll)
    requires
        old(flows).wf(),
    ensures
        final(flows).wf(),
        final(flows)@ == poll_ended(old(flows)@, poll@),
{
    if poll.flow.finished {
        flows.remove(poll.flow_id.as_str());
    } else {
        flows.put_back(poll.flow_id.as_str(), poll.flow);
    }
}

/// TapTap is asked about a login only if it is neither used up nor expired, and not before the time
/// has come; and it is asked on behalf of the client for the login's region.
pub proof fn law_only_due_flows_are_asked(
    table: DeviceTable,
    config: ConfigView,
    tap: TapClient,
    flow_id: Seq<char>,
    now: u128,
)
    ensures
        poll_started(table, config, tap, flow_id, now).1 matches PollStartView::Ask(poll, request)
            ==> {
            &&& table.contains_key(flow_id)
            &&& table[flow_id] matches Some(flow)
            &&& !flow.finished
            &&& flow.next_poll_at <= now < flow.expires_at
            &&& config.client(flow.region) == Some(poll.client_id)
            &&& poll.flow == asked_flow(flow, now)
        },
{
}

/// A poll of one login leaves every other login as it was.
pub proof fn law_poll_leaves_other_flows_alone(
    table: DeviceTable,
    config: ConfigView,
    tap: TapClient,
    flow_id: Seq<char>,
    now: u128,
    poll: DevicePollView,
    other: Seq<char>,
)
    requires
        other != flow_id,
        poll.flow_id == flow_id,
    ensures
        ({
            let started = poll_started(table, config, tap, flow_id, now).0;
            &&& started.contains_key(other) == table.contains_key(other)
            &&& table.contains_key(other) ==> started[other] == table[other]
        }),
        ({
            let ended = poll_ended(table, poll);
            &&& ended.contains_key(other) == table.contains_key(other)
            &&& table.contains_key(other) ==> ended[other] == table[other]
        }),
{
}

/// While TapTap is being asked about a login, nobody else begins to, and the login is not cleared
/// away.
pub proof fn law_flow_is_asked_by_one_at_a_time(
    table: DeviceTable,
    config: ConfigView,
    tap: TapClient,
    flow_id: Seq<char>,
    now: u128,
    later: u128,
)
    requires
        poll_started(table, config, tap, flow_id, now).1 is Ask,
    ensures
        ({
            let started = poll_started(table, config, tap, flow_id, now).0;
            &&& poll_started(started, config, tap, flow_id, later) == (started, PollStartView::Busy)
            &&& cleared::<DeviceFlow>(started, later).contains_key(flow_id)
        }),
{
}

/// A login can be completed once: a poll that is answered with a session leaves no login behind, and
/// every later poll is answered that there is none.
pub proof fn law_flow_completes_once(
    table: DeviceTable,
    config: ConfigView,
    tap: TapClient,
    poll: DevicePollView,
    reply: Result<ProfileView, TapErrorView>,
    clock: Option<u64>,
    later: u128,
)
    requires
        login_answer(
            finished_login(config.session_secret, poll.flow.region, reply, clock),
        ) is Ok,
    ensures
        ({
            let login = finished_login(config.session_secret, poll.flow.region, reply, clock);
            let done = DevicePollView { flow: after_login(poll.flow, login), ..poll };
            let left = poll_ended(table, done);
            &&& !left.contains_key(poll.flow_id)
            &&& poll_started(left, config, tap, poll.flow_id, later) == (
                left,
                PollStartView::Answer(Err(refusal(Status::NotFound, "flow_not_found"@))),
            )
        }),
{
}

/// A login that has expired is answered as gone, and is gone from then on.
pub proof fn law_expired_flow_is_gone(
    table: DeviceTable,
    config: ConfigView,
    tap: TapClient,
    flow_id: Seq<char>,
    now: u128,
    later: u128,
)
    requires
        table.contains_key(flow_id),
        table[flow_id] is Some,
        !table[flow_id]->0.finished,
        now >= table[flow_id]->0.expires_at,
    ensures
        ({
            let (left, answer) = poll_started(table, config, tap, flow_id, now);
            &&& answer == PollStartView::Answer(Err(refusal(Status::Gone, "flow_expired"@)))
            &&& poll_started(left, config, tap, flow_id, later) == (
                left,
                PollStartView::Answer(Err(refusal(Status::NotFound, "flow_not_found"@))),
            )
        }),
{
}

/// Between two questions to TapTap about a login at least its interval passes, whatever TapTap
/// answered to the first.
pub proof fn law_questions_keep_the_interval(
    table: DeviceTable,
    config: ConfigView,
    tap: TapClient,
    flow_id: Seq<char>,
    first: u128,
    e: TapErrorView,
    answered: u128,
    second: u128,
)
    requires
        table.contains_key(flow_id),
        table[flow_id] is Some,
        first <= answered <= LATEST,
        table[flow_id]->0.interval <= u64::MAX - SLOW_DOWN_SECONDS,
        poll_started(table, config, tap, flow_id, first).1 is Ask,
    ensures
        ({
            let (taken, start) = poll_started(table, config, tap, flow_id, first);
            let poll = start->Ask_0;
            let back = DevicePollView { flow: token_refused(poll.flow, e, answered).0, ..poll };
            let left = poll_ended(taken, back);
            poll_started(left, config, tap, flow_id, second).1 is Ask ==> second >= first
                + table[flow_id]->0.interval * NANOS
        }),
{
    let flow = table[flow_id]->0;
    assert(flow.interval * NANOS <= u64::MAX * NANOS) by (nonlinear_arith)
        requires
            flow.interval <= u64::MAX,
    ;
    assert((flow.interval + SLOW_DOWN_SECONDS) * NANOS == flow.interval * NANOS + SLOW_DOWN_SECONDS
        * NANOS) by (nonlinear_arith);
}

/// Whoever is told to wait by TapTap's answer, and waits as long, is not told to wait again before
/// TapTap has been asked.
pub proof fn law_waiting_as_told_is_enough(
    table: DeviceTable,
    config: ConfigView,
    tap: TapClient,
    flow_id: Seq<char>,
    first: u128,
    e: TapErrorView,
    answered: u128,
    second: u128,
)
    requires
        table.contains_key(flow_id),
        table[flow_id] is Some,
        first <= answered <= LATEST,
        table[flow_id]->0.interval <= u64::MAX - SLOW_DOWN_SECONDS,
        poll_started(table, config, tap, flow_id, first).1 is Ask,
        says_pending(e) || says_slow_down(e),
        second < table[flow_id]->0.expires_at,
    ensures
        ({
            let (taken, start) = poll_started(table, config, tap, flow_id, first);
            let poll = start->Ask_0;
            let (flow, answer) = token_refused(poll.flow, e, answered);
            let left = poll_ended(taken, DevicePollView { flow, ..poll });
            &&& answer matches Ok(reply)
            &&& reply.body matches PollView::Pending { retry_after }
            &&& second >= answered + retry_after * NANOS ==> poll_started(
                left,
                config,
                tap,
                flow_id,
                second,
            ).1 is Ask
        }),
{
    let flow = table[flow_id]->0;
    assert(flow.interval * NANOS <= u64::MAX * NANOS) by (nonlinear_arith)
        requires
            flow.interval <= u64::MAX,
    ;
    assert((flow.interval + SLOW_DOWN_SECONDS) * NANOS == flow.interval * NANOS + SLOW_DOWN_SECONDS
        * NANOS) by (nonlinear_arith);
}

/// Whoever polls too early and waits as long as told is not too early again, if the time left is a
/// number of whole seconds or less than one. (Of anything else the answer drops the fraction.)
pub proof fn law_early_poll_waits_long_enough(next: u128, now: u128, later: u128)
    requires
        now < next,
        (next - now) % NANOS as int == 0 || next - now < NANOS,
        next - now <= u64::MAX * NANOS,
        later >= now + seconds_until(next, now) * NANOS,
    ensures
        later >= next,
{
    let gap = next - now;
    let whole = gap / NANOS as int;
    if gap >= NANOS {
        assert(gap == whole * NANOS) by (nonlinear_arith)
            requires
                gap % NANOS as int == 0,
                whole == gap / NANOS as int,
        ;
        assert(1 <= whole <= u64::MAX) by (nonlinear_arith)
            requires
                gap == whole * NANOS,
                NANOS <= gap <= u64::MAX * NANOS,
        ;
    }
}

/// A login begins with an interval of at least a second, and TapTap's answers never shorten it.
pub proof fn law_interval_never_shrinks(
    region: Region,
    code: DeviceCodeView,
    flow: DeviceFlowView,
    e: TapErrorView,
    now: u128,
)
    requires
        flow.interval <= u64::MAX - SLOW_DOWN_SECONDS,
    ensures
        fresh_device_flow(region, code, now).interval >= 1,
        token_refused(flow, e, now).0.interval >= flow.interval,
{
}

/// What is answered when a login is opened tells nothing of the device code: it is the same for any
/// other one.
pub proof fn law_device_code_stays_in_the_service(
    table: DeviceTable,
    region: Region,
    code: DeviceCodeView,
    other: Seq<char>,
    image: Option<Seq<char>>,
    random: Option<Seq<u8>>,
    now: u128,
)
    requires
        code.device_code.len() > 0,
        other.len() > 0,
    ensures
        device_opened(table, region, Ok(code), image, random, now).1 == device_opened(
            table,
            region,
            Ok(DeviceCodeView { device_code: other, ..code }),
            image,
            random,
            now,
        ).1,
{
}

/// A login with a device code begins with the request for one, on behalf of the client of the region.
pub proof fn law_start_asks_for_a_device_code(
    config: ConfigView,
    accounts_host: Seq<char>,
    region: Region,
)
    ensures
        config.client(region) is None ==> refused_with(
            device_start_outcome(config, accounts_host, region),
            400,
            "region_not_configured"@,
        ),
        config.client(region) matches Some(client_id) ==> device_start_outcome(
            config,
            accounts_host,
            region,
        ) == Ok::<FormRequestView, ApiErrorView>(device_code_request(accounts_host, client_id)),
{
}

/// A login is opened with a device code that can be used, a QR code and a name: it is in the table from
/// now on, as TapTap described it, next to those that were open before; and the answer shows the QR
/// code, the page behind it, and how long and how often to poll.
pub proof fn law_flow_is_opened(
    table: DeviceTable,
    region: Region,
    code: DeviceCodeView,
    image: Seq<char>,
    random: Seq<u8>,
    now: u128,
    other: Seq<char>,
)
    requires
        now <= LATEST,
        code.device_code.len() > 0,
        code.qrcode_url.len() > 0,
        code.expires_in > 0,
    ensures
        ({
            let (after, answer) = device_opened(
                table,
                region,
                Ok(code),
                Some(image),
                Some(random),
                now,
            );
            let id = base64_url(random);
            let interval = if code.interval == 0 {
                1
            } else {
                code.interval
            };
            let kept = table.contains_key(other) && (table[other] is None || (
            table[other]->0.expires_at > now && !table[other]->0.finished));
            if cleared::<DeviceFlow>(table, now).len() < 10_000 {
                &&& answer matches Ok(start)
                &&& start.flow_id == id
                &&& start.qrcode_url == code.qrcode_url
                &&& start.qr_image == "data:image/svg+xml;base64,"@ + base64_padded(
                    encode_utf8(image),
                )
                &&& start.expires_in == code.expires_in
                &&& start.interval == interval
                &&& after.contains_key(id)
                &&& after[id] matches Some(flow)
                &&& flow.region == region
                &&& flow.device_code == code.device_code
                &&& flow.expires_at == now + code.expires_in * 1_000_000_000
                &&& flow.interval == interval
                &&& flow.next_poll_at == now
                &&& !flow.finished
                &&& other != id ==> (after.contains_key(other) <==> kept)
                &&& other != id && kept ==> after[other] == table[other]
            } else {
                &&& refused_with(answer, 503, "too_many_flows"@)
                &&& after.contains_key(other) <==> kept
                &&& kept ==> after[other] == table[other]
            }
        }),
{
    assert(code.expires_in * NANOS <= u64::MAX * NANOS) by (nonlinear_arith)
        requires
            code.expires_in <= u64::MAX,
    ;
}

/// Without a device code that can be used, a QR code or a name no login is opened, and the table stays
/// as it is.
pub proof fn law_flow_is_not_opened(
    table: DeviceTable,
    region: Region,
    code: DeviceCodeView,
    e: TapErrorView,
    image: Option<Seq<char>>,
    random: Option<Seq<u8>>,
    now: u128,
)
    ensures
        device_opened(table, region, Err(e), image, random, now) == (
            table,
            Err::<DeviceStartView, ApiErrorView>(tap_refusal(e)),
        ),
        ({
            let usable = code.device_code.len() > 0 && code.qrcode_url.len() > 0 && code.expires_in > 0;
            let (after, answer) = device_opened(table, region, Ok(code), image, random, now);
            &&& !usable || image is None || random is None ==> after == table
            &&& !usable ==> refused_with(answer, 502, "invalid_device_code"@)
            &&& usable && image is None ==> refused_with(answer, 502, "invalid_qrcode_url"@)
            &&& usable && image is Some && random is None ==> refused_with(
                answer,
                500,
                "random_error"@,
            )
        }),
{
}

/// The QR code is that of the page that the device code leads to, at least 320 pixels wide and high.
pub proof fn law_image_is_that_of_the_page(code: DeviceCodeView)
    ensures
        code_image(Ok(code)) == qr_image(encode_utf8(code.qrcode_url), 320, 320),
{
}

/// How a poll is answered: an unknown or finished login is not found; an expired one is gone; one that
/// is polled too early is told how many whole seconds to wait, at least one; one that is due is asked
/// about at TapTap, with its device code and on behalf of the client of its region, and not again before
/// its interval has passed.
pub proof fn law_poll_is_answered(
    table: DeviceTable,
    config: ConfigView,
    tap: TapClient,
    flow_id: Seq<char>,
    now: u128,
)
    requires
        now <= LATEST,
    ensures
        ({
            let (after, start) = poll_started(table, config, tap, flow_id, now);
            if !table.contains_key(flow_id) {
                after == table && start is Answer && refused_with(
                    start->Answer_0,
                    404,
                    "flow_not_found"@,
                )
            } else if table[flow_id] is None {
                after == table && start is Busy
            } else {
                let flow = table[flow_id]->0;
                if flow.finished {
                    after == table && start is Answer && refused_with(
                        start->Answer_0,
                        404,
                        "flow_not_found"@,
                    )
                } else if flow.expires_at <= now {
                    &&& after == table.remove(flow_id)
                    &&& start is Answer
                    &&& refused_with(start->Answer_0, 410, "flow_expired"@)
                } else if now < flow.next_poll_at {
                    let gap = flow.next_poll_at - now;
                    &&& after == table
                    &&& start matches PollStartView::Answer(Ok(reply))
                    &&& reply.status.number() == 202
                    &&& reply.body matches PollView::Pending { retry_after }
                    &&& gap < 1_000_000_000 ==> retry_after == 1
                    &&& 1_000_000_000 <= gap < 1_000_000_000 * u64::MAX ==> retry_after * 1_000_000_000
                        <= gap < (retry_after + 1) * 1_000_000_000
                    &&& gap >= 1_000_000_000 * u64::MAX ==> retry_after == u64::MAX
                } else if config.client(flow.region) is None {
                    after == table && start is Answer && refused_with(
                        start->Answer_0,
                        400,
                        "region_not_configured"@,
                    )
                } else {
                    let client_id = config.client(flow.region)->0;
                    &&& after == table.insert(flow_id, None)
                    &&& start matches PollStartView::Ask(poll, request)
                    &&& request == device_token_request(
                        tap.accounts_at(flow.region),
                        client_id,
                        flow.device_code,
                    )
                    &&& poll.flow_id == flow_id
                    &&& poll.client_id == client_id
                    &&& poll.flow.region == flow.region
                    &&& poll.flow.device_code == flow.device_code
                    &&& poll.flow.expires_at == flow.expires_at
                    &&& poll.flow.interval == flow.interval
                    &&& poll.flow.next_poll_at == now + flow.interval * 1_000_000_000
                    &&& !poll.flow.finished
                }
            }
        }),
{
    if table.contains_key(flow_id) && table[flow_id] is Some {
        let flow = table[flow_id]->0;
        assert(flow.interval * NANOS <= u64::MAX * NANOS) by (nonlinear_arith)
            requires
                flow.interval <= u64::MAX,
        ;
        let gap = flow.next_poll_at - now;
        let whole = gap / 1_000_000_000;
        if 1_000_000_000 <= gap < 1_000_000_000 * u64::MAX {
            assert(1 <= whole <= u64::MAX && whole * 1_000_000_000 <= gap < (whole + 1)
                * 1_000_000_000) by (nonlinear_arith)
                requires
                    whole == gap / 1_000_000_000,
                    1_000_000_000 <= gap < 1_000_000_000 * u64::MAX,
            ;
        }
    }
}

/// What TapTap's refusal of a credential means: a player who has not confirmed yet is waited for, at the
/// pace of the login; a request to slow down makes that pace slower by five seconds; everything else is
/// passed on and leaves the login as it is.
pub proof fn law_refusals_are_taken_as_meant(flow: DeviceFlowView, e: TapErrorView, now: u128)
    requires
        now <= LATEST,
        flow.interval <= u64::MAX - 5,
    ensures
        ({
            let (after, answer) = token_refused(flow, e, now);
            let waiting = e == TapErrorView::Rejected("authorization_pending"@) || e
                == TapErrorView::Rejected("authorization_waiting"@);
            let slow = e == TapErrorView::Rejected("slow_down"@);
            if waiting || slow {
                let interval = if slow {
                    flow.interval + 5
                } else {
                    flow.interval as int
                };
                &&& answer matches Ok(reply)
                &&& reply.status.number() == 202
                &&& reply.body matches PollView::Pending { retry_after }
                &&& retry_after == interval
                &&& after.interval == interval
                &&& after.next_poll_at == if slow {
                    now + interval * 1_000_000_000
                } else {
                    flow.next_poll_at as int
                }
                &&& after.region == flow.region
                &&& after.device_code == flow.device_code
                &&& after.expires_at == flow.expires_at
                &&& after.finished == flow.finished
            } else {
                after == flow && answer == Err::<PollReplyView, ApiErrorView>(tap_refusal(e))
            }
        }),
{
    reveal_strlit("authorization_pending");
    reveal_strlit("authorization_waiting");
    reveal_strlit("slow_down");
    assert("slow_down"@.len() == 9);
    assert("authorization_pending"@.len() == 21);
    assert("authorization_waiting"@.len() == 21);
    let interval = flow.interval + 5;
    assert(interval * NANOS <= u64::MAX * NANOS) by (nonlinear_arith)
        requires
            interval <= u64::MAX,
    ;
}

/// Whoever has confirmed is asked for: with the credential that TapTap handed out the detailed profile
/// is asked for at the Open API of the region; one that cannot sign is refused.
pub proof fn law_confirmed_player_is_asked_for(
    region: Region,
    client_id: Seq<char>,
    token: AccessTokenView,
    next: PollNextView,
)
    requires
        token_accepted(region.open_text(), client_id, token, next),
    ensures
        next matches PollNextView::Ask(request) ==> request.url == asked_url(region, client_id, true)
            && ("MAC id=\""@ + token.kid + seq!['"']).is_prefix_of(request.authorization),
        next matches PollNextView::Answer(answer) ==> (!usable_credential(token) && refused_with(
            answer,
            401,
            "invalid_token"@,
        )) || refused_with(answer, 502, "taptap_unavailable"@),
        !usable_credential(token) ==> next is Answer,
{
    let asked = choose|asked: Result<SignedRequestView, ApiErrorView>|
        #[trigger] profile_asked(region.open_text(), client_id, token, true, asked) && next
            == ask_or_answer(asked);
    law_profile_is_asked_for_the_client(region, client_id, token, true, asked);
}

/// A poll that is answered as complete hands over the session that was issued: the token in the answer
/// is the one that is signed for the player's open ID and the region of the login, for a day from now,
/// and the profile is the one that TapTap answered. Where no session is issued, the refusal is passed on
/// and the login is not used up.
pub proof fn law_complete_poll_hands_over_the_session(
    secret: Seq<u8>,
    flow: DeviceFlowView,
    user: ProfileView,
    clock: Option<u64>,
)
    ensures
        ({
            let login = finished_login(secret, flow.region, Ok(user), clock);
            let answer = login_answer(login);
            let after = after_login(flow, login);
            &&& answer matches Ok(reply) ==> {
                let claims = "{\"iss\":\"taptap-rback\",\"sub\":"@ + (json_quoted(user.openid) + (
                match flow.region {
                    Region::Cn => ",\"region\":\"cn\",\"iat\":"@,
                    Region::Global => ",\"region\":\"global\",\"iat\":"@,
                } + (decimal_digits(clock->0 as nat) + (",\"exp\":"@ + (decimal_digits(
                    (clock->0 + 86400) as nat,
                ) + "}"@)))));
                &&& clock is Some
                &&& reply.status.number() == 200
                &&& reply.body matches PollView::Complete { login: handed }
                &&& signed_token(claims, secret) == Some(handed.session_token)
                &&& handed.token_type == "Bearer"@
                &&& handed.expires_in == 86400
                &&& handed.region == flow.region
                &&& handed.user == user
                &&& after.finished
                &&& login_holds(secret, login, clock) ==> token_holds(
                    handed.session_token,
                    secret,
                    user.openid,
                    flow.region,
                    clock->0,
                )
            }
            &&& answer matches Err(e) ==> {
                &&& login == Err::<LoginView, ApiErrorView>(e)
                &&& after == flow
            }
            &&& answer is Ok <==> login is Ok
            &&& after.region == flow.region
            &&& after.device_code == flow.device_code
            &&& after.expires_at == flow.expires_at
            &&& after.interval == flow.interval
            &&& after.next_poll_at == flow.next_poll_at
        }),
{
    law_session_is_issued(secret, flow.region, user, clock);
}

/// A refusal of the profile is passed on, and the login is not used up.
pub proof fn law_refused_profile_is_passed_on(
    secret: Seq<u8>,
    flow: DeviceFlowView,
    e: TapErrorView,
    clock: Option<u64>,
)
    ensures
        login_answer(finished_login(secret, flow.region, Err(e), clock)) == Err::<
            PollReplyView,
            ApiErrorView,
        >(tap_refusal(e)),
        after_login(flow, finished_login(secret, flow.region, Err(e), clock)) == flow,
{
}

/// When the work on a login ends, a finished one is gone and any other is back as it has become, if its
/// slot is still there.
pub proof fn law_work_ends(table: DeviceTable, poll: DevicePollView)
    ensures
        ({
            let after = poll_ended(table, poll);
            &&& poll.flow.finished ==> !after.contains_key(poll.flow_id)
            &&& !poll.flow.finished && table.contains_key(poll.flow_id) ==> after.contains_key(
                poll.flow_id,
            ) && after[poll.flow_id] == Some(poll.flow)
            &&& !table.contains_key(poll.flow_id) ==> after =~= table
        }),
{
}

/// Logins and what is to be done about them stand for the values of all their fields.
pub proof fn law_flows_stand_for_their_fields(
    flow: DeviceFlow,
    poll: DevicePoll,
    reply: PollReply,
    form: FormRequest,
    signed: SignedRequest,
    e: ApiError,
)
    ensures
        flow@.region == flow.region,
        flow@.device_code == flow.device_code@,
        flow@.expires_at == flow.expires_at,
        flow@.interval == flow.interval,
        flow@.next_poll_at == flow.next_poll_at,
        flow@.finished == flow.finished,
        DeviceFlow::ends_at(flow@) == flow.expires_at,
        DeviceFlow::is_used(flow@) == flow.finished,
        poll@.flow_id == poll.flow_id@,
        poll@.client_id == poll.client_id@,
        poll@.flow == poll.flow@,
        reply@.status == reply.status,
        reply@.body == reply.body@,
        PollStart::Answer(Ok(reply))@ == PollStartView::Answer(Ok(reply@)),
        PollStart::Answer(Err(e))@ == PollStartView::Answer(Err(e@)),
        PollStart::Busy@ == PollStartView::Busy,
        PollStart::Ask(poll, form)@ == PollStartView::Ask(poll@, form@),
        PollNext::Answer(Ok(reply))@ == PollNextView::Answer(Ok(reply@)),
        PollNext::Answer(Err(e))@ == PollNextView::Answer(Err(e@)),
        PollNext::Ask(signed)@ == PollNextView::Ask(signed@),
{
}

/// TapTap's answers stand for what they hold.
pub proof fn law_answers_of_taptap_stand_for_what_they_hold(
    code: DeviceCode,
    token: AccessToken,
    e: TapError,
)
    ensures
        code_reply(Ok(code)) == Ok::<DeviceCodeView, TapErrorView>(code@),
        code_reply(Err(e)) == Err::<DeviceCodeView, TapErrorView>(e@),
        token_reply(Ok(token)) == Ok::<AccessTokenView, TapErrorView>(token@),
        token_reply(Err(e)) == Err::<AccessTokenView, TapErrorView>(e@),
{
}

/// The session that a complete poll hands over is taken by this service: whoever bears its token within
/// the day is the player that TapTap answered, in the region of the login. A service whose secret signs
/// differently refuses it.
pub proof fn law_handed_over_session_is_accepted(
    secret: Seq<u8>,
    region: Region,
    user: ProfileView,
    answer: PollReplyView,
    issued: u64,
    now: u64,
)
    requires
        handed_over(secret, region, Ok(user), answer, Some(issued)),
        60 <= now,
        issued <= now < issued + 86400 <= u64::MAX,
    ensures
        ({
            &&& answer.status.number() == 200
            &&& answer.body matches PollView::Complete { login }
            &&& login.user == user
            &&& me_outcome(Some("Bearer "@ + login.session_token), secret, now, Some(now)) matches Ok(
                claims,
            )
            &&& claims.iss == "taptap-rback"@
            &&& claims.sub == user.openid
            &&& claims.region == region
            &&& claims.iat == issued
            &&& claims.exp == issued + 86400
            &&& forall|other: Seq<u8>|
                hmac_sha256_of(other, encode_utf8(signed_part(login.session_token))) != hmac_sha256_of(
                    secret,
                    encode_utf8(signed_part(login.session_token)),
                ) ==> refused_with(
                    #[trigger] me_outcome(
                        Some("Bearer "@ + login.session_token),
                        other,
                        now,
                        Some(now),
                    ),
                    401,
                    "invalid_session"@,
                )
        }),
{
}

} // verus!
