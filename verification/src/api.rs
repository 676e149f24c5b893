//! What the HTTP interface answers.

use vstd::prelude::*;

use crate::taptap::Profile;
use crate::taptap::ProfileView;
use crate::taptap::Region;
use crate::taptap::TapError;
use crate::taptap::TapErrorView;
use crate::text::same_text;

verus! {

/// The HTTP statuses in use.
#[derive(Clone, Copy, Debug, PartialEq, Eq, Structural)]
pub enum Status {
    Success,
    Accepted,
    BadRequest,
    Unauthorized,
    NotFound,
    Gone,
    InternalServerError,
    BadGateway,
    ServiceUnavailable,
}

impl Status {
    pub open spec fn number(self) -> u16 {
        match self {
            Status::Success => 200,
            Status::Accepted => 202,
            Status::BadRequest => 400,
            Status::Unauthorized => 401,
            Status::NotFound => 404,
            Status::Gone => 410,
            Status::InternalServerError => 500,
            Status::BadGateway => 502,
            Status::ServiceUnavailable => 503,
        }
    }

    /// The number of the status.
    pub fn code(self) -> (res: u16)
        ensures
            res == self.number(),
    {
        match self {
            Status::Success => 200,
            Status::Accepted => 202,
            Status::BadRequest => 400,
            Status::Unauthorized => 401,
            Status::NotFound => 404,
            Status::Gone => 410,
            Status::InternalServerError => 500,
            Status::BadGateway => 502,
            Status::ServiceUnavailable => 503,
        }
    }
}

/// A refusal: its status and the code in its body.
#[derive(Debug)]
pub struct ApiError {
    pub status: Status,
    pub error: String,
}

/// What an `ApiError` stands for.
pub struct ApiErrorView {
    pub status: Status,
    pub error: Seq<char>,
}

impl View for ApiError {
    type V = ApiErrorView;

    open spec fn view(&self) -> ApiErrorView {
        ApiErrorView { status: self.status, error: self.error@ }
    }
}

/// The value, or the refusal, of an outcome.
pub open spec fn api_outcome<T: View>(res: Result<T, ApiError>) -> Result<T::V, ApiErrorView> {
    match res {
        Ok(value) => Ok(value@),
        Err(e) => Err(e@),
    }
}

/// A refusal with the given status and code.
pub open spec fn refusal(status: Status, message: Seq<char>) -> ApiErrorView {
    ApiErrorView { status, error: message }
}

/// How a failure at TapTap is answered.
pub open spec fn tap_refusal(e: TapErrorView) -> ApiErrorView {
    match e {
        TapErrorView::Rejected(code) => if code == "access_denied"@ || code == "invalid_token"@ {
            refusal(Status::Unauthorized, code)
        } else {
            refusal(Status::BadRequest, code)
        },
        _ => refusal(Status::BadGateway, "taptap_unavailable"@),
    }
}

/// A refusal with the given status and code.
pub fn error(status: Status, message: &str) -> (res: ApiError)
    ensures
        res@ == refusal(status, message@),
{
    ApiError { status, error: message.to_owned() }
}

/// How a failure at TapTap is answered: a refusal keeps its code, anything else is hidden.
pub fn tap_error(e: TapError) -> (res: ApiError)
    ensures
        res@ == tap_refusal(e@),
{
    match e {
        TapError::Rejected(code) => {
            let status = if same_text(code.as_str(), "access_denied") || same_text(
                code.as_str(),
                "invalid_token",
            ) {
                Status::Unauthorized
            } else {
                Status::BadRequest
            };
            ApiError { status, error: code }
        },
        TapError::Upstream | TapError::Malformed => error(Status::BadGateway, "taptap_unavailable"),
    }
}

/// A login with a client of the SDK.
pub struct SdkLoginRequest {
    pub region: Region,
    pub access_token: crate::taptap::AccessToken,
    pub scopes: Vec<String>,
}

/// A finished login.
pub struct LoginResponse {
    pub token_type: &'static str,
    pub session_token: String,
    pub expires_in: u64,
    pub region: Region,
    pub user: Profile,
}

/// What a `LoginResponse` stands for.
pub struct LoginView {
    pub token_type: Seq<char>,
    pub session_token: Seq<char>,
    pub expires_in: u64,
    pub region: Region,
    pub user: ProfileView,
}

impl View for LoginResponse {
    type V = LoginView;

    open spec fn view(&self) -> LoginView {
        LoginView {
            token_type: self.token_type@,
            session_token: self.session_token@,
            expires_in: self.expires_in,
            region: self.region,
            user: self.user@,
        }
    }
}

/// A started device code login.
pub struct DeviceStartResponse {
    pub flow_id: String,
    pub qrcode_url: String,
    pub qr_image: String,
    pub expires_in: u64,
    pub interval: u64,
}

/// What a `DeviceStartResponse` stands for.
pub struct DeviceStartView {
    pub flow_id: Seq<char>,
    pub qrcode_url: Seq<char>,
    pub qr_image: Seq<char>,
    pub expires_in: u64,
    pub interval: u64,
}

impl View for DeviceStartResponse {
    type V = DeviceStartView;

    open spec fn view(&self) -> DeviceStartView {
        DeviceStartView {
            flow_id: self.flow_id@,
            qrcode_url: self.qrcode_url@,
            qr_image: self.qr_image@,
            expires_in: self.expires_in,
            interval: self.interval,
        }
    }
}

/// How far a device code login has come.
pub enum PollResponse {
    Pending { retry_after: u64 },
    Complete { login: LoginResponse },
}

/// What a `PollResponse` stands for.
pub enum PollView {
    Pending { retry_after: u64 },
    Complete { login: LoginView },
}

impl View for PollResponse {
    type V = PollView;

    open spec fn view(&self) -> PollView {
        match self {
            PollResponse::Pending { retry_after } => PollView::Pending {
                retry_after: *retry_after,
            },
            PollResponse::Complete { login } => PollView::Complete { login: login@ },
        }
    }
}

/// A started login in the browser.
pub struct WebStartResponse {
    pub authorize_url: String,
    pub expires_in: u64,
}

/// What a `WebStartResponse` stands for.
pub struct WebStartView {
    pub authorize_url: Seq<char>,
    pub expires_in: u64,
}

impl View for WebStartResponse {
    type V = WebStartView;

    open spec fn view(&self) -> WebStartView {
        WebStartView { authorize_url: self.authorize_url@, expires_in: self.expires_in }
    }
}

/// Whether an outcome is a refusal with the given number and code.
pub open spec fn refused_with<T>(
    outcome: Result<T, ApiErrorView>,
    number: u16,
    code: Seq<char>,
) -> bool {
    outcome is Err && outcome->Err_0.status.number() == number && outcome->Err_0.error == code
}

/// The numbers of the statuses.
pub proof fn law_statuses_have_their_numbers()
    ensures
        Status::Success.number() == 200,
        Status::Accepted.number() == 202,
        Status::BadRequest.number() == 400,
        Status::Unauthorized.number() == 401,
        Status::NotFound.number() == 404,
        Status::Gone.number() == 410,
        Status::InternalServerError.number() == 500,
        Status::BadGateway.number() == 502,
        Status::ServiceUnavailable.number() == 503,
{
}

/// A refusal of TapTap is passed on with its code, as 401 where the credential is at fault and as 400
/// otherwise. Every other failure is answered alike, so that nothing of it shows.
pub proof fn law_failures_at_taptap_are_answered(code: Seq<char>)
    ensures
        tap_refusal(TapErrorView::Rejected(code)).error == code,
        tap_refusal(TapErrorView::Rejected(code)).status.number() == if code == "access_denied"@
            || code == "invalid_token"@ {
            401u16
        } else {
            400u16
        },
        tap_refusal(TapErrorView::Upstream) == tap_refusal(TapErrorView::Malformed),
        tap_refusal(TapErrorView::Upstream).status.number() == 502,
        tap_refusal(TapErrorView::Upstream).error == "taptap_unavailable"@,
{
}

/// An outcome stands for the value or for the refusal that it holds.
pub proof fn law_outcomes_stand_for_what_they_hold<T: View>(value: T, e: ApiError)
    ensures
        api_outcome::<T>(Ok(value)) == Ok::<T::V, ApiErrorView>(value@),
        api_outcome::<T>(Err(e)) == Err::<T::V, ApiErrorView>(e@),
        e@.status == e.status,
        e@.error == e.error@,
{
}

/// What is answered stands for the values of all its fields.
pub proof fn law_answers_stand_for_their_fields(
    login: LoginResponse,
    start: DeviceStartResponse,
    web: WebStartResponse,
    retry_after: u64,
)
    ensures
        login@.token_type == login.token_type@,
        login@.session_token == login.session_token@,
        login@.expires_in == login.expires_in,
        login@.region == login.region,
        login@.user == login.user@,
        start@.flow_id == start.flow_id@,
        start@.qrcode_url == start.qrcode_url@,
        start@.qr_image == start.qr_image@,
        start@.expires_in == start.expires_in,
        start@.interval == start.interval,
        web@.authorize_url == web.authorize_url@,
        web@.expires_in == web.expires_in,
        (PollResponse::Pending { retry_after })@ == (PollView::Pending { retry_after }),
        (PollResponse::Complete { login })@ == (PollView::Complete { login: login@ }),
{
}

} // verus!
