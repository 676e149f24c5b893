//! Sessions: issued to players whose profile TapTap has vouched for, and checked later.

use vstd::prelude::*;
use vstd::utf8::encode_utf8;

use crate::api::ApiError;
use crate::api::ApiErrorView;
use crate::api::LoginResponse;
use crate::api::LoginView;
use crate::api::SdkLoginRequest;
use crate::api::Status;
use crate::api::api_outcome;
use crate::api::error;
use crate::api::refusal;
use crate::api::refused_with;
use crate::api::tap_error;
use crate::api::tap_refusal;
use crate::config::Config;
use crate::config::ConfigView;
use crate::crypto::hmac_sha1_of;
use crate::crypto::hmac_sha256_of;
use crate::crypto::unix_time;
use crate::encoding::base64_padded;
use crate::encoding::base64_url;
use crate::encoding::base64_url_bytes;
use crate::encoding::hex_text;
use crate::encoding::law_base64_url_is_read_back;
use crate::encoding::law_nothing_else_is_base64_url;
use crate::encoding::lemma_sextet_range;
use crate::encoding::read_url_safe;
use crate::json::Json;
use crate::json::JsonView;
use crate::json::distinct_names;
use crate::json::flat;
use crate::json::member_text;
use crate::json::members_of;
use crate::json::members_text;
use crate::json::object_text;
use crate::json::json_escape;
use crate::json::json_quoted;
use crate::json::json_text;
use crate::json::law_object_is_read_back;
use crate::json::lemma_member_behind;
use crate::json::object_members;
use crate::json::optional_json;
use crate::json::raw_members_of;
use crate::json::raw_texts;
use crate::json::read_members;
use crate::json::read_scalar;
use crate::json::reads_back;
use crate::json::scalar_of;
use crate::json::value_of;
use crate::json::write_object;
use crate::jwt::expiry_leeway;
use crate::jwt::law_short_token_falls_apart;
use crate::jwt::law_token_falls_apart;
use crate::jwt::payload_part;
use crate::jwt::plain_claims;
use crate::jwt::same_signature;
use crate::jwt::sign_claims;
use crate::jwt::signed_token;
use crate::jwt::stated_expiry;
use crate::jwt::token_payload;
use crate::jwt::token_valid;
use crate::jwt::verify_token;
use crate::taptap::AccessToken;
use crate::taptap::AccessTokenView;
use crate::taptap::Profile;
use crate::taptap::ProfileView;
use crate::taptap::Region;
use crate::taptap::SignedRequest;
use crate::taptap::SignedRequestView;
use crate::taptap::TapClient;
use crate::taptap::TapError;
use crate::taptap::TapErrorView;
use crate::taptap::law_no_request_without_time_and_nonce;
use crate::taptap::law_other_credentials_are_refused;
use crate::taptap::law_usable_credential_makes_a_request;
use crate::taptap::mac_message;
use crate::taptap::profile_outcome;
use crate::taptap::profile_possible;
use crate::taptap::request_outcome;
use crate::taptap::usable_credential;
use crate::taptap::visible_key_id;
use crate::text::decimal_digits;
use crate::text::expand;
use crate::text::same_text;
use crate::text::strip_prefix;
use crate::url::form_bytes;

verus! {

/// Who issues the sessions.
pub const ISSUER: &'static str = "taptap-rback";

/// How long a session lasts, in seconds: one day.
pub const SESSION_SECONDS: u64 = 86400;

/// What a session token says.
pub struct Claims {
    pub iss: String,
    pub sub: String,
    pub region: Region,
    pub iat: u64,
    pub exp: u64,
}

/// What `Claims` stand for.
pub struct ClaimsView {
    pub iss: Seq<char>,
    pub sub: Seq<char>,
    pub region: Region,
    pub iat: u64,
    pub exp: u64,
}

impl View for Claims {
    type V = ClaimsView;

    open spec fn view(&self) -> ClaimsView {
        ClaimsView {
            iss: self.iss@,
            sub: self.sub@,
            region: self.region,
            iat: self.iat,
            exp: self.exp,
        }
    }
}

/// The claims of a list that may be missing.
pub open spec fn optional_claims(claims: Option<Claims>) -> Option<ClaimsView> {
    match claims {
        Some(claims) => Some(claims@),
        None => None,
    }
}

/// The claims of a session for a player, issued at the time `now`.
pub open spec fn session_claims(openid: Seq<char>, region: Region, now: u64) -> ClaimsView {
    ClaimsView {
        iss: ISSUER@,
        sub: openid,
        region,
        iat: now,
        exp: (now + SESSION_SECONDS) as u64,
    }
}

/// Claims as the members of a JSON object.
pub open spec fn claims_members(claims: ClaimsView) -> Seq<(Seq<char>, JsonView)> {
    seq![
        ("iss"@, JsonView::Text(claims.iss)),
        ("sub"@, JsonView::Text(claims.sub)),
        ("region"@, JsonView::Text(claims.region.name_text())),
        ("iat"@, JsonView::Unsigned(claims.iat)),
        ("exp"@, JsonView::Unsigned(claims.exp)),
    ]
}

/// The region with the given name.
pub open spec fn region_named(name: Seq<char>) -> Option<Region> {
    if name == "cn"@ {
        Some(Region::Cn)
    } else if name == "global"@ {
        Some(Region::Global)
    } else {
        None
    }
}

/// The texts of the values that members called `name` have.
pub open spec fn values_of(list: Seq<(Seq<char>, Seq<u8>)>, name: Seq<char>) -> Seq<Seq<u8>>
    decreases list.len(),
{
    if list.len() == 0 {
        Seq::empty()
    } else if list.last().0 == name {
        values_of(list.drop_last(), name).push(list.last().1)
    } else {
        values_of(list.drop_last(), name)
    }
}

/// The text of the value that the only member called `name` has; `None` where there is none, or more
/// than one.
pub open spec fn single_of(list: Seq<(Seq<char>, Seq<u8>)>, name: Seq<char>) -> Option<Seq<u8>> {
    if values_of(list, name).len() == 1 {
        Some(values_of(list, name)[0])
    } else {
        None
    }
}

/// The value of the only member called `name`, where it is not nested.
pub open spec fn single_scalar(list: Seq<(Seq<char>, Seq<u8>)>, name: Seq<char>) -> Option<
    JsonView,
> {
    match single_of(list, name) {
        Some(bytes) => scalar_of(bytes),
        None => None,
    }
}

/// The members of an object with their values, where these are not nested.
pub open spec fn scalar_members(bytes: Seq<u8>) -> Option<Seq<(Seq<char>, Option<JsonView>)>> {
    match object_members(bytes) {
        Some(list) => Some(
            list.map_values(|member: (Seq<char>, Seq<u8>)| (member.0, scalar_of(member.1))),
        ),
        None => None,
    }
}

/// The region that a claim names: as a string, or as the only member of an object with `null` for its
/// value. `value` is the claim where it is not nested, and `nested` its members where it is an object.
pub open spec fn region_of(
    value: Option<JsonView>,
    nested: Option<Seq<(Seq<char>, Option<JsonView>)>>,
) -> Option<Region> {
    match (value, nested) {
        (Some(JsonView::Text(name)), _) => region_named(name),
        (None, Some(list)) => if list.len() == 1 && list[0].1 == Some(JsonView::Null) {
            region_named(list[0].0)
        } else {
            None
        },
        _ => None,
    }
}

/// The region that the only member called `region` names.
pub open spec fn single_region(list: Seq<(Seq<char>, Seq<u8>)>) -> Option<Region> {
    match single_of(list, "region"@) {
        Some(bytes) => region_of(scalar_of(bytes), scalar_members(bytes)),
        None => None,
    }
}

/// The claims that the given values amount to.
pub open spec fn claims_from(
    iss: Option<JsonView>,
    sub: Option<JsonView>,
    region: Option<Region>,
    iat: Option<JsonView>,
    exp: Option<JsonView>,
) -> Option<ClaimsView> {
    match (iss, sub, region, iat, exp) {
        (
            Some(JsonView::Text(iss)),
            Some(JsonView::Text(sub)),
            Some(region),
            Some(JsonView::Unsigned(iat)),
            Some(JsonView::Unsigned(exp)),
        ) => Some(ClaimsView { iss, sub, region, iat, exp }),
        _ => None,
    }
}

/// The claims that the members of a JSON object state. Each of them has to be there once; what else
/// there is does not matter.
pub open spec fn claims_of(list: Seq<(Seq<char>, Seq<u8>)>) -> Option<ClaimsView> {
    claims_from(
        single_scalar(list, "iss"@),
        single_scalar(list, "sub"@),
        single_region(list),
        single_scalar(list, "iat"@),
        single_scalar(list, "exp"@),
    )
}

/// The claims that stand in a token.
pub open spec fn claims_in(token: Seq<char>) -> Option<ClaimsView> {
    match base64_url_bytes(payload_part(token)) {
        Some(bytes) => match object_members(bytes) {
            Some(list) => claims_of(list),
            None => None,
        },
        None => None,
    }
}

/// The claims of a token, where it is valid.
pub open spec fn valid_claims(token: Seq<char>, secret: Seq<u8>, time: u64) -> Option<ClaimsView> {
    if token_valid(token, secret, time) {
        claims_in(token)
    } else {
        None
    }
}

/// Whether a profile identifies a player.
pub open spec fn identifies(user: ProfileView) -> bool {
    user.openid.len() > 0 && user.unionid.len() > 0
}

/// The login of a player by the profile `user`, when the clock shows `now`.
pub open spec fn login_outcome(
    secret: Seq<u8>,
    region: Region,
    user: ProfileView,
    now: Option<u64>,
) -> Result<LoginView, ApiErrorView> {
    if !identifies(user) {
        Err(refusal(Status::BadGateway, "invalid_taptap_profile"@))
    } else {
        match now {
            Some(now) => if now > u64::MAX - SESSION_SECONDS {
                Err(refusal(Status::InternalServerError, "clock_error"@))
            } else {
                match signed_token(
                    object_text(claims_members(session_claims(user.openid, region, now))),
                    secret,
                ) {
                    Some(session_token) => Ok(
                        LoginView {
                            token_type: "Bearer"@,
                            session_token,
                            expires_in: SESSION_SECONDS,
                            region,
                            user,
                        },
                    ),
                    None => Err(refusal(Status::InternalServerError, "session_error"@)),
                }
            },
            None => Err(refusal(Status::InternalServerError, "clock_error"@)),
        }
    }
}

/// Whether a session is owed: TapTap has answered with a profile that identifies a player, and the
/// clock can be read and carried a day on.
pub open spec fn login_owed(reply: Result<ProfileView, TapErrorView>, now: Option<u64>) -> bool {
    &&& reply is Ok
    &&& identifies(reply->Ok_0)
    &&& now is Some
    &&& now->0 <= u64::MAX - SESSION_SECONDS
}

/// The login that follows on TapTap's answer to the request for a profile.
pub open spec fn finished_login(
    secret: Seq<u8>,
    region: Region,
    reply: Result<ProfileView, TapErrorView>,
    now: Option<u64>,
) -> Result<LoginView, ApiErrorView> {
    match reply {
        Ok(user) => login_outcome(secret, region, user, now),
        Err(e) => Err(tap_refusal(e)),
    }
}

/// The profile, or the error, that TapTap answered.
pub open spec fn profile_reply(reply: Result<Profile, TapError>) -> Result<
    ProfileView,
    TapErrorView,
> {
    match reply {
        Ok(user) => Ok(user@),
        Err(e) => Err(e@),
    }
}

/// The session that the claims of a token amount to, when the clock shows `clock`.
pub open spec fn session_outcome(claims: Option<ClaimsView>, clock: Option<u64>) -> Result<
    ClaimsView,
    ApiErrorView,
> {
    match claims {
        None => Err(refusal(Status::Unauthorized, "invalid_session"@)),
        Some(claims) => if claims.iss != ISSUER@ {
            Err(refusal(Status::Unauthorized, "invalid_session"@))
        } else {
            match clock {
                None => Err(refusal(Status::InternalServerError, "clock_error"@)),
                Some(clock) => if claims.iat > clock {
                    Err(refusal(Status::Unauthorized, "invalid_session"@))
                } else {
                    Ok(claims)
                },
            }
        },
    }
}

/// The token in an `Authorization` header.
pub open spec fn bearer(header: Option<Seq<char>>) -> Option<Seq<char>> {
    match header {
        Some(text) => if "Bearer "@.is_prefix_of(text) {
            Some(text.skip("Bearer "@.len() as int))
        } else {
            None
        },
        None => None,
    }
}

/// The session that a request with the given header belongs to, when the token is decoded at the
/// time `time` and the clock then shows `clock`.
pub open spec fn me_outcome(
    header: Option<Seq<char>>,
    secret: Seq<u8>,
    time: u64,
    clock: Option<u64>,
) -> Result<ClaimsView, ApiErrorView> {
    match bearer(header) {
        None => Err(refusal(Status::Unauthorized, "missing_bearer_token"@)),
        Some(token) => session_outcome(valid_claims(token, secret, time), clock),
    }
}

/// Whether a token stands for a session of the given player that was issued at the time `now`: from
/// then on a request that bears it belongs to that session until the session ends, and the leeway
/// longer; after that it is refused.
pub open spec fn token_holds(
    token: Seq<char>,
    secret: Seq<u8>,
    openid: Seq<char>,
    region: Region,
    now: u64,
) -> bool {
    forall|time: u64, clock: u64|
        expiry_leeway() <= time && now <= clock ==> #[trigger] me_outcome(
            Some("Bearer "@ + token),
            secret,
            time,
            Some(clock),
        ) == if time <= now + SESSION_SECONDS + expiry_leeway() {
            Ok::<ClaimsView, ApiErrorView>(session_claims(openid, region, now))
        } else {
            Err(refusal(Status::Unauthorized, "invalid_session"@))
        }
}

/// Whether a token is bound to a secret: under every other one that does not happen to sign it in the
/// same way it is refused at any time.
pub open spec fn token_is_bound(token: Seq<char>, secret: Seq<u8>) -> bool {
    forall|other: Seq<u8>, time: u64, clock: Option<u64>|
        !same_signature(token, secret, other) ==> #[trigger] me_outcome(
            Some("Bearer "@ + token),
            other,
            time,
            clock,
        ) == Err::<ClaimsView, ApiErrorView>(refusal(Status::Unauthorized, "invalid_session"@))
}

/// Whether the token of a login that was made when the clock showed `now`, if it was made, stands for
/// a session of the player in its profile and is bound to the secret.
pub open spec fn login_holds(
    secret: Seq<u8>,
    login: Result<LoginView, ApiErrorView>,
    now: Option<u64>,
) -> bool {
    login matches Ok(login) ==> now is Some && token_holds(
        login.session_token,
        secret,
        login.user.openid,
        login.region,
        now->0,
    ) && token_is_bound(login.session_token, secret)
}

/// The characters of a borrowed text that may be missing.
pub open spec fn optional_str(text: Option<&str>) -> Option<Seq<char>> {
    match text {
        Some(text) => Some(text@),
        None => None,
    }
}

/// The claims of a session can be read off the text that they are written as.
pub proof fn law_claims_are_read_back(claims: ClaimsView)
    requires
        reads_back(encode_utf8(object_text(claims_members(claims)))),
    ensures
        object_members(encode_utf8(object_text(claims_members(claims)))) matches Some(list)
            && claims_of(list) == Some(claims),
{
    let list = claims_members(claims);
    lemma_claims_are_plain(claims);
    law_object_is_read_back(list);
    let raw = raw_texts(list);
    assert(raw.len() == 5);
    assert forall|i: int| 0 <= i < 5 implies scalar_of((#[trigger] raw[i]).1) == Some(list[i].1) by {
        assert(raw[i].1 == encode_utf8(json_text(list[i].1)));
    }
    lemma_names_differ();
    reveal_with_fuel(values_of, 6);
    let four = raw.drop_last();
    let three = four.drop_last();
    let two = three.drop_last();
    let one = two.drop_last();
    assert(four.last() == raw[3] && three.last() == raw[2] && two.last() == raw[1] && one.last()
        == raw[0]);
    assert(one.drop_last().len() == 0);
    assert(raw[0].0 == "iss"@ && raw[1].0 == "sub"@ && raw[2].0 == "region"@ && raw[3].0 == "iat"@
        && raw[4].0 == "exp"@);
    assert(values_of(raw, "iss"@) =~= seq![raw[0].1]);
    assert(values_of(raw, "sub"@) =~= seq![raw[1].1]);
    assert(values_of(raw, "region"@) =~= seq![raw[2].1]);
    assert(values_of(raw, "iat"@) =~= seq![raw[3].1]);
    assert(values_of(raw, "exp"@) =~= seq![raw[4].1]);
    assert(region_named(claims.region.name_text()) == Some(claims.region)) by {
        reveal_strlit("cn");
        reveal_strlit("global");
        assert("cn"@.len() != "global"@.len());
    }
}

/// The names of the claims differ.
proof fn lemma_names_differ()
    ensures
        "iss"@ != "sub"@ && "iss"@ != "region"@ && "iss"@ != "iat"@ && "iss"@ != "exp"@,
        "sub"@ != "region"@ && "sub"@ != "iat"@ && "sub"@ != "exp"@,
        "region"@ != "iat"@ && "region"@ != "exp"@,
        "iat"@ != "exp"@,
{
    reveal_strlit("iss");
    reveal_strlit("sub");
    reveal_strlit("region");
    reveal_strlit("iat");
    reveal_strlit("exp");
    assert("region"@.len() == 6);
    assert("iss"@[0] == 'i' && "iss"@[1] == 's');
    assert("sub"@[0] == 's');
    assert("iat"@[0] == 'i' && "iat"@[1] == 'a');
    assert("exp"@[0] == 'e');
}

/// The claims of a session are plain, and state its end.
proof fn lemma_claims_are_plain(claims: ClaimsView)
    ensures
        plain_claims(claims_members(claims)),
        stated_expiry(claims_members(claims)) == Some(claims.exp),
{
    reveal_strlit("iss");
    reveal_strlit("sub");
    reveal_strlit("region");
    reveal_strlit("iat");
    reveal_strlit("exp");
    reveal_strlit("aud");
    reveal_strlit("nbf");
    let list = claims_members(claims);
    lemma_names_differ();
    assert("region"@.len() == 6);
    assert("iss"@[0] == 'i');
    assert("sub"@[0] == 's');
    assert("iat"@[0] == 'i');
    assert("exp"@[0] == 'e');
    assert("aud"@[0] == 'a');
    assert("nbf"@[0] == 'n');
    reveal_with_fuel(value_of, 6);
    assert(list.drop_first()[0] == list[1]);
    assert(list.drop_first().drop_first()[0] == list[2]);
    assert(list.drop_first().drop_first().drop_first()[0] == list[3]);
    assert(list.drop_first().drop_first().drop_first().drop_first()[0] == list[4]);
    assert(value_of(list, "iss"@) == Some(JsonView::Text(claims.iss)));
    assert(value_of(list, "sub"@) == Some(JsonView::Text(claims.sub)));
    assert(value_of(list, "exp"@) == Some(JsonView::Unsigned(claims.exp)));
    assert(value_of(list, "aud"@) is None);
    assert(value_of(list, "nbf"@) is None);
    assert(distinct_names(list));
    assert(flat(list));
}

/// A header that bears a token gives the token back.
pub proof fn law_bearer_token_is_read_back(token: Seq<char>)
    ensures
        bearer(Some("Bearer "@ + token)) == Some(token),
{
    let header = "Bearer "@ + token;
    assert(header.subrange(0, "Bearer "@.len() as int) =~= "Bearer "@);
    assert(header.skip("Bearer "@.len() as int) =~= token);
}

/// A session is for the very profile that TapTap answered, which identifies a player, and lasts a
/// day.
pub proof fn law_session_belongs_to_the_profile(
    secret: Seq<u8>,
    region: Region,
    reply: Result<ProfileView, TapErrorView>,
    now: Option<u64>,
)
    ensures
        finished_login(secret, region, reply, now) matches Ok(login) ==> {
            &&& reply == Ok::<ProfileView, TapErrorView>(login.user)
            &&& identifies(login.user)
            &&& login.region == region
            &&& login.expires_in == 86400
            &&& now matches Some(now)
            &&& signed_token(
                object_text(claims_members(session_claims(login.user.openid, region, now))),
                secret,
            ) == Some(login.session_token)
            &&& session_claims(login.user.openid, region, now).exp == now + 86400
        },
{
}

/// Whoever bears the token of a login within a day of it is taken for the player in its profile.
pub proof fn law_session_is_read_back(secret: Seq<u8>, login: LoginView, issued: u64, now: u64)
    requires
        login_holds(secret, Ok(login), Some(issued)),
        expiry_leeway() <= now,
        issued <= now < issued + SESSION_SECONDS <= u64::MAX,
    ensures
        me_outcome(Some("Bearer "@ + login.session_token), secret, now, Some(now)) == Ok::<
            ClaimsView,
            ApiErrorView,
        >(
            ClaimsView {
                iss: "taptap-rback"@,
                sub: login.user.openid,
                region: login.region,
                iat: issued,
                exp: (issued + 86400) as u64,
            },
        ),
{
}

/// When the secret changes, the sessions that were issued under the old one are refused, unless both
/// secrets sign them in the same way.
pub proof fn law_sessions_end_with_the_secret(
    secret: Seq<u8>,
    login: LoginView,
    issued: u64,
    other: Seq<u8>,
    time: u64,
    clock: Option<u64>,
)
    requires
        login_holds(secret, Ok(login), Some(issued)),
        !same_signature(login.session_token, secret, other),
    ensures
        me_outcome(Some("Bearer "@ + login.session_token), other, time, clock) == Err::<
            ClaimsView,
            ApiErrorView,
        >(refusal(Status::Unauthorized, "invalid_session"@)),
{
}

/// Issues a session to the player with the profile `user`, when the clock shows `now`. Whoever has a
/// profile that identifies them gets one, unless the clock cannot be read or a day would carry it
/// past its range, and the token gives back who it was issued to.
pub fn issue_session_at(
    config: &Config,
    region: Region,
    user: Profile,
    now: Option<u64>,
) -> (res: Result<LoginResponse, ApiError>)
    ensures
        api_outcome(res) == login_outcome(config@.session_secret, region, user@, now),
        login_owed(Ok(user@), now) <==> res is Ok,
        login_holds(config@.session_secret, api_outcome(res), now),
{
    if user.openid.as_str().is_empty() || user.unionid.as_str().is_empty() {
        return Err(error(Status::BadGateway, "invalid_taptap_profile"));
    }
    let now: u64 = match now {
        Some(now) => now,
        None => return Err(error(Status::InternalServerError, "clock_error")),
    };
    if now > u64::MAX - SESSION_SECONDS {
        return Err(error(Status::InternalServerError, "clock_error"));
    }
    let ghost claims = session_claims(user@.openid, region, now);
    let list = vec![
        ("iss".to_owned(), Json::Text(ISSUER.to_owned())),
        ("sub".to_owned(), Json::Text(user.openid.clone())),
        ("region".to_owned(), Json::Text(region.name().to_owned())),
        ("iat".to_owned(), Json::Unsigned(now)),
        ("exp".to_owned(), Json::Unsigned(now + SESSION_SECONDS)),
    ];
    proof {
        lemma_claims_are_plain(claims);
        assert(members_of(list@) =~= claims_members(claims));
    }
    let text = write_object(&list);
    let token = sign_claims(text.as_str(), config.session_secret.as_slice());
    assert(text@ == object_text(claims_members(claims)));
    proof {
        law_bearer_token_is_read_back(token->0@);
        law_claims_are_read_back(claims);
        law_base64_url_is_read_back(encode_utf8(text@));
    }
    match token {
        Some(session_token) => Ok(
            LoginResponse {
                token_type: "Bearer",
                session_token,
                expires_in: SESSION_SECONDS,
                region,
                user,
            },
        ),
        None => Err(error(Status::InternalServerError, "session_error")),
    }
}

/// Issues a session to the player with the profile `user`, now.
pub fn issue_session(config: &Config, region: Region, user: Profile) -> (res: Result<
    LoginResponse,
    ApiError,
>)
    ensures
        exists|now: Option<u64>|
            api_outcome(res) == #[trigger] login_outcome(
                config@.session_secret,
                region,
                user@,
                now,
            ) && login_holds(config@.session_secret, api_outcome(res), now) && (login_owed(
                Ok(user@),
                now,
            ) <==> res is Ok),
{
    let now: Option<u64> = unix_time();
    issue_session_at(config, region, user, now)
}

/// Finishes a login with TapTap's answer to the request for a profile, when the clock shows `now`:
/// there is a session for the profile that TapTap answered, and for no other.
pub fn finish_login_at(
    config: &Config,
    region: Region,
    reply: Result<Profile, TapError>,
    now: Option<u64>,
) -> (res: Result<LoginResponse, ApiError>)
    ensures
        api_outcome(res) == finished_login(
            config@.session_secret,
            region,
            profile_reply(reply),
            now,
        ),
        login_owed(profile_reply(reply), now) <==> res is Ok,
        login_holds(config@.session_secret, api_outcome(res), now),
{
    match reply {
        Ok(user) => issue_session_at(config, region, user, now),
        Err(e) => Err(tap_error(e)),
    }
}

/// Finishes a login with TapTap's answer to the request for a profile.
pub fn finish_login(config: &Config, region: Region, reply: Result<Profile, TapError>) -> (res:
    Result<LoginResponse, ApiError>)
    ensures
        exists|now: Option<u64>|
            api_outcome(res) == #[trigger] finished_login(
                config@.session_secret,
                region,
                profile_reply(reply),
                now,
            ) && login_holds(config@.session_secret, api_outcome(res), now) && (login_owed(
                profile_reply(reply),
                now,
            ) <==> res is Ok),
{
    let now: Option<u64> = unix_time();
    finish_login_at(config, region, reply, now)
}

/// Whether a list of scopes names the public profile.
pub open spec fn names_profile(scopes: Seq<String>) -> bool {
    exists|i: int| 0 <= i < scopes.len() && (#[trigger] scopes[i])@ == "public_profile"@
}

/// Whether a list of scopes names the public profile.
pub fn wants_profile(scopes: &Vec<String>) -> (res: bool)
    ensures
        res == names_profile(scopes@),
{
    for i in 0..scopes.len()
        invariant
            forall|j: int| 0 <= j < i ==> (#[trigger] scopes@[j])@ != "public_profile"@,
    {
        if same_text(scopes[i].as_str(), "public_profile") {
            return true;
        }
    }
    false
}

/// A request to TapTap, or how it is answered that there is none.
pub open spec fn asked_or_refused(asked: Result<SignedRequestView, TapErrorView>) -> Result<
    SignedRequestView,
    ApiErrorView,
> {
    match asked {
        Ok(request) => Ok(request),
        Err(e) => Err(tap_refusal(e)),
    }
}

/// Whether `outcome` can come of asking for a profile on behalf of a client, whatever the clock and
/// the source of randomness answer.
pub open spec fn profile_asked(
    open_host: Seq<char>,
    client_id: Seq<char>,
    token: AccessTokenView,
    detailed: bool,
    outcome: Result<SignedRequestView, ApiErrorView>,
) -> bool {
    exists|asked: Result<SignedRequestView, TapErrorView>|
        #[trigger] profile_possible(open_host, client_id, token, detailed, asked) && outcome
            == asked_or_refused(asked)
}

/// Whether `outcome` can come of a login through the SDK, whatever the clock and the source of
/// randomness answer.
pub open spec fn sdk_request_possible(
    config: ConfigView,
    open_host: Seq<char>,
    region: Region,
    token: AccessTokenView,
    detailed: bool,
    outcome: Result<SignedRequestView, ApiErrorView>,
) -> bool {
    match config.client(region) {
        None => outcome == Err::<SignedRequestView, ApiErrorView>(
            refusal(Status::BadRequest, "region_not_configured"@),
        ),
        Some(client_id) => profile_asked(open_host, client_id, token, detailed, outcome),
    }
}

/// Starts a login with the credential that a client of the SDK hands in: the request that asks
/// TapTap whose it is.
pub fn sdk_login(config: &Config, tap: &TapClient, body: &SdkLoginRequest) -> (res: Result<
    SignedRequest,
    ApiError,
>)
    requires
        tap.wf(),
        config@.client(body.region) matches Some(id) ==> tap.fits(body.region, id),
    ensures
        sdk_request_possible(
            config@,
            tap.open_at(body.region),
            body.region,
            body.access_token@,
            names_profile(body.scopes@),
            api_outcome(res),
        ),
{
    let client_id = match config.client_id(body.region) {
        Some(client_id) => client_id,
        None => return Err(error(Status::BadRequest, "region_not_configured")),
    };
    let detailed = wants_profile(&body.scopes);
    ask_profile(tap, body.region, client_id, &body.access_token, detailed)
}

/// Asks for a profile on behalf of a client.
pub fn ask_profile(
    tap: &TapClient,
    region: Region,
    client_id: &str,
    token: &AccessToken,
    detailed: bool,
) -> (res: Result<SignedRequest, ApiError>)
    requires
        tap.wf(),
        tap.fits(region, client_id@),
    ensures
        profile_asked(tap.open_at(region), client_id@, token@, detailed, api_outcome(res)),
{
    let asked = tap.profile(region, client_id, token, detailed);
    let ghost view = request_outcome(asked);
    let res = match asked {
        Ok(request) => Ok(request),
        Err(e) => Err(tap_error(e)),
    };
    assert(api_outcome(res) == asked_or_refused(view));
    res
}

/// The region with the given name.
pub fn find_region(name: &str) -> (res: Option<Region>)
    ensures
        res == region_named(name@),
{
    if same_text(name, "cn") {
        Some(Region::Cn)
    } else if same_text(name, "global") {
        Some(Region::Global)
    } else {
        None
    }
}

/// The text of the value that the only member called `name` has.
fn find_single<'a>(list: &'a Vec<(String, Vec<u8>)>, name: &str) -> (res: Option<&'a Vec<u8>>)
    ensures
        match res {
            Some(bytes) => single_of(raw_members_of(list@), name@) == Some(bytes@),
            None => single_of(raw_members_of(list@), name@) is None,
        },
{
    let ghost all = raw_members_of(list@);
    let mut found: Option<&'a Vec<u8>> = None;
    let mut repeated = false;
    assert(all.take(0) =~= Seq::empty());
    for i in 0..list.len()
        invariant
            all == raw_members_of(list@),
            ({
                let values = values_of(all.take(i as int), name@);
                &&& repeated <==> values.len() > 1
                &&& found is None <==> values.len() == 0
                &&& values.len() == 1 ==> found->0@ == values[0]
            }),
    {
        assert(all.take(i + 1).drop_last() =~= all.take(i as int));
        assert(all.take(i + 1).last() == (list@[i as int].0@, list@[i as int].1@));
        if same_text(list[i].0.as_str(), name) {
            if found.is_some() {
                repeated = true;
            }
            found = Some(&list[i].1);
        }
    }
    assert(all.take(list@.len() as int) =~= all);
    if repeated {
        None
    } else {
        found
    }
}

/// The value of the only member called `name`, where it is not nested.
fn find_scalar(list: &Vec<(String, Vec<u8>)>, name: &str) -> (res: Option<Json>)
    ensures
        optional_json(res) == single_scalar(raw_members_of(list@), name@),
{
    match find_single(list, name) {
        Some(bytes) => read_scalar(bytes.as_slice()),
        None => None,
    }
}

/// Members with their values, where these are not nested.
pub open spec fn optional_scalars_of(list: Option<Vec<(String, Option<Json>)>>) -> Option<
    Seq<(Seq<char>, Option<JsonView>)>,
> {
    match list {
        Some(list) => Some(
            list@.map_values(|member: (String, Option<Json>)| (member.0@, optional_json(member.1))),
        ),
        None => None,
    }
}

/// The members of an object with their values, where these are not nested.
fn read_scalar_members(bytes: &[u8]) -> (res: Option<Vec<(String, Option<Json>)>>)
    ensures
        optional_scalars_of(res) == scalar_members(bytes@),
{
    let list = match read_members(bytes) {
        Some(list) => list,
        None => return None,
    };
    let ghost all = raw_members_of(list@);
    let mut res: Vec<(String, Option<Json>)> = Vec::new();
    for i in 0..list.len()
        invariant
            all == raw_members_of(list@),
            res@.len() == i,
            forall|j: int|
                0 <= j < i ==> ((#[trigger] res@[j]).0@, optional_json(res@[j].1)) == (
                    all[j].0,
                    scalar_of(all[j].1),
                ),
    {
        res.push((list[i].0.clone(), read_scalar(list[i].1.as_slice())));
    }
    assert(optional_scalars_of(Some(res))->0 =~= scalar_members(bytes@)->0);
    Some(res)
}

/// The region that a claim names. `value` is the claim where it is not nested, and `nested` its members
/// where it is an object.
pub fn read_region(value: Option<Json>, nested: Option<Vec<(String, Option<Json>)>>) -> (res: Option<
    Region,
>)
    ensures
        res == region_of(optional_json(value), optional_scalars_of(nested)),
{
    match (value, nested) {
        (Some(Json::Text(name)), _) => find_region(name.as_str()),
        (None, Some(list)) => {
            if list.len() != 1 {
                return None;
            }
            match &list[0].1 {
                Some(Json::Null) => find_region(list[0].0.as_str()),
                _ => None,
            }
        },
        _ => None,
    }
}

/// The claims that the given values amount to.
pub fn make_claims(
    iss: Option<Json>,
    sub: Option<Json>,
    region: Option<Region>,
    iat: Option<Json>,
    exp: Option<Json>,
) -> (res: Option<Claims>)
    ensures
        optional_claims(res) == claims_from(
            optional_json(iss),
            optional_json(sub),
            region,
            optional_json(iat),
            optional_json(exp),
        ),
{
    match (iss, sub, region, iat, exp) {
        (
            Some(Json::Text(iss)),
            Some(Json::Text(sub)),
            Some(region),
            Some(Json::Unsigned(iat)),
            Some(Json::Unsigned(exp)),
        ) => Some(Claims { iss, sub, region, iat, exp }),
        _ => None,
    }
}

/// The claims that the members of a JSON object state.
pub fn read_claims(list: &Vec<(String, Vec<u8>)>) -> (res: Option<Claims>)
    ensures
        optional_claims(res) == claims_of(raw_members_of(list@)),
{
    let region = match find_single(list, "region") {
        Some(bytes) => read_region(
            read_scalar(bytes.as_slice()),
            read_scalar_members(bytes.as_slice()),
        ),
        None => None,
    };
    make_claims(
        find_scalar(list, "iss"),
        find_scalar(list, "sub"),
        region,
        find_scalar(list, "iat"),
        find_scalar(list, "exp"),
    )
}

/// The claims that stand in a token.
pub fn read_token(token: &str) -> (res: Option<Claims>)
    ensures
        optional_claims(res) == claims_in(token@),
{
    match read_url_safe(token_payload(token).as_str()) {
        Some(bytes) => match read_members(bytes.as_slice()) {
            Some(list) => read_claims(&list),
            None => None,
        },
        None => None,
    }
}

/// Accepts the claims of a token, when the clock shows `clock`.
pub fn accept_claims(claims: Option<Claims>, clock: Option<u64>) -> (res: Result<Claims, ApiError>)
    ensures
        api_outcome(res) == session_outcome(optional_claims(claims), clock),
{
    let claims = match claims {
        Some(claims) => claims,
        None => return Err(error(Status::Unauthorized, "invalid_session")),
    };
    if !same_text(claims.iss.as_str(), ISSUER) {
        return Err(error(Status::Unauthorized, "invalid_session"));
    }
    match clock {
        None => Err(error(Status::InternalServerError, "clock_error")),
        Some(clock) => if claims.iat > clock {
            Err(error(Status::Unauthorized, "invalid_session"))
        } else {
            Ok(claims)
        },
    }
}

/// The token in an `Authorization` header.
pub fn bearer_token(header: Option<&str>) -> (res: Option<String>)
    ensures
        res is Some <==> bearer(optional_str(header)) is Some,
        res matches Some(token) ==> bearer(optional_str(header)) == Some(token@),
{
    match header {
        Some(text) => {
            let rest = strip_prefix(text, "Bearer ");
            assert(rest is Some ==> text@.skip("Bearer "@.len() as int) =~= rest->0@);
            rest
        },
        None => None,
    }
}

/// The session that a request with the given `Authorization` header belongs to, when the clock shows
/// `clock`. The token is decoded at a time that is left open.
pub fn me_at(config: &Config, authorization: Option<&str>, clock: Option<u64>) -> (res: Result<
    Claims,
    ApiError,
>)
    ensures
        exists|time: u64|
            api_outcome(res) == #[trigger] me_outcome(
                optional_str(authorization),
                config@.session_secret,
                time,
                clock,
            ),
        bearer(optional_str(authorization)) is None ==> api_outcome(res) == Err::<
            ClaimsView,
            ApiErrorView,
        >(refusal(Status::Unauthorized, "missing_bearer_token"@)),
{
    let token = match bearer_token(authorization) {
        Some(token) => token,
        None => {
            let res = Err(error(Status::Unauthorized, "missing_bearer_token"));
            assert(api_outcome::<Claims>(res) == me_outcome(
                optional_str(authorization),
                config@.session_secret,
                0,
                clock,
            ));
            return res;
        },
    };
    let valid = verify_token(token.as_str(), config.session_secret.as_slice());
    let ghost time = choose|time: u64|
        valid == #[trigger] token_valid(token@, config@.session_secret, time);
    let claims = if valid {
        read_token(token.as_str())
    } else {
        None
    };
    assert(optional_claims(claims) == valid_claims(token@, config@.session_secret, time));
    let res = accept_claims(claims, clock);
    assert(api_outcome(res) == me_outcome(
        optional_str(authorization),
        config@.session_secret,
        time,
        clock,
    ));
    res
}

/// The session that a request with the given `Authorization` header belongs to.
pub fn me(config: &Config, authorization: Option<&str>) -> (res: Result<Claims, ApiError>)
    ensures
        exists|time: u64, clock: Option<u64>|
            api_outcome(res) == #[trigger] me_outcome(
                optional_str(authorization),
                config@.session_secret,
                time,
                clock,
            ),
        bearer(optional_str(authorization)) is None ==> api_outcome(res) == Err::<
            ClaimsView,
            ApiErrorView,
        >(refusal(Status::Unauthorized, "missing_bearer_token"@)),
{
    let clock: Option<u64> = unix_time();
    me_at(config, authorization, clock)
}

/// The public profile is in scope if and only if it is named at some place, whatever stands before or
/// behind it.
pub proof fn law_scope_counts_at_any_place(
    before: Seq<String>,
    scope: String,
    after: Seq<String>,
)
    ensures
        !names_profile(Seq::empty()),
        names_profile(before + seq![scope] + after) <==> scope@ == "public_profile"@ || names_profile(
            before,
        ) || names_profile(after),
        names_profile(before + after) == names_profile(after + before),
{
    let all = before + seq![scope] + after;
    let n = before.len() as int;
    if scope@ == "public_profile"@ {
        assert(all[n]@ == "public_profile"@);
    }
    if names_profile(before) {
        let i = choose|i: int|
            0 <= i < before.len() && (#[trigger] before[i])@ == "public_profile"@;
        assert(all[i]@ == "public_profile"@);
        assert((before + after)[i] == before[i]);
        assert((after + before)[after.len() + i] == before[i]);
    }
    if names_profile(after) {
        let i = choose|i: int| 0 <= i < after.len() && (#[trigger] after[i])@ == "public_profile"@;
        assert(all[n + 1 + i]@ == "public_profile"@);
        assert((before + after)[n + i] == after[i]);
        assert((after + before)[i] == after[i]);
    }
    if names_profile(all) {
        let i = choose|i: int| 0 <= i < all.len() && (#[trigger] all[i])@ == "public_profile"@;
        if i < n {
            assert(before[i]@ == "public_profile"@);
        } else if i > n {
            assert(after[i - n - 1]@ == "public_profile"@);
        }
    }
    if names_profile(before + after) {
        let both = before + after;
        let i = choose|i: int| 0 <= i < both.len() && (#[trigger] both[i])@ == "public_profile"@;
        if i < n {
            assert(before[i]@ == "public_profile"@);
        } else {
            assert(after[i - n]@ == "public_profile"@);
        }
    }
    if names_profile(after + before) {
        let both = after + before;
        let i = choose|i: int| 0 <= i < both.len() && (#[trigger] both[i])@ == "public_profile"@;
        if i < after.len() {
            assert(after[i]@ == "public_profile"@);
        } else {
            assert(before[i - after.len()]@ == "public_profile"@);
        }
    }
}

/// What asks TapTap for a profile at its hosts: the Open API of the region, the detailed path or the
/// basic one, and the client ID as the query; and the credential is a usable one.
proof fn lemma_asked_url(
    region: Region,
    client_id: Seq<char>,
    token: AccessTokenView,
    detailed: bool,
    request: SignedRequestView,
)
    requires
        profile_possible(region.open_text(), client_id, token, detailed, Ok(request)),
    ensures
        request.url == asked_url(region, client_id, detailed),
        ("MAC id=\""@ + token.kid + seq!['"']).is_prefix_of(request.authorization),
        token.kid.len() > 0,
        token.mac_key.len() > 0,
{
    let (ts, nonce) = choose|ts: Option<u64>, nonce: Option<Seq<u8>>|
        (nonce is Some ==> nonce->0.len() == 16) && Ok::<SignedRequestView, TapErrorView>(request)
            == #[trigger] profile_outcome(
            region.open_text(),
            client_id,
            token,
            detailed,
            ts,
            nonce,
        );
    assert(token.kid.len() > 0 && token.mac_key.len() > 0);
    assert(ts is Some && nonce is Some);
    if !visible_key_id(token.kid) || (token.mac_algorithm is Some && token.mac_algorithm->0
        != "hmac-sha-1"@ && token.mac_algorithm->0 != "hmac-sha-256"@) {
        law_other_credentials_are_refused(region, client_id, token, detailed, ts->0, nonce->0);
    }
    law_usable_credential_makes_a_request(region, client_id, token, detailed, ts->0, nonce->0);
    let mark = "\",ts=\""@;
    assert(mark.len() > 0 && mark[0] == '"') by {
        reveal_strlit("\",ts=\"");
    }
    let message = encode_utf8(
        mac_message(
            ts->0,
            hex_text(nonce->0),
            "GET"@,
            (if detailed {
                "/account/profile/v1"@
            } else {
                "/account/basic-info/v1"@
            }) + "?"@ + ("client_id="@ + form_bytes(encode_utf8(client_id))),
            match region {
                Region::Cn => "open.tapapis.cn"@,
                Region::Global => "open.tapapis.com"@,
            },
            "443"@,
        ),
    );
    let code = if token.mac_algorithm == Some("hmac-sha-256"@) {
        hmac_sha256_of(encode_utf8(token.mac_key), message)
    } else {
        hmac_sha1_of(encode_utf8(token.mac_key), message)
    };
    lemma_begins(
        "MAC id=\""@,
        token.kid,
        mark,
        decimal_digits(ts->0 as nat),
        "\",nonce=\""@,
        hex_text(nonce->0),
        "\",mac=\""@,
        base64_padded(code),
        "\""@,
    );
    lemma_regroup(
        "https://"@,
        match region {
            Region::Cn => "open.tapapis.cn"@,
            Region::Global => "open.tapapis.com"@,
        },
        if detailed {
            "/account/profile/v1"@
        } else {
            "/account/basic-info/v1"@
        },
        "?"@,
        "client_id="@ + form_bytes(encode_utf8(client_id)),
    );
}

proof fn lemma_regroup(a: Seq<char>, b: Seq<char>, c: Seq<char>, d: Seq<char>, e: Seq<char>)
    ensures
        a + b + (c + d + e) == a + b + c + d + e,
{
    assert(a + b + (c + d + e) =~= a + b + c + d + e);
}

proof fn lemma_begins(
    a: Seq<char>,
    b: Seq<char>,
    c: Seq<char>,
    d: Seq<char>,
    e: Seq<char>,
    f: Seq<char>,
    g: Seq<char>,
    h: Seq<char>,
    i: Seq<char>,
)
    requires
        c.len() > 0,
        c[0] == '"',
    ensures
        (a + b + seq!['"']).is_prefix_of(a + b + c + d + e + f + g + h + i),
{
    let start = a + b + seq!['"'];
    let rest = c.skip(1) + d + e + f + g + h + i;
    assert(a + b + c + d + e + f + g + h + i =~= start + rest);
    assert((start + rest).subrange(0, start.len() as int) =~= start);
}

/// Where TapTap is asked for a profile.
pub open spec fn asked_url(region: Region, client_id: Seq<char>, detailed: bool) -> Seq<char> {
    "https://"@ + match region {
        Region::Cn => "open.tapapis.cn"@,
        Region::Global => "open.tapapis.com"@,
    } + (if detailed {
        "/account/profile/v1"@
    } else {
        "/account/basic-info/v1"@
    }) + "?"@ + ("client_id="@ + form_bytes(encode_utf8(client_id)))
}

/// A login through the SDK asks TapTap, on behalf of the client of the region, for the detailed profile
/// where the public profile is among the scopes, and for the basic one otherwise. Where the region has
/// no client nothing is asked, nor with a credential that cannot sign; one that can is turned down only
/// where there is no clock or no nonce.
pub proof fn law_sdk_login_asks_for_the_profile_in_scope(
    config: ConfigView,
    region: Region,
    token: AccessTokenView,
    scopes: Seq<String>,
    outcome: Result<SignedRequestView, ApiErrorView>,
)
    requires
        sdk_request_possible(
            config,
            region.open_text(),
            region,
            token,
            names_profile(scopes),
            outcome,
        ),
    ensures
        outcome matches Ok(request) ==> {
            &&& config.client(region) matches Some(client_id)
            &&& request.url == asked_url(
                region,
                client_id,
                exists|i: int| 0 <= i < scopes.len() && (#[trigger] scopes[i])@ == "public_profile"@,
            )
            &&& ("MAC id=\""@ + token.kid + seq!['"']).is_prefix_of(request.authorization)
        },
        config.client(region) is None ==> refused_with(outcome, 400, "region_not_configured"@),
        config.client(region) is Some && (token.kid.len() == 0 || token.mac_key.len() == 0)
            ==> refused_with(outcome, 401, "invalid_token"@),
        config.client(region) is Some && usable_credential(token) ==> outcome is Ok || refused_with(
            outcome,
            502,
            "taptap_unavailable"@,
        ),
        config.client(region) is Some && !usable_credential(token) ==> refused_with(
            outcome,
            401,
            "invalid_token"@,
        ) || refused_with(outcome, 502, "taptap_unavailable"@),
{
    if let Some(client_id) = config.client(region) {
        let detailed = names_profile(scopes);
        law_profile_is_asked_for_the_client(region, client_id, token, detailed, outcome);
        let asked = choose|asked: Result<SignedRequestView, TapErrorView>|
            #[trigger] profile_possible(region.open_text(), client_id, token, detailed, asked)
                && outcome == asked_or_refused(asked);
        if let Ok(request) = outcome {
            assert(asked == Ok::<SignedRequestView, TapErrorView>(request));
            lemma_asked_url(region, client_id, token, detailed, request);
            assert(detailed == exists|i: int|
                0 <= i < scopes.len() && (#[trigger] scopes[i])@ == "public_profile"@);
        }
    }
}

/// Asking for a profile on behalf of a client asks for just that. A credential that can sign is turned
/// down only where there is no clock or no nonce, and one that cannot is always turned down.
pub proof fn law_profile_is_asked_for_the_client(
    region: Region,
    client_id: Seq<char>,
    token: AccessTokenView,
    detailed: bool,
    outcome: Result<SignedRequestView, ApiErrorView>,
)
    requires
        profile_asked(region.open_text(), client_id, token, detailed, outcome),
    ensures
        outcome matches Ok(request) ==> {
            &&& request.url == asked_url(region, client_id, detailed)
            &&& ("MAC id=\""@ + token.kid + seq!['"']).is_prefix_of(request.authorization)
        },
        outcome is Err && usable_credential(token) ==> refused_with(
            outcome,
            502,
            "taptap_unavailable"@,
        ),
        !usable_credential(token) ==> refused_with(outcome, 401, "invalid_token"@) || refused_with(
            outcome,
            502,
            "taptap_unavailable"@,
        ),
{
    let asked = choose|asked: Result<SignedRequestView, TapErrorView>|
        #[trigger] profile_possible(region.open_text(), client_id, token, detailed, asked) && outcome
            == asked_or_refused(asked);
    if let Ok(request) = outcome {
        assert(asked == Ok::<SignedRequestView, TapErrorView>(request));
        lemma_asked_url(region, client_id, token, detailed, request);
        lemma_asked_usable(region, client_id, token, detailed, asked);
    } else {
        lemma_asked_error(region, client_id, token, detailed, asked);
    }
}

proof fn lemma_asked_usable(
    region: Region,
    client_id: Seq<char>,
    token: AccessTokenView,
    detailed: bool,
    asked: Result<SignedRequestView, TapErrorView>,
)
    requires
        profile_possible(region.open_text(), client_id, token, detailed, asked),
        asked is Ok,
    ensures
        usable_credential(token),
{
    let (ts, nonce) = choose|ts: Option<u64>, nonce: Option<Seq<u8>>|
        (nonce is Some ==> nonce->0.len() == 16) && asked == #[trigger] profile_outcome(
            region.open_text(),
            client_id,
            token,
            detailed,
            ts,
            nonce,
        );
    if token.kid.len() > 0 && token.mac_key.len() > 0 && (ts is None || nonce is None) {
        law_no_request_without_time_and_nonce(
            region.open_text(),
            client_id,
            token,
            detailed,
            ts,
            nonce,
        );
    } else if !usable_credential(token) && ts is Some && nonce is Some {
        law_other_credentials_are_refused(region, client_id, token, detailed, ts->0, nonce->0);
    }
}

proof fn lemma_asked_error(
    region: Region,
    client_id: Seq<char>,
    token: AccessTokenView,
    detailed: bool,
    asked: Result<SignedRequestView, TapErrorView>,
)
    requires
        profile_possible(region.open_text(), client_id, token, detailed, asked),
        asked is Err,
    ensures
        asked->Err_0 == TapErrorView::Rejected("invalid_token"@) || asked->Err_0
            == TapErrorView::Malformed,
        usable_credential(token) ==> asked->Err_0 == TapErrorView::Malformed,
{
    let (ts, nonce) = choose|ts: Option<u64>, nonce: Option<Seq<u8>>|
        (nonce is Some ==> nonce->0.len() == 16) && asked == #[trigger] profile_outcome(
            region.open_text(),
            client_id,
            token,
            detailed,
            ts,
            nonce,
        );
    if token.kid.len() > 0 && token.mac_key.len() > 0 {
        if ts is None || nonce is None {
            law_no_request_without_time_and_nonce(
                region.open_text(),
                client_id,
                token,
                detailed,
                ts,
                nonce,
            );
        } else if !visible_key_id(token.kid) || (token.mac_algorithm is Some && token.mac_algorithm->0
            != "hmac-sha-1"@ && token.mac_algorithm->0 != "hmac-sha-256"@) {
            law_other_credentials_are_refused(region, client_id, token, detailed, ts->0, nonce->0);
        } else {
            law_usable_credential_makes_a_request(
                region,
                client_id,
                token,
                detailed,
                ts->0,
                nonce->0,
            );
        }
    }
}

/// The claims of a session as they are written: who issued it, the player's open ID, the region, and the
/// times at which it was issued and ends, a day later.
pub proof fn law_claims_are_written(openid: Seq<char>, region: Region, now: u64)
    requires
        now <= u64::MAX - 86400,
    ensures
        object_text(claims_members(session_claims(openid, region, now)))
            == "{\"iss\":\"taptap-rback\",\"sub\":"@ + (json_quoted(openid) + (match region {
            Region::Cn => ",\"region\":\"cn\",\"iat\":"@,
            Region::Global => ",\"region\":\"global\",\"iat\":"@,
        } + (decimal_digits(now as nat) + (",\"exp\":"@ + (decimal_digits((now + 86400) as nat)
            + "}"@))))),
{
    let list = claims_members(session_claims(openid, region, now));
    lemma_five_members(list);
    lemma_claim_keys();
    let name = region.name_text();
    let o = json_quoted(openid);
    let i = decimal_digits(now as nat);
    let e = decimal_digits((now + 86400) as nat);
    let r4 = e + seq!['}'];
    let r3 = i + (claim_key(',', "exp"@) + r4);
    let r2 = json_quoted(name) + (claim_key(',', "iat"@) + r3);
    let r1 = o + (claim_key(',', "region"@) + r2);
    lemma_member_behind(',', "exp"@, list[4].1, seq!['}']);
    lemma_member_behind(',', "iat"@, list[3].1, claim_key(',', "exp"@) + r4);
    lemma_member_behind(',', "region"@, list[2].1, claim_key(',', "iat"@) + r3);
    lemma_member_behind(',', "sub"@, list[1].1, claim_key(',', "region"@) + r2);
    lemma_member_behind('{', "iss"@, list[0].1, claim_key(',', "sub"@) + r1);
    let between = match region {
        Region::Cn => ",\"region\":\"cn\",\"iat\":"@,
        Region::Global => ",\"region\":\"global\",\"iat\":"@,
    };
    lemma_group(claim_key('{', "iss"@), json_quoted(ISSUER@), claim_key(',', "sub"@), r1);
    lemma_group(claim_key(',', "region"@), json_quoted(name), claim_key(',', "iat"@), r3);
    assert(claim_key(',', "region"@) + json_quoted(name) + claim_key(',', "iat"@) == between);
    assert("}"@ =~= seq!['}']) by {
        reveal_strlit("}");
    }
}

/// The beginning of a member behind a mark.
spec fn claim_key(mark: char, name: Seq<char>) -> Seq<char> {
    seq![mark, '"'] + name + seq!['"', ':']
}

proof fn lemma_group(a: Seq<char>, b: Seq<char>, c: Seq<char>, d: Seq<char>)
    ensures
        a + (b + (c + d)) == (a + b + c) + d,
{
    assert(a + (b + (c + d)) =~= (a + b + c) + d);
}

proof fn lemma_claim_keys()
    ensures
        json_quoted("iss"@) == seq!['"'] + "iss"@ + seq!['"'],
        json_quoted("sub"@) == seq!['"'] + "sub"@ + seq!['"'],
        json_quoted("region"@) == seq!['"'] + "region"@ + seq!['"'],
        json_quoted("iat"@) == seq!['"'] + "iat"@ + seq!['"'],
        json_quoted("exp"@) == seq!['"'] + "exp"@ + seq!['"'],
        claim_key('{', "iss"@) + json_quoted("taptap-rback"@) + claim_key(',', "sub"@)
            == "{\"iss\":\"taptap-rback\",\"sub\":"@,
        claim_key(',', "region"@) + json_quoted("cn"@) + claim_key(',', "iat"@)
            == ",\"region\":\"cn\",\"iat\":"@,
        claim_key(',', "region"@) + json_quoted("global"@) + claim_key(',', "iat"@)
            == ",\"region\":\"global\",\"iat\":"@,
        claim_key(',', "exp"@) == ",\"exp\":"@,
{
    reveal_strlit("iss");
    reveal_strlit("sub");
    reveal_strlit("region");
    reveal_strlit("iat");
    reveal_strlit("exp");
    reveal_strlit("cn");
    reveal_strlit("global");
    reveal_strlit("taptap-rback");
    reveal_strlit("{\"iss\":\"taptap-rback\",\"sub\":");
    reveal_strlit(",\"region\":\"cn\",\"iat\":");
    reveal_strlit(",\"region\":\"global\",\"iat\":");
    reveal_strlit(",\"exp\":");
    lemma_plain_quoted("iss"@);
    lemma_plain_quoted("sub"@);
    lemma_plain_quoted("region"@);
    lemma_plain_quoted("iat"@);
    lemma_plain_quoted("exp"@);
    lemma_plain_quoted("cn"@);
    lemma_plain_quoted("global"@);
    lemma_plain_quoted("taptap-rback"@);
    assert(claim_key('{', "iss"@) + json_quoted("taptap-rback"@) + claim_key(',', "sub"@)
        =~= "{\"iss\":\"taptap-rback\",\"sub\":"@);
    assert(claim_key(',', "region"@) + json_quoted("cn"@) + claim_key(',', "iat"@)
        =~= ",\"region\":\"cn\",\"iat\":"@);
    assert(claim_key(',', "region"@) + json_quoted("global"@) + claim_key(',', "iat"@)
        =~= ",\"region\":\"global\",\"iat\":"@);
    assert(claim_key(',', "exp"@) =~= ",\"exp\":"@);
}

/// The text of an object of five members.
proof fn lemma_five_members(list: Seq<(Seq<char>, JsonView)>)
    requires
        list.len() == 5,
    ensures
        object_text(list) == seq!['{'] + (member_text(list[0]) + (seq![','] + (member_text(list[1]) + (
        seq![','] + (member_text(list[2]) + (seq![','] + (member_text(list[3]) + (seq![','] + (
        member_text(list[4]) + seq!['}']))))))))),
{
    let l1 = list.drop_first();
    let l2 = l1.drop_first();
    let l3 = l2.drop_first();
    let l4 = l3.drop_first();
    assert(l1[0] == list[1] && l2[0] == list[2] && l3[0] == list[3] && l4[0] == list[4]);
    let m0 = member_text(list[0]);
    let m1 = member_text(list[1]);
    let m2 = member_text(list[2]);
    let m3 = member_text(list[3]);
    let m4 = member_text(list[4]);
    assert(members_text(l4) == m4);
    assert(members_text(l3) == m3 + seq![','] + members_text(l4));
    assert(members_text(l2) == m2 + seq![','] + members_text(l3));
    assert(members_text(l1) == m1 + seq![','] + members_text(l2));
    assert(members_text(list) == m0 + seq![','] + members_text(l1));
    let end = seq!['}'];
    let comma = seq![','];
    assert((m3 + comma + m4) + end =~= m3 + (comma + (m4 + end)));
    assert((m2 + comma + (m3 + comma + m4)) + end =~= m2 + (comma + ((m3 + comma + m4) + end)));
    assert((m1 + comma + members_text(l2)) + end =~= m1 + (comma + (members_text(l2) + end)));
    assert((m0 + comma + members_text(l1)) + end =~= m0 + (comma + (members_text(l1) + end)));
    assert(object_text(list) =~= seq!['{'] + (members_text(list) + end));
}

proof fn lemma_plain_quoted(s: Seq<char>)
    requires
        forall|i: int| 0 <= i < s.len() ==> 'a' <= #[trigger] s[i] <= 'z' || s[i] == '-',
    ensures
        json_quoted(s) == seq!['"'] + s + seq!['"'],
{
    lemma_plain_expand(s);
}

proof fn lemma_plain_expand(s: Seq<char>)
    requires
        forall|i: int| 0 <= i < s.len() ==> 'a' <= #[trigger] s[i] <= 'z' || s[i] == '-',
    ensures
        expand(s, |c: char| json_escape(c)) == s,
    decreases s.len(),
{
    let f = |c: char| json_escape(c);
    if s.len() == 0 {
        assert(expand(s, f) =~= s);
    } else {
        let rest = s.drop_first();
        assert forall|i: int| 0 <= i < rest.len() implies 'a' <= #[trigger] rest[i] <= 'z' || rest[i]
            == '-' by {
            assert(rest[i] == s[i + 1]);
        }
        lemma_plain_expand(rest);
        assert(f(s[0]) =~= seq![s[0]]);
        assert(expand(s, f) =~= s);
    }
}

/// Who gets a session and which: whoever has an open ID and a union ID gets a bearer token for a day,
/// signed for their open ID and region, together with the profile as it is. A profile without one of
/// the IDs is refused, and so is a clock that cannot be read or is too late.
pub proof fn law_session_is_issued(
    secret: Seq<u8>,
    region: Region,
    user: ProfileView,
    now: Option<u64>,
)
    ensures
        ({
            let outcome = login_outcome(secret, region, user, now);
            if user.openid.len() == 0 || user.unionid.len() == 0 {
                refused_with(outcome, 502, "invalid_taptap_profile"@)
            } else if now is None || now->0 + 86400 > u64::MAX {
                refused_with(outcome, 500, "clock_error"@)
            } else {
                let claims = "{\"iss\":\"taptap-rback\",\"sub\":"@ + (json_quoted(user.openid) + (
                match region {
                    Region::Cn => ",\"region\":\"cn\",\"iat\":"@,
                    Region::Global => ",\"region\":\"global\",\"iat\":"@,
                } + (decimal_digits(now->0 as nat) + (",\"exp\":"@ + (decimal_digits(
                    (now->0 + 86400) as nat,
                ) + "}"@)))));
                match signed_token(claims, secret) {
                    Some(token) => outcome matches Ok(login) && login.token_type == "Bearer"@
                        && login.session_token == token && login.expires_in == 86400 && login.region
                        == region && login.user == user,
                    None => refused_with(outcome, 500, "session_error"@),
                }
            }
        }),
{
    if now is Some && now->0 + 86400 <= u64::MAX {
        law_claims_are_written(user.openid, region, now->0);
    }
}

/// A login ends with the session for the profile that TapTap answered, or passes its refusal on.
pub proof fn law_login_follows_the_answer(
    secret: Seq<u8>,
    region: Region,
    user: ProfileView,
    e: TapErrorView,
    now: Option<u64>,
)
    ensures
        finished_login(secret, region, Ok(user), now) == login_outcome(secret, region, user, now),
        finished_login(secret, region, Err(e), now) == Err::<LoginView, ApiErrorView>(tap_refusal(e)),
        login_owed(Ok(user), now) <==> user.openid.len() > 0 && user.unionid.len() > 0 && now is Some
            && now->0 + 86400 <= u64::MAX,
        !login_owed(Err(e), now),
{
}

/// A request belongs to the session whose token it bears: a token that is valid, names this service as
/// its issuer and was not issued later than now. A request that bears none is refused, and so is every
/// other token.
pub proof fn law_request_belongs_to_its_session(
    header: Option<Seq<char>>,
    token: Seq<char>,
    secret: Seq<u8>,
    time: u64,
    clock: Option<u64>,
)
    ensures
        (forall|t: Seq<char>| header != Some(#[trigger] ("Bearer "@ + t))) ==> refused_with(me_outcome(
            header,
            secret,
            time,
            clock,
        ), 401, "missing_bearer_token"@),
        ({
            let outcome = me_outcome(Some("Bearer "@ + token), secret, time, clock);
            if !token_valid(token, secret, time) || claims_in(token) is None || claims_in(token)->0.iss
                != "taptap-rback"@ {
                refused_with(outcome, 401, "invalid_session"@)
            } else if clock is None {
                refused_with(outcome, 500, "clock_error"@)
            } else if claims_in(token)->0.iat > clock->0 {
                refused_with(outcome, 401, "invalid_session"@)
            } else {
                outcome == Ok::<ClaimsView, ApiErrorView>(claims_in(token)->0)
            }
        }),
{
    law_bearer_token_is_read_back(token);
    if let Some(text) = header {
        if "Bearer "@.is_prefix_of(text) {
            let rest = text.skip("Bearer "@.len() as int);
            assert(text =~= "Bearer "@ + rest);
            assert(header == Some("Bearer "@ + rest));
        }
    }
}

/// A session ends: a day and a minute after it was issued its token is refused.
pub proof fn law_session_ends(
    secret: Seq<u8>,
    login: LoginView,
    issued: u64,
    time: u64,
    clock: u64,
)
    requires
        login_holds(secret, Ok(login), Some(issued)),
        issued <= clock,
        60 <= time,
        issued + 86400 + 60 < time,
    ensures
        refused_with(me_outcome(Some("Bearer "@ + login.session_token), secret, time, Some(clock)), 401, "invalid_session"@),
{
}

/// Whether a list has one member with a name, with the given text.
pub open spec fn stands_once(
    list: Seq<(Seq<char>, Seq<u8>)>,
    name: Seq<char>,
    bytes: Seq<u8>,
) -> bool {
    exists|i: int|
        {
            &&& 0 <= i < list.len()
            &&& #[trigger] list[i] == (name, bytes)
            &&& forall|j: int| 0 <= j < list.len() && j != i ==> (#[trigger] list[j]).0 != name
        }
}

/// Whether a list has no member with a name, or more than one.
pub open spec fn missing_or_repeated(list: Seq<(Seq<char>, Seq<u8>)>, name: Seq<char>) -> bool {
    ||| forall|j: int| 0 <= j < list.len() ==> (#[trigger] list[j]).0 != name
    ||| exists|i: int, j: int|
        0 <= i < j < list.len() && (#[trigger] list[i]).0 == name && (#[trigger] list[j]).0 == name
}

proof fn lemma_values_none(list: Seq<(Seq<char>, Seq<u8>)>, name: Seq<char>)
    requires
        forall|j: int| 0 <= j < list.len() ==> (#[trigger] list[j]).0 != name,
    ensures
        values_of(list, name) == Seq::<Seq<u8>>::empty(),
    decreases list.len(),
{
    if list.len() > 0 {
        assert(list.last() == list[list.len() - 1]);
        assert forall|j: int| 0 <= j < list.drop_last().len() implies (#[trigger] list.drop_last()[j]).0
            != name by {
            assert(list.drop_last()[j] == list[j]);
        }
        lemma_values_none(list.drop_last(), name);
    }
}

proof fn lemma_values_len(list: Seq<(Seq<char>, Seq<u8>)>, name: Seq<char>, i: int)
    requires
        0 <= i < list.len(),
        list[i].0 == name,
    ensures
        values_of(list, name).len() >= 1,
    decreases list.len(),
{
    if i < list.len() - 1 {
        assert(list.drop_last()[i] == list[i]);
        lemma_values_len(list.drop_last(), name, i);
    }
}

proof fn lemma_values_two(list: Seq<(Seq<char>, Seq<u8>)>, name: Seq<char>, i: int, j: int)
    requires
        0 <= i < j < list.len(),
        list[i].0 == name,
        list[j].0 == name,
    ensures
        values_of(list, name).len() >= 2,
    decreases list.len(),
{
    let rest = list.drop_last();
    assert(rest[i] == list[i]);
    if j < list.len() - 1 {
        assert(rest[j] == list[j]);
        lemma_values_two(rest, name, i, j);
    } else {
        lemma_values_len(rest, name, i);
    }
}

proof fn lemma_values_once(list: Seq<(Seq<char>, Seq<u8>)>, name: Seq<char>, i: int)
    requires
        0 <= i < list.len(),
        list[i].0 == name,
        forall|j: int| 0 <= j < list.len() && j != i ==> (#[trigger] list[j]).0 != name,
    ensures
        values_of(list, name) == seq![list[i].1],
    decreases list.len(),
{
    let rest = list.drop_last();
    assert forall|j: int| 0 <= j < rest.len() && j != i implies (#[trigger] rest[j]).0 != name by {
        assert(rest[j] == list[j]);
    }
    if i < list.len() - 1 {
        assert(rest[i] == list[i]);
        assert(list[list.len() - 1].0 != name);
        lemma_values_once(rest, name, i);
    } else {
        lemma_values_none(rest, name);
        assert(values_of(list, name) =~= seq![list[i].1]);
    }
}

proof fn lemma_single(list: Seq<(Seq<char>, Seq<u8>)>, name: Seq<char>, bytes: Seq<u8>)
    requires
        stands_once(list, name, bytes),
    ensures
        single_of(list, name) == Some(bytes),
{
    let i = choose|i: int|
        {
            &&& 0 <= i < list.len()
            &&& #[trigger] list[i] == (name, bytes)
            &&& forall|j: int| 0 <= j < list.len() && j != i ==> (#[trigger] list[j]).0 != name
        };
    lemma_values_once(list, name, i);
}

proof fn lemma_not_single(list: Seq<(Seq<char>, Seq<u8>)>, name: Seq<char>)
    requires
        missing_or_repeated(list, name),
    ensures
        single_of(list, name) is None,
{
    if forall|j: int| 0 <= j < list.len() ==> (#[trigger] list[j]).0 != name {
        lemma_values_none(list, name);
    } else {
        let (i, j) = choose|i: int, j: int|
            0 <= i < j < list.len() && (#[trigger] list[i]).0 == name && (#[trigger] list[j]).0 == name;
        lemma_values_two(list, name, i, j);
    }
}

/// The region that the text of a claim names: a string with its name, or an object with its name for the
/// only member and `null` for the value of that.
pub open spec fn named_region(bytes: Seq<u8>) -> Option<Region> {
    let name = match scalar_of(bytes) {
        Some(JsonView::Text(name)) => Some(name),
        Some(_) => None,
        None => match object_members(bytes) {
            Some(list) => if list.len() == 1 && scalar_of(list[0].1) == Some(JsonView::Null) {
                Some(list[0].0)
            } else {
                None
            },
            None => None,
        },
    };
    if name == Some("cn"@) {
        Some(Region::Cn)
    } else if name == Some("global"@) {
        Some(Region::Global)
    } else {
        None
    }
}

/// Claims are read where each of the five stands once and is of its kind, wherever it stands and
/// whatever else there is.
pub proof fn law_claims_are_found(
    list: Seq<(Seq<char>, Seq<u8>)>,
    iss: Seq<u8>,
    sub: Seq<u8>,
    region: Seq<u8>,
    iat: Seq<u8>,
    exp: Seq<u8>,
)
    requires
        stands_once(list, "iss"@, iss),
        stands_once(list, "sub"@, sub),
        stands_once(list, "region"@, region),
        stands_once(list, "iat"@, iat),
        stands_once(list, "exp"@, exp),
    ensures
        claims_of(list) == match (
            scalar_of(iss),
            scalar_of(sub),
            named_region(region),
            scalar_of(iat),
            scalar_of(exp),
        ) {
            (
                Some(JsonView::Text(iss)),
                Some(JsonView::Text(sub)),
                Some(region),
                Some(JsonView::Unsigned(iat)),
                Some(JsonView::Unsigned(exp)),
            ) => Some(ClaimsView { iss, sub, region, iat, exp }),
            _ => None,
        },
{
    lemma_single(list, "iss"@, iss);
    lemma_single(list, "sub"@, sub);
    lemma_single(list, "region"@, region);
    lemma_single(list, "iat"@, iat);
    lemma_single(list, "exp"@, exp);
    reveal_strlit("cn");
    reveal_strlit("global");
    assert("cn"@.len() != "global"@.len());
}

/// Claims of which one is missing or repeated are no claims.
pub proof fn law_missing_or_repeated_claims_are_refused(list: Seq<(Seq<char>, Seq<u8>)>)
    requires
        missing_or_repeated(list, "iss"@) || missing_or_repeated(list, "sub"@) || missing_or_repeated(
            list,
            "region"@,
        ) || missing_or_repeated(list, "iat"@) || missing_or_repeated(list, "exp"@),
    ensures
        claims_of(list) is None,
{
    if missing_or_repeated(list, "iss"@) {
        lemma_not_single(list, "iss"@);
    } else if missing_or_repeated(list, "sub"@) {
        lemma_not_single(list, "sub"@);
    } else if missing_or_repeated(list, "region"@) {
        lemma_not_single(list, "region"@);
    } else if missing_or_repeated(list, "iat"@) {
        lemma_not_single(list, "iat"@);
    } else {
        lemma_not_single(list, "exp"@);
    }
}

/// The claims of a token are those of the object that stands in Base64 between its last two dots.
pub proof fn law_claims_stand_in_the_token(
    header: Seq<char>,
    bytes: Seq<u8>,
    signature: Seq<char>,
)
    requires
        !signature.contains('.'),
    ensures
        claims_in(header + seq!['.'] + base64_url(bytes) + seq!['.'] + signature)
            == match object_members(bytes) {
            Some(list) => claims_of(list),
            None => None,
        },
{
    let payload = base64_url(bytes);
    assert(!payload.contains('.')) by {
        if payload.contains('.') {
            let i = choose|i: int| 0 <= i < payload.len() && payload[i] == '.';
            lemma_sextet_range(bytes, i);
        }
    }
    law_token_falls_apart(header, payload, signature);
    law_base64_url_is_read_back(bytes);
}

/// Claims and what is handed over stand for the values of all their fields.
pub proof fn law_claims_stand_for_their_fields(
    claims: Claims,
    header: &str,
    user: Profile,
    e: TapError,
)
    ensures
        claims@.iss == claims.iss@,
        claims@.sub == claims.sub@,
        claims@.region == claims.region,
        claims@.iat == claims.iat,
        claims@.exp == claims.exp,
        optional_claims(Some(claims)) == Some(claims@),
        optional_claims(None) is None,
        optional_str(Some(header)) == Some(header@),
        optional_str(None) is None,
        profile_reply(Ok(user)) == Ok::<ProfileView, TapErrorView>(user@),
        profile_reply(Err(e)) == Err::<ProfileView, TapErrorView>(e@),
{
}

/// Members whose values may be nested stand for their names and values, one by one.
pub proof fn law_scalars_stand_for_what_they_hold(list: Vec<(String, Option<Json>)>, value: Json)
    ensures
        optional_json(Some(value)) == Some(value@),
        optional_json(None) is None,
        optional_scalars_of(None) is None,
        ({
            &&& optional_scalars_of(Some(list)) matches Some(stated)
            &&& stated.len() == list@.len()
            &&& forall|i: int|
                0 <= i < list@.len() ==> #[trigger] stated[i] == (
                    list@[i].0@,
                    match list@[i].1 {
                        Some(value) => Some(value@),
                        None => None,
                    },
                )
        }),
{
}

/// A token whose payload is no Base64 states nothing, and neither does one without dots.
pub proof fn law_other_payloads_state_nothing(
    header: Seq<char>,
    payload: Seq<char>,
    signature: Seq<char>,
)
    requires
        !payload.contains('.'),
        !signature.contains('.'),
        forall|bytes: Seq<u8>| #[trigger] base64_url(bytes) != payload,
    ensures
        claims_in(header + seq!['.'] + payload + seq!['.'] + signature) is None,
        claims_in(payload + seq!['.'] + signature) is None,
        claims_in(signature) is None,
{
    law_token_falls_apart(header, payload, signature);
    law_short_token_falls_apart(payload, signature);
    law_nothing_else_is_base64_url(payload);
    let empty = payload_part(signature);
    law_nothing_else_is_base64_url(empty);
    if let Some(bytes) = base64_url_bytes(empty) {
        assert(base64_url(bytes).len() == 0);
        assert(bytes.len() == 0);
        assert(object_members(bytes) is None);
    }
}

} // verus!
