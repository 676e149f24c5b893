//! JSON Web Tokens signed with HMAC-SHA256.

use vstd::prelude::*;
use vstd::utf8::encode_utf8;

use crate::crypto::hmac_sha256_of;
use crate::encoding::base64_url;
use crate::json::JsonView;
use crate::json::distinct_names;
use crate::json::flat;
use crate::json::object_text;
use crate::json::value_of;
use crate::text::chars_of;
use crate::text::text_of;

verus! {

/// The HS256 token for the claims in the JSON text `claims` under `secret`; `None` where there is
/// none.
pub uninterp spec fn signed_token(claims: Seq<char>, secret: Seq<u8>) -> Option<Seq<char>>;

/// Whether the HS256 signature of `token` under `secret` holds and its claims, which are JSON, state an
/// expiry that has not passed when the clock stands at `time` seconds.
pub uninterp spec fn token_valid(token: Seq<char>, secret: Seq<u8>, time: u64) -> bool;

/// How many seconds past its expiry a token is still taken.
pub open spec fn expiry_leeway() -> nat {
    60
}

/// The expiry that a list of claims states.
pub open spec fn stated_expiry(list: Seq<(Seq<char>, JsonView)>) -> Option<u64> {
    match value_of(list, "exp"@) {
        Some(JsonView::Unsigned(exp)) => Some(exp),
        _ => None,
    }
}

/// Claims with an expiry, with issuer and subject given as strings and with neither an audience nor
/// a start of validity.
pub open spec fn plain_claims(list: Seq<(Seq<char>, JsonView)>) -> bool {
    &&& flat(list)
    &&& distinct_names(list)
    &&& stated_expiry(list) is Some
    &&& value_of(list, "iss"@) matches Some(JsonView::Text(_))
    &&& value_of(list, "sub"@) matches Some(JsonView::Text(_))
    &&& value_of(list, "aud"@) is None
    &&& value_of(list, "nbf"@) is None
}

/// What the signature of a token covers: everything before its last dot.
pub open spec fn signed_part(token: Seq<char>) -> Seq<char>
    decreases token.len(),
{
    if token.len() == 0 {
        token
    } else if token.last() == '.' {
        token.drop_last()
    } else {
        signed_part(token.drop_last())
    }
}

/// Whether two secrets give the part of a token that is signed the same code.
pub open spec fn same_signature(token: Seq<char>, a: Seq<u8>, b: Seq<u8>) -> bool {
    hmac_sha256_of(a, encode_utf8(signed_part(token))) == hmac_sha256_of(
        b,
        encode_utf8(signed_part(token)),
    )
}

/// What stands behind the last dot of a text, or all of it where there is none.
pub open spec fn last_part(text: Seq<char>) -> Seq<char>
    decreases text.len(),
{
    if text.len() == 0 || text.last() == '.' {
        Seq::empty()
    } else {
        last_part(text.drop_last()).push(text.last())
    }
}

/// The part of a token that holds its claims: what stands between its last two dots.
pub open spec fn payload_part(token: Seq<char>) -> Seq<char> {
    last_part(signed_part(token))
}

/// Calls `jsonwebtoken::encode` with an HS256 header and the claims as they are written. Plain
/// claims are always signed. They stand in the token as they are written, between its last two dots
/// and in Base64, and the token is valid under the same secret as long as the clock is not past their
/// expiry by more than the leeway. The signature is the HMAC-SHA256 code of what stands before the
/// last dot, so under a secret that gives another code the token is not valid at any time.
#[verifier::external_body]
pub(crate) fn sign_claims(claims: &str, secret: &[u8]) -> (res: Option<String>)
    ensures
        res is Some <==> signed_token(claims@, secret@) is Some,
        res matches Some(token) ==> signed_token(claims@, secret@) == Some(token@),
        forall|list: Seq<(Seq<char>, JsonView)>|
            claims@ == #[trigger] object_text(list) && plain_claims(list) ==> res is Some
                && payload_part(res->0@) == base64_url(encode_utf8(object_text(list))),
        forall|list: Seq<(Seq<char>, JsonView)>, time: u64|
            claims@ == #[trigger] object_text(list) && plain_claims(list) && expiry_leeway() <= time
                ==> #[trigger] token_valid(res->0@, secret@, time) == (time <= stated_expiry(list)->0
                + expiry_leeway()),
        forall|other: Seq<u8>, time: u64|
            res is Some && !same_signature(res->0@, secret@, other) ==> !(#[trigger] token_valid(
                res->0@,
                other,
                time,
            )),
{
    let claims = serde_json::value::RawValue::from_string(claims.to_owned()).ok()?;
    let header = jsonwebtoken::Header::new(jsonwebtoken::Algorithm::HS256);
    jsonwebtoken::encode(&header, &claims, &jsonwebtoken::EncodingKey::from_secret(secret)).ok()
}

/// Calls `jsonwebtoken::decode` with the default validation for HS256, which checks the signature
/// and the expiry, and skips the claims. The call reads the clock itself: its outcome is that of the
/// token at some time, which is left open. It counts on a clock that stands past the Unix epoch by
/// the leeway at least.
#[verifier::external_body]
pub(crate) fn verify_token(token: &str, secret: &[u8]) -> (res: bool)
    ensures
        exists|time: u64| res == #[trigger] token_valid(token@, secret@, time),
{
    let validation = jsonwebtoken::Validation::new(jsonwebtoken::Algorithm::HS256);
    let key = jsonwebtoken::DecodingKey::from_secret(secret);
    jsonwebtoken::decode::<serde::de::IgnoredAny>(token, &key, &validation).is_ok()
}

/// Takes the part out of a token that holds its claims.
pub fn token_payload(token: &str) -> (res: String)
    ensures
        res@ == payload_part(token@),
{
    let chars = chars_of(token);
    let mut end: usize = chars.len();
    assert(token@.take(end as int) =~= token@);
    while end > 0 && chars[end - 1] != '.'
        invariant
            chars@ == token@,
            end <= chars@.len(),
            signed_part(token@) == signed_part(token@.take(end as int)),
        decreases end,
    {
        assert(token@.take(end as int).last() == chars@[end - 1]);
        assert(token@.take(end as int).drop_last() =~= token@.take(end - 1));
        end = end - 1;
    }
    if end == 0 {
        assert(signed_part(token@) =~= token@.take(0));
    } else {
        assert(token@.take(end as int).last() == '.');
        assert(token@.take(end as int).drop_last() =~= token@.take(end - 1));
        end = end - 1;
    }
    let ghost part = token@.take(end as int);
    assert(signed_part(token@) == part);
    let mut start: usize = end;
    assert(part.take(start as int) =~= part);
    assert(part.skip(start as int) =~= Seq::empty());
    assert(last_part(part) =~= last_part(part.take(start as int)) + part.skip(start as int));
    while start > 0 && chars[start - 1] != '.'
        invariant
            chars@ == token@,
            start <= end <= chars@.len(),
            part == token@.take(end as int),
            last_part(part) == last_part(part.take(start as int)) + part.skip(start as int),
        decreases start,
    {
        let ghost head = part.take(start as int);
        assert(head.last() == chars@[start - 1]);
        assert(head.drop_last() =~= part.take(start - 1));
        assert(last_part(head.drop_last()).push(head.last()) + part.skip(start as int)
            =~= last_part(part.take(start - 1)) + part.skip(start - 1));
        start = start - 1;
    }
    proof {
        if start > 0 {
            assert(part.take(start as int).last() == '.');
        }
        assert(last_part(part.take(start as int)) =~= Seq::empty());
        assert(last_part(part) =~= token@.subrange(start as int, end as int));
    }
    text_of(&chars, start, end)
}

/// A token falls apart at its last two dots: what stands between them holds the claims, and what
/// stands before the last one is signed.
pub proof fn law_token_falls_apart(header: Seq<char>, payload: Seq<char>, signature: Seq<char>)
    requires
        !payload.contains('.'),
        !signature.contains('.'),
    ensures
        ({
            let signed = header + seq!['.'] + payload;
            let token = signed + seq!['.'] + signature;
            &&& signed_part(token) == signed
            &&& payload_part(token) == payload
        }),
{
    let signed = header + seq!['.'] + payload;
    lemma_signed_part(signed, signature);
    lemma_last_part(header, payload);
}

proof fn lemma_signed_part(signed: Seq<char>, signature: Seq<char>)
    requires
        !signature.contains('.'),
    ensures
        signed_part(signed + seq!['.'] + signature) == signed,
    decreases signature.len(),
{
    let token = signed + seq!['.'] + signature;
    if signature.len() == 0 {
        assert(token.last() == '.');
        assert(token.drop_last() =~= signed);
    } else {
        assert(token.last() == signature[signature.len() - 1]);
        assert(token.drop_last() =~= signed + seq!['.'] + signature.drop_last());
        assert(!signature.drop_last().contains('.')) by {
            if signature.drop_last().contains('.') {
                let i = choose|i: int|
                    0 <= i < signature.drop_last().len() && signature.drop_last()[i] == '.';
                assert(signature[i] == '.');
            }
        }
        lemma_signed_part(signed, signature.drop_last());
    }
}

proof fn lemma_last_part(header: Seq<char>, payload: Seq<char>)
    requires
        !payload.contains('.'),
    ensures
        last_part(header + seq!['.'] + payload) == payload,
    decreases payload.len(),
{
    let text = header + seq!['.'] + payload;
    if payload.len() == 0 {
        assert(text.last() == '.');
        assert(payload =~= Seq::empty());
    } else {
        assert(text.last() == payload[payload.len() - 1]);
        assert(text.drop_last() =~= header + seq!['.'] + payload.drop_last());
        assert(!payload.drop_last().contains('.')) by {
            if payload.drop_last().contains('.') {
                let i = choose|i: int|
                    0 <= i < payload.drop_last().len() && payload.drop_last()[i] == '.';
                assert(payload[i] == '.');
            }
        }
        lemma_last_part(header, payload.drop_last());
        assert(payload.drop_last().push(payload.last()) =~= payload);
    }
}

/// A token with less than two dots: without any, nothing in it is signed; with one, what stands before
/// it holds the claims.
pub proof fn law_short_token_falls_apart(payload: Seq<char>, signature: Seq<char>)
    requires
        !payload.contains('.'),
        !signature.contains('.'),
    ensures
        signed_part(signature).len() == 0,
        payload_part(signature).len() == 0,
        signed_part(payload + seq!['.'] + signature) == payload,
        payload_part(payload + seq!['.'] + signature) == payload,
{
    lemma_signed_part(payload, signature);
    lemma_no_dot(payload);
    lemma_no_dot(signature);
}

proof fn lemma_no_dot(text: Seq<char>)
    requires
        !text.contains('.'),
    ensures
        signed_part(text).len() == 0,
        last_part(text) == text,
    decreases text.len(),
{
    if text.len() > 0 {
        assert(text[text.len() - 1] != '.');
        assert(!text.drop_last().contains('.')) by {
            if text.drop_last().contains('.') {
                let i = choose|i: int| 0 <= i < text.len() - 1 && text.drop_last()[i] == '.';
                assert(text[i] == '.');
            }
        }
        lemma_no_dot(text.drop_last());
        assert(text.drop_last().push(text.last()) =~= text);
    } else {
        assert(text =~= Seq::empty());
    }
}

} // verus!
