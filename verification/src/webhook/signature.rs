//! Webhook signature verification.
//!
//! GitHub signs the raw request body with HMAC-SHA-256 and delivers the hex
//! digest in the `X-Hub-Signature-256` header prefixed with `sha256=`. GitLab
//! sends the shared secret token in plaintext via the `X-Gitlab-Token` header
//! and the receiver compares it constant-time against the configured value.
//!
//! The window of [`is_fresh`] matters even when the signature is valid: a
//! captured delivery stays bit-equal forever, and only the freshness check
//! rejects it.

use crate::boundary;
use crate::text;
use vstd::prelude::*;

verus! {

/// HTTP header GitHub uses to deliver the HMAC-SHA-256 signature of the request
/// body. The value is `sha256=` and 64 hex digits.
pub const GITHUB_SIGNATURE_HEADER: &'static str = "X-Hub-Signature-256";

/// HTTP header GitLab uses to deliver the shared secret token.
pub const GITLAB_TOKEN_HEADER: &'static str = "X-Gitlab-Token";

/// Why a delivery is refused.
#[derive(Clone, Copy, Debug, PartialEq, Eq, Structural)]
pub enum SignatureError {
    /// Signature header had a value the validator can't make sense of (wrong
    /// prefix, wrong length, non-hex characters, or an empty token).
    Malformed,
    /// Signature/token format was OK but the verification failed.
    BadSignature,
    /// The event's timestamp is outside the configured freshness window.
    Stale,
}

impl SignatureError {
    /// The error in words.
    #[must_use]
    pub fn message(&self) -> (r: &'static str)
        ensures
            r@ == match *self {
                SignatureError::Malformed => "malformed signature header"@,
                SignatureError::BadSignature => "bad signature"@,
                SignatureError::Stale => "stale event (outside freshness window)"@,
            },
    {
        match self {
            SignatureError::Malformed => "malformed signature header",
            SignatureError::BadSignature => "bad signature",
            SignatureError::Stale => "stale event (outside freshness window)",
        }
    }
}

/// The digest that a signature header carries: after `sha256=`, sixty-four hex
/// digits of either case.
pub open spec fn digest_of(header_value: Seq<char>) -> Option<Seq<u8>> {
    let prefix = "sha256="@;
    if text::begins_with(header_value, prefix) {
        match text::hex32_of(
            vstd::utf8::encode_utf8(header_value.skip(prefix.len() as int)),
            true,
        ) {
            Ok(d) => Some(d),
            Err(_) => None,
        }
    } else {
        None
    }
}

/// The verdict on a GitHub delivery.
pub open spec fn github_verdict(body: Seq<u8>, header_value: Seq<char>, secret: Seq<u8>) -> Result<
    (),
    SignatureError,
> {
    match digest_of(header_value) {
        None => Err(SignatureError::Malformed),
        Some(d) => if d == boundary::mac::hmac_of(secret, body) {
            Ok(())
        } else {
            Err(SignatureError::BadSignature)
        },
    }
}

/// Verify a GitHub webhook signature over the raw request body.
///
/// # Errors
///
/// `Malformed` if the header is missing the `sha256=` prefix, has wrong length,
/// or contains non-hex characters; `BadSignature` if the HMAC doesn't match.
pub fn verify_github_signature(body: &[u8], header_value: &str, secret: &[u8]) -> (r: Result<
    (),
    SignatureError,
>)
    ensures
        r == github_verdict(body@, header_value@, secret@),
{
    let chars = text::chars_of(header_value);
    let hex = match text::strip_prefix(chars.as_slice(), "sha256=") {
        Some(h) => h,
        None => return Err(SignatureError::Malformed),
    };
    let provided = match text::word_hex32(hex.as_slice(), true) {
        Ok(p) => p,
        Err(_) => return Err(SignatureError::Malformed),
    };
    if boundary::mac::tag_matches(secret, body, provided.as_slice()) {
        Ok(())
    } else {
        Err(SignatureError::BadSignature)
    }
}

/// Constant-time byte-slice equality: every pair of bytes is looked at.
fn constant_time_eq(a: &[u8], b: &[u8]) -> (r: bool)
    ensures
        r == (a@ == b@),
{
    if a.len() != b.len() {
        return false;
    }
    let mut acc: u8 = 0;
    let mut i: usize = 0;
    assert(a@.take(0) =~= b@.take(0));
    while i < a.len()
        invariant
            i <= a.len(),
            a@.len() == b@.len(),
            acc == 0 <==> a@.take(i as int) == b@.take(i as int),
        decreases a.len() - i,
    {
        let (x, y): (u8, u8) = (a[i], b[i]);
        let held: u8 = acc;
        acc = acc | (x ^ y);
        proof {
            assert((held | (x ^ y)) == 0 <==> held == 0 && x == y) by (bit_vector);
            assert(a@.take(i + 1) =~= a@.take(i as int).push(x));
            assert(b@.take(i + 1) =~= b@.take(i as int).push(y));
            if a@.take(i + 1) == b@.take(i + 1) {
                assert(a@.take(i + 1).last() == b@.take(i + 1).last());
                assert(a@.take(i + 1).drop_last() =~= a@.take(i as int));
                assert(b@.take(i + 1).drop_last() =~= b@.take(i as int));
            }
        }
        i = i + 1;
    }
    assert(a@.take(i as int) =~= a@);
    assert(b@.take(i as int) =~= b@);
    acc == 0
}

/// The verdict on a GitLab delivery.
pub open spec fn gitlab_verdict(header_value: Seq<char>, expected_token: Seq<char>) -> Result<
    (),
    SignatureError,
> {
    if header_value.len() == 0 || expected_token.len() == 0 {
        Err(SignatureError::Malformed)
    } else if header_value == expected_token {
        Ok(())
    } else {
        Err(SignatureError::BadSignature)
    }
}

/// Verify a GitLab webhook token in constant time.
///
/// # Errors
///
/// `Malformed` if either is empty (a misconfigured deploy must not silently
/// accept everything); `BadSignature` if they disagree.
pub fn verify_gitlab_token(header_value: &str, expected_token: &str) -> (r: Result<
    (),
    SignatureError,
>)
    ensures
        r == gitlab_verdict(header_value@, expected_token@),
{
    if header_value.is_empty() || expected_token.is_empty() {
        return Err(SignatureError::Malformed);
    }
    proof {
        vstd::utf8::encode_utf8_decode_utf8(header_value@);
        vstd::utf8::encode_utf8_decode_utf8(expected_token@);
    }
    if constant_time_eq(header_value.as_bytes(), expected_token.as_bytes()) {
        Ok(())
    } else {
        Err(SignatureError::BadSignature)
    }
}

/// Whether an event is no more than `window_secs` away from now, in either
/// direction.
#[must_use]
pub fn is_fresh(event_unix_secs: u64, now_unix_secs: u64, window_secs: u64) -> (r: bool)
    ensures
        r == (event_unix_secs - now_unix_secs <= window_secs && now_unix_secs - event_unix_secs
            <= window_secs),
{
    let distance: u64 = if event_unix_secs > now_unix_secs {
        event_unix_secs - now_unix_secs
    } else {
        now_unix_secs - event_unix_secs
    };
    distance <= window_secs
}

// ── Laws ───────────────────────────────────────────────────────────────────
/// A delivery that is signed with the configured secret is accepted, in either
/// case of the hex digits' writing that carries that digest.
pub proof fn law_signed_delivery_is_accepted(
    body: Seq<u8>,
    header_value: Seq<char>,
    secret: Seq<u8>,
)
    requires
        digest_of(header_value) == Some(boundary::mac::hmac_of(secret, body)),
    ensures
        github_verdict(body, header_value, secret) == Ok::<(), SignatureError>(()),
{
}

/// A header is good for no two bodies whose codes differ: what was signed for one
/// is refused for the other.
pub proof fn law_signature_binds_the_body(
    body: Seq<u8>,
    other: Seq<u8>,
    header_value: Seq<char>,
    secret: Seq<u8>,
)
    requires
        github_verdict(body, header_value, secret) is Ok,
        boundary::mac::hmac_of(secret, other) != boundary::mac::hmac_of(secret, body),
    ensures
        github_verdict(other, header_value, secret) == Err::<(), SignatureError>(
            SignatureError::BadSignature,
        ),
{
}

/// A deploy without a token accepts nothing.
pub proof fn law_empty_token_accepts_nothing(header_value: Seq<char>)
    ensures
        gitlab_verdict(header_value, Seq::empty()) == Err::<(), SignatureError>(
            SignatureError::Malformed,
        ),
{
}

/// A delivery is accepted with the code over its body in hex, and with no other
/// digest.
pub proof fn law_only_the_code_is_accepted(body: Seq<u8>, digest: Seq<u8>, secret: Seq<u8>)
    requires
        digest.len() == 32,
    ensures
        github_verdict(body, "sha256="@ + text::hex_of(digest), secret) is Ok <==> digest
            == boundary::mac::hmac_of(secret, body),
        github_verdict(body, text::hex_of(digest), secret) == Err::<(), SignatureError>(
            SignatureError::Malformed,
        ),
{
    let prefix = "sha256="@;
    let header = prefix + text::hex_of(digest);
    assert(header.take(prefix.len() as int) =~= prefix);
    assert(header.skip(prefix.len() as int) =~= text::hex_of(digest));
    text::law_hex_round_trip(digest, true);
    reveal_strlit("sha256=");
    let bare = text::hex_of(digest);
    assert(bare.len() == 64);
    assert(bare[0] != 's');
    assert(prefix[0] == 's');
    assert(!text::begins_with(bare, prefix)) by {
        if text::begins_with(bare, prefix) {
            assert(bare.take(prefix.len() as int)[0] == bare[0]);
        }
    }
}

/// A token is accepted exactly if it is the expected one, and that one is not
/// empty.
pub proof fn law_only_the_token_is_accepted(given: Seq<char>, expected: Seq<char>)
    ensures
        gitlab_verdict(given, expected) is Ok <==> given == expected && expected.len() > 0,
{
}

} // verus!
