//! Derivation of time-based one-time codes (RFC 6238, HMAC-SHA1, 30-second
//! step, six digits).
//!
//! The code for a secret is a pure function of the secret bytes and of the
//! 30-second window that contains the queried instant. That function is
//! computed by an outside crate and is only named here, as [`totp_code`]; the
//! contracts of [`code_at`] and [`code_now`] speak of it exactly, which makes
//! determinism — the same secret and the same window always give the same
//! six digits — a consequence of the contracts alone.

use vstd::prelude::*;

verus! {

/// The six-digit code value for a secret and a moving factor (the number of
/// whole 30-second steps since the Unix epoch). Named, not defined: computing
/// it takes HMAC-SHA1 and the dynamic truncation of RFC 4226, which only the
/// outside implementation runs.
pub uninterp spec fn totp_code(secret: Seq<u8>, counter: nat) -> Seq<char>;

/// An ASCII decimal digit.
pub open spec fn is_code_digit(c: char) -> bool {
    48 <= c as u32 <= 57
}

/// The code that [`code_at`] returns for `secret` at `seconds`.
pub open spec fn spec_code_at(secret: Seq<u8>, seconds: u64) -> Seq<char> {
    totp_code(secret, (seconds / 30) as nat)
}

/// Relies on totp_lite::totp_custom with the Sha1 hash: its source divides
/// the time by the step (30) before anything else, so the result is a
/// function of the secret and of floor(seconds / 30) alone; the returned
/// string is the truncated hash value modulo 10^6, zero-padded on the left
/// to exactly six decimal digits.
#[verifier::external_body]
fn totp_sha1(secret: &[u8], seconds: u64) -> (r: String)
    ensures
        r@ == totp_code(secret@, (seconds / 30) as nat),
        r@.len() == 6,
        forall|i: int| 0 <= i < r@.len() ==> is_code_digit(r@[i]),
{
    totp_lite::totp_custom::<totp_lite::Sha1>(totp_lite::DEFAULT_STEP, 6, secret, seconds)
}

/// Relies on std::time::SystemTime: the wall-clock time, as whole seconds
/// since the Unix epoch (0 if the clock reads earlier than the epoch, so the
/// call cannot panic). Nothing is promised of the value: it is the clock's.
#[verifier::external_body]
fn now_seconds() -> u64 {
    std::time::SystemTime::now()
        .duration_since(std::time::SystemTime::UNIX_EPOCH)
        .map(|d| d.as_secs())
        .unwrap_or(0)
}

/// The six-digit code for `secret` in the 30-second window containing the
/// instant `seconds` (seconds since the Unix epoch).
pub fn code_at(secret: &[u8], seconds: u64) -> (r: String)
    ensures
        r@ == spec_code_at(secret@, seconds),
        r@.len() == 6,
        forall|i: int| 0 <= i < r@.len() ==> is_code_digit(r@[i]),
{
    totp_sha1(secret, seconds)
}

/// The six-digit code for `secret` at the current wall-clock time: the code
/// of some 30-second window, read off the clock at the moment of the call.
pub fn code_now(secret: &[u8]) -> (r: String)
    ensures
        exists|t: u64| r@ == spec_code_at(secret@, t),
        r@.len() == 6,
        forall|i: int| 0 <= i < r@.len() ==> is_code_digit(r@[i]),
{
    let t = now_seconds();
    let r = totp_sha1(secret, t);
    proof {
        assert(r@ == spec_code_at(secret@, t));
    }
    r
}

/// Two instants that fall into the same 30-second step yield the same code;
/// in particular the code is stable for up to 29 seconds after any instant
/// that starts a step.
pub proof fn lemma_same_step_same_code(secret: Seq<u8>, t1: u64, t2: u64)
    requires
        t1 / 30 == t2 / 30,
    ensures
        spec_code_at(secret, t1) == spec_code_at(secret, t2),
{
}

} // verus!
