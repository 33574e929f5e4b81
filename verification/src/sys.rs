//! Calls into the host environment and outside crates, consumed by the
//! verified logic as plain values.

use vstd::prelude::*;
use rand::Rng;

verus! {

/// One of the 62 characters the alphanumeric generator draws from.
pub open spec fn is_alnum_char(c: char) -> bool {
    ('a' <= c && c <= 'z') || ('A' <= c && c <= 'Z') || ('0' <= c && c <= '9')
}

/// Every character is alphanumeric.
pub open spec fn all_alnum(s: Seq<char>) -> bool {
    forall|i: int| 0 <= i < s.len() ==> is_alnum_char(#[trigger] s[i])
}

/// Every character is printable ASCII. Every real SHA-512-crypt hash
/// satisfies this; pwhash's salt decoder indexes a 96-byte table by
/// `char - 0x20` behind a `> 0x60` guard, so a character at U+0080 reaches
/// one past the table and a control character underflows the subtraction.
pub open spec fn ascii_printable(s: Seq<char>) -> bool {
    forall|i: int| 0 <= i < s.len() ==> ' ' <= #[trigger] s[i] <= '~'
}

/// Relies on hostname::get, which asks the operating system for this
/// machine's hostname; the result depends on the machine, so nothing is
/// promised of it.
#[verifier::external_body]
pub(crate) fn os_hostname() -> (r: Option<String>) {
    hostname::get().ok().map(|v| v.to_string_lossy().into_owned())
}

/// Relies on rand's Alphanumeric distribution: every sampled byte is one of
/// A-Z, a-z, 0-9, so the collected string has the requested length and that
/// character set; the characters themselves are random.
#[verifier::external_body]
pub(crate) fn random_alphanumeric(len: usize) -> (r: String)
    ensures
        r@.len() == len,
        all_alnum(r@),
{
    rand::thread_rng().sample_iter(rand::distributions::Alphanumeric).take(len).map(
        char::from,
    ).collect()
}

/// Relies on pwhash's sha512_crypt::verify: it re-derives the hash of
/// `password` with the salt and rounds parsed out of `hash` and compares, so
/// its result is a function of the two arguments alone.
pub uninterp spec fn sha512_crypt_verifies(password: Seq<char>, hash: Seq<char>) -> bool;

/// Relies on pwhash's sha512_crypt::hash: it hashes the password with a
/// randomly generated salt, and the crate's verify accepts the result for
/// the same password. A failure of the underlying call becomes `None`.
#[verifier::external_body]
pub(crate) fn sha512_crypt_hash(password: &str) -> (r: Option<String>)
    ensures
        r matches Some(h) ==> sha512_crypt_verifies(password@, h@),
{
    pwhash::sha512_crypt::hash(password).ok()
}

/// Relies on pwhash's sha512_crypt::verify (see `sha512_crypt_verifies`).
/// The hash must be printable ASCII: the crate's salt decoder panics on a
/// character at U+0080 (an out-of-bounds table index in every build) and on
/// control characters (an arithmetic underflow under debug checks).
#[verifier::external_body]
pub(crate) fn sha512_crypt_verify(password: &str, hash: &str) -> (r: bool)
    requires
        ascii_printable(hash@),
    ensures
        r == sha512_crypt_verifies(password@, hash@),
{
    pwhash::sha512_crypt::verify(password, hash)
}

} // verus!
