//! The token codec.
//!
//! A token proves a live session. It is made from an identity and the instant
//! at which the session expires: the canonical text of the identity, 36 bytes
//! wide, is followed at once by the text of the instant; this payload is
//! encrypted under the user's key, and the ciphertext is written in base64.
//! Decoding undoes the three steps and reports which of them failed.

use base64::Engine;
use vstd::prelude::*;
use vstd::string::*;
use vstd::utf8::*;

use crate::identity::{
    lemma_identity_round_trip, read_identity, uuid_text, uuid_value, write_identity,
    IDENTITY_WIDTH,
};
use crate::timestamp::{Timestamp, LAST_SECOND, NANOS_PER_SECOND};

verus! {

/// Why a token was not issued.
#[derive(Clone, Copy, Debug, PartialEq, Eq, Structural)]
pub enum TokenError {
    /// The expiry is not an instant that a token can carry.
    ExpiryOutOfRange,
    /// The cipher refused to encrypt the payload: the key is longer than
    /// `KEY_LIMIT`.
    Cipher,
}

/// Why a token was not accepted.
#[derive(Clone, Copy, Debug, PartialEq, Eq, Structural)]
pub enum DecodeError {
    /// The token is not base64 text.
    Encoding,
    /// The ciphertext does not decrypt under the key: the key is wrong or the
    /// ciphertext was altered.
    Cipher,
    /// The payload is not UTF-8 text.
    Utf8,
    /// The payload is too short to hold an identity, or the identity field
    /// ends inside a character.
    Layout,
    /// The identity field does not hold the canonical text of an identity.
    Identity,
    /// What follows the identity field is not the text of an instant.
    Timestamp,
}

/// The longest key that the cipher takes, in bytes.
pub const KEY_LIMIT: u64 = 0xFFFF_FFFF;

/// The longest plaintext that the cipher takes, in bytes.
pub const PLAINTEXT_LIMIT: u64 = 0x10_0000_0000;

/// The longest text of an instant that a token can carry, in bytes: date,
/// time of day with nine digits after the second, and the name of the zone.
pub const INSTANT_WIDTH: usize = 33;

/// The text that `chrono` writes for the instant in UTC with the given
/// seconds since the epoch and nanoseconds within the second.
pub uninterp spec fn instant_text(secs: i64, nanos: u32) -> Seq<u8>;

/// The instant, as seconds since the epoch and nanoseconds within the second,
/// that `chrono` reads from `text` under the format `format`; `None` where it
/// reads none.
pub uninterp spec fn instant_parsed(text: Seq<u8>, format: Seq<char>) -> Option<(i64, u32)>;

/// The standard base64 text, with padding, of `data`.
pub uninterp spec fn base64_text(data: Seq<u8>) -> Seq<char>;

/// The bytes that the standard base64 text `text` stands for; `None` where
/// `text` is no such text.
pub uninterp spec fn base64_bytes(text: Seq<char>) -> Option<Seq<u8>>;

/// The plaintext that `simple_crypt` recovers from `data` under `key`; `None`
/// where it rejects the pair.
pub uninterp spec fn decrypted(data: Seq<u8>, key: Seq<u8>) -> Option<Seq<u8>>;

/// The format under which the instant of a token is read.
pub open spec fn time_format() -> Seq<char> {
    "%Y-%m-%d %H:%M:%S%.f %Z"@
}

/// The payload of a token for `uuid` that expires at `expiry`.
pub open spec fn packed(uuid: u128, expiry: Timestamp) -> Seq<u8> {
    uuid_text(uuid) + instant_text(expiry.secs, expiry.nanos)
}

/// What a payload holds: the identity in its first 36 bytes and the instant
/// in the rest.
pub open spec fn unpacked(payload: Seq<u8>) -> Result<(u128, Timestamp), DecodeError> {
    if !valid_utf8(payload) {
        Err(DecodeError::Utf8)
    } else if payload.len() < 36 || !is_char_boundary(payload, 36) {
        Err(DecodeError::Layout)
    } else {
        match uuid_value(payload.subrange(0, 36)) {
            None => Err(DecodeError::Identity),
            Some(uuid) => match instant_parsed(
                payload.subrange(36, payload.len() as int),
                time_format(),
            ) {
                None => Err(DecodeError::Timestamp),
                Some((secs, nanos)) => Ok((uuid, Timestamp { secs, nanos })),
            },
        }
    }
}

/// The payload inside a token, as it decrypts under `key`.
pub open spec fn opened(token: Seq<char>, key: Seq<u8>) -> Result<Seq<u8>, DecodeError> {
    match base64_bytes(token) {
        None => Err(DecodeError::Encoding),
        Some(cipher) => match decrypted(cipher, key) {
            None => Err(DecodeError::Cipher),
            Some(payload) => Ok(payload),
        },
    }
}

/// What a token holds when it is read under `key`.
pub open spec fn decoded(token: Seq<char>, key: Seq<u8>) -> Result<(u128, Timestamp), DecodeError> {
    match opened(token, key) {
        Err(e) => Err(e),
        Ok(payload) => unpacked(payload),
    }
}

/// Writes an instant as text.
///
/// Trusted: the body makes a `chrono::DateTime<Utc>` with `from_timestamp`
/// and formats it with its `Display` impl. The contract claims that this
/// succeeds for every instant of the years 1970 to 9999, that the text is
/// UTF-8, that the text of such an instant is at most `INSTANT_WIDTH` bytes
/// long (a date of ten characters, a time of day of eight with at most ten
/// more for the fraction, `UTC`, and two spaces between them), and that
/// `chrono` reads such an instant back from its own text under
/// `time_format`.
#[verifier::external_body]
fn write_instant(secs: i64, nanos: u32) -> (res: Option<Vec<u8>>)
    ensures
        0 <= secs <= LAST_SECOND && nanos < NANOS_PER_SECOND ==> res is Some,
        res matches Some(text) ==> text@ == instant_text(secs, nanos) && valid_utf8(text@),
        res matches Some(text) ==> (0 <= secs <= LAST_SECOND && nanos < NANOS_PER_SECOND
            ==> text@.len() <= INSTANT_WIDTH),
        res matches Some(text) ==> (0 <= secs <= LAST_SECOND && nanos < NANOS_PER_SECOND
            ==> instant_parsed(text@, time_format()) == Some((secs, nanos))),
{
    match chrono::DateTime::from_timestamp(secs, nanos) {
        Some(t) => Some(t.to_string().into_bytes()),
        None => None,
    }
}

/// Reads an instant from text.
///
/// Trusted: the body calls `chrono::NaiveDateTime::parse_from_str` and takes
/// the result as an instant in UTC. The contract names the answer.
#[verifier::external_body]
fn read_instant(text: &str, format: &str) -> (res: Option<(i64, u32)>)
    ensures
        res == instant_parsed(text.spec_bytes(), format@),
{
    match chrono::NaiveDateTime::parse_from_str(text, format) {
        Ok(t) => Some((t.and_utc().timestamp(), t.and_utc().timestamp_subsec_nanos())),
        Err(_) => None,
    }
}

/// Writes bytes as base64 text.
///
/// Trusted: the body calls `encode` of `base64`'s `STANDARD` engine. The
/// contract names the text and claims that decoding it gives the bytes back.
#[verifier::external_body]
fn base64_encode(data: &[u8]) -> (text: String)
    ensures
        text@ == base64_text(data@),
        base64_bytes(text@) == Some(data@),
{
    base64::engine::general_purpose::STANDARD.encode(data)
}

/// Reads bytes from base64 text.
///
/// Trusted: the body calls `decode` of `base64`'s `STANDARD` engine. The
/// contract names the answer.
#[verifier::external_body]
fn base64_decode(text: &str) -> (res: Option<Vec<u8>>)
    ensures
        res is Some <==> base64_bytes(text@) is Some,
        res matches Some(data) ==> base64_bytes(text@) == Some(data@),
{
    match base64::engine::general_purpose::STANDARD.decode(text) {
        Ok(data) => Some(data),
        Err(_) => None,
    }
}

/// Encrypts bytes under a key.
///
/// Trusted: the body calls `simple_crypt::encrypt`, which draws a fresh salt
/// and nonce on each call, so the ciphertext has no name. The contract claims
/// what holds of every ciphertext it returns: `simple_crypt` decrypts it to
/// the same bytes under the same key. It also claims when the call succeeds.
/// The call derives a key with `argon2::hash_raw`, which fails on a password
/// of more than `KEY_LIMIT` bytes and, with the settings and the salt that
/// `simple_crypt` hands it, on nothing else; it encrypts with AES-GCM-SIV,
/// which fails on a plaintext of more than `PLAINTEXT_LIMIT` bytes and on
/// nothing else; and it writes the result with `bincode`, which does not
/// fail on bytes.
#[verifier::external_body]
fn encrypt(data: &[u8], key: &[u8]) -> (res: Option<Vec<u8>>)
    ensures
        res matches Some(cipher) ==> decrypted(cipher@, key@) == Some(data@),
        data@.len() <= PLAINTEXT_LIMIT ==> (res is Some <==> key@.len() <= KEY_LIMIT),
{
    match simple_crypt::encrypt(data, key) {
        Ok(cipher) => Some(cipher),
        Err(_) => None,
    }
}

/// Decrypts bytes under a key.
///
/// Trusted: the body calls `simple_crypt::decrypt`. The contract names the
/// answer.
#[verifier::external_body]
fn decrypt(data: &[u8], key: &[u8]) -> (res: Option<Vec<u8>>)
    ensures
        res is Some <==> decrypted(data@, key@) is Some,
        res matches Some(plain) ==> decrypted(data@, key@) == Some(plain@),
{
    match simple_crypt::decrypt(data, key) {
        Ok(plain) => Some(plain),
        Err(_) => None,
    }
}

/// Takes bytes as text.
///
/// Trusted: the body calls `String::from_utf8`, which accepts exactly the
/// valid UTF-8 byte strings and keeps the bytes.
#[verifier::external_body]
fn utf8_text(bytes: Vec<u8>) -> (res: Option<String>)
    ensures
        res is Some <==> valid_utf8(bytes@),
        res matches Some(text) ==> text@ == decode_utf8(bytes@),
{
    match String::from_utf8(bytes) {
        Ok(text) => Some(text),
        Err(_) => None,
    }
}

/// The format under which the instant of a token is read.
pub fn format_text() -> (format: &'static str)
    ensures
        format@ == time_format(),
{
    "%Y-%m-%d %H:%M:%S%.f %Z"
}

/// Bytes below 128 are valid UTF-8.
proof fn lemma_ascii_is_utf8(bytes: Seq<u8>)
    requires
        forall|i: int| 0 <= i < bytes.len() ==> #[trigger] bytes[i] < 128,
    ensures
        valid_utf8(bytes),
{
    assert(bytes.subrange(0, 0) =~= Seq::<u8>::empty());
    assert(partial_valid_utf8(bytes, 0));
    partial_valid_utf8_extend_ascii_block(bytes, 0, bytes.len() as int);
    assert(bytes.subrange(0, bytes.len() as int) =~= bytes);
}

/// Where text of single-byte characters is followed by other text, a
/// character begins where the first text ends.
proof fn lemma_boundary_after_ascii(head: Seq<u8>, tail: Seq<u8>)
    requires
        forall|i: int| 0 <= i < head.len() ==> #[trigger] head[i] < 128,
        valid_utf8(tail),
    ensures
        valid_utf8(head + tail),
        is_char_boundary(head + tail, head.len() as int),
    decreases head.len(),
{
    lemma_ascii_is_utf8(head);
    valid_utf8_concat(head, tail);
    if head.len() > 0 {
        let whole = head + tail;
        let rest = head.subrange(1, head.len() as int);
        assert(whole[0] == head[0]);
        assert(is_leading_byte_width_1(whole[0]));
        assert(pop_first_scalar(whole) =~= rest + tail);
        assert forall|i: int| 0 <= i < rest.len() implies #[trigger] rest[i] < 128 by {
            assert(rest[i] == head[i + 1]);
        }
        lemma_boundary_after_ascii(rest, tail);
    }
}

/// A payload made of the canonical text of an identity and UTF-8 text holds
/// that identity, and what is read from the text.
pub proof fn lemma_payload_round_trip(uuid: u128, time: Seq<u8>)
    requires
        valid_utf8(time),
    ensures
        unpacked(uuid_text(uuid) + time) == match instant_parsed(time, time_format()) {
            None => Err::<(u128, Timestamp), DecodeError>(DecodeError::Timestamp),
            Some((secs, nanos)) => Ok((uuid, Timestamp { secs, nanos })),
        },
{
    let head = uuid_text(uuid);
    let payload = head + time;
    lemma_identity_round_trip(uuid);
    lemma_boundary_after_ascii(head, time);
    assert(payload.subrange(0, 36) =~= head);
    assert(payload.subrange(36, payload.len() as int) =~= time);
}

/// Where the cipher rejects the ciphertext of a token under a key, as it
/// does under a key that the token was not issued for, the token decodes
/// under that key to no identity: decoding fails with the cipher's error.
pub proof fn lemma_rejected_key_gives_no_identity(token: Seq<char>, key: Seq<u8>)
    requires
        base64_bytes(token) matches Some(cipher) && decrypted(cipher, key) is None,
    ensures
        opened(token, key) == Err::<Seq<u8>, _>(DecodeError::Cipher),
        decoded(token, key) == Err::<(u128, Timestamp), _>(DecodeError::Cipher),
{
}

/// Builds the payload of a token.
///
/// Succeeds exactly on an expiry that a token can carry. The payload is the
/// canonical text of the identity followed by the text of the expiry, and
/// `unpack` reads both back from it.
pub fn pack(uuid: u128, expiry: &Timestamp) -> (res: Option<Vec<u8>>)
    ensures
        res is Some <==> expiry.is_valid(),
        res matches Some(payload) ==> payload@ == packed(uuid, *expiry),
        res matches Some(payload) ==> payload@.len() <= IDENTITY_WIDTH + INSTANT_WIDTH,
        res matches Some(payload) ==> unpacked(payload@) == Ok::<_, DecodeError>((uuid, *expiry)),
{
    if !expiry.valid() {
        return None;
    }
    match write_instant(expiry.secs, expiry.nanos) {
        None => None,
        Some(time) => {
            let mut time = time;
            let mut payload = write_identity(uuid);
            proof {
                lemma_payload_round_trip(uuid, time@);
            }
            payload.append(&mut time);
            Some(payload)
        },
    }
}

/// Reads the identity and the expiry from the payload of a token.
pub fn unpack(payload: Vec<u8>) -> (res: Result<(u128, Timestamp), DecodeError>)
    ensures
        res == unpacked(payload@),
{
    let ghost bytes = payload@;
    assert(bytes.len() <= usize::MAX) by {
        vstd::std_specs::vec::axiom_spec_len(&payload);
    }
    let text = match utf8_text(payload) {
        Some(text) => text,
        None => {
            return Err(DecodeError::Utf8);
        },
    };
    let text = text.as_str();
    proof {
        decode_utf8_encode_utf8(bytes);
        assert(text.spec_bytes() == bytes);
    }
    if text.len() < IDENTITY_WIDTH || !text.is_char_boundary(IDENTITY_WIDTH) {
        return Err(DecodeError::Layout);
    }
    let (head, tail) = text.split_at(IDENTITY_WIDTH);
    let uuid = match read_identity(head) {
        Some(uuid) => uuid,
        None => {
            return Err(DecodeError::Identity);
        },
    };
    match read_instant(tail, format_text()) {
        Some((secs, nanos)) => Ok((uuid, Timestamp { secs, nanos })),
        None => Err(DecodeError::Timestamp),
    }
}

/// Encrypts a payload under `key` and writes the ciphertext as text.
///
/// Fails only where the cipher refuses; on a payload of at most
/// `PLAINTEXT_LIMIT` bytes it does so exactly where the key is longer than
/// `KEY_LIMIT`. Every token that comes back opens to the payload under the
/// same key.
pub fn seal(payload: &[u8], key: &[u8]) -> (res: Result<String, TokenError>)
    ensures
        res matches Ok(token) ==> opened(token@, key@) == Ok::<_, DecodeError>(payload@),
        res matches Err(e) ==> e == TokenError::Cipher,
        payload@.len() <= PLAINTEXT_LIMIT ==> (res is Ok <==> key@.len() <= KEY_LIMIT),
{
    match encrypt(payload, key) {
        None => Err(TokenError::Cipher),
        Some(cipher) => Ok(base64_encode(cipher.as_slice())),
    }
}

/// Reads the ciphertext from a token and decrypts it under `key`.
pub fn open(token: &str, key: &[u8]) -> (res: Result<Vec<u8>, DecodeError>)
    ensures
        match res {
            Ok(payload) => opened(token@, key@) == Ok::<_, DecodeError>(payload@),
            Err(e) => opened(token@, key@) == Err::<Seq<u8>, _>(e),
        },
{
    match base64_decode(token) {
        None => Err(DecodeError::Encoding),
        Some(cipher) => match decrypt(cipher.as_slice(), key) {
            None => Err(DecodeError::Cipher),
            Some(payload) => Ok(payload),
        },
    }
}

/// Issues a token for `uuid` that expires at `expiry`, encrypted under `key`.
///
/// Fails with `ExpiryOutOfRange` exactly where the expiry is not one that a
/// token can carry, and otherwise with `Cipher` exactly where the key is
/// longer than `KEY_LIMIT`; on every other input a token is issued. Every
/// token that is issued opens under the same key to the payload of the
/// identity and the expiry: the canonical text of the identity, followed at
/// once by the text of the expiry. It decodes under that key to the two.
pub fn generate_token(uuid: u128, expiry: &Timestamp, key: &[u8]) -> (res: Result<
    String,
    TokenError,
>)
    ensures
        match res {
            Ok(token) => {
                &&& expiry.is_valid()
                &&& key@.len() <= KEY_LIMIT
                &&& opened(token@, key@) == Ok::<_, DecodeError>(packed(uuid, *expiry))
                &&& decoded(token@, key@) == Ok::<_, DecodeError>((uuid, *expiry))
            },
            Err(TokenError::ExpiryOutOfRange) => !expiry.is_valid(),
            Err(TokenError::Cipher) => expiry.is_valid() && key@.len() > KEY_LIMIT,
        },
{
    match pack(uuid, expiry) {
        None => Err(TokenError::ExpiryOutOfRange),
        Some(payload) => seal(payload.as_slice(), key),
    }
}

/// Reads the identity and the expiry from a token, under `key`.
///
/// Fails where the token is not base64 text, where the ciphertext does not
/// decrypt under `key`, and where the payload does not hold an identity
/// followed by an instant.
pub fn decode_token(token: String, key: &[u8]) -> (res: Result<(u128, Timestamp), DecodeError>)
    ensures
        res == decoded(token@, key@),
{
    match open(token.as_str(), key) {
        Err(e) => Err(e),
        Ok(payload) => unpack(payload),
    }
}

} // verus!
