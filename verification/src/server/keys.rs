//! Passwords, tokens and keys.
use vstd::prelude::*;
use crate::text::{chars_of, string_of};
use base64::Engine;
use rand::RngCore;

verus! {

/// Number of characters of a generated password.
pub const PASSWORD_LEN: usize = 16;

/// Number of characters that a generated password is drawn from.
pub const PASS_CHAR_COUNT: usize = 55;

/// Why a key could not be derived.
#[derive(Clone, Copy, Debug, PartialEq, Eq, Structural)]
pub enum KeyError {
    /// The password is empty.
    EmptyPassword,
    /// The key derivation refused the requested length.
    Expansion,
}

/// The characters that a generated password is drawn from: letters and digits
/// without those that are easily mistaken for one another.
pub open spec fn pass_chars() -> Seq<char> {
    "ABCDEFGHJKLMNPQRSTUVWXYZabcdefghjkmnpqrstuvwxyz23456789"@
}

/// What HKDF over SHA-256 derives: 32 bytes from a salt, a secret and a context.
pub uninterp spec fn hkdf_sha256(salt: Seq<u8>, secret: Seq<u8>, info: Seq<u8>) -> Seq<u8>;

/// The X25519 public key of a secret key.
pub uninterp spec fn x25519_public(secret: Seq<u8>) -> Seq<u8>;

/// The padded standard base64 text of some bytes.
pub uninterp spec fn base64_standard(data: Seq<u8>) -> Seq<char>;

/// The unpadded URL-safe base64 text of some bytes.
pub uninterp spec fn base64_url(data: Seq<u8>) -> Seq<char>;

/// `OsRng::fill_bytes` of rand fills a buffer from the system's random source. Nothing
/// is said of the bytes. It panics where the system has no random source.
#[verifier::external_body]
fn random_bytes(size: usize) -> (r: Vec<u8>)
    requires
        size <= usize::MAX / 4,
    ensures
        r@.len() == size,
{
    let mut data = vec![0u8; size];
    rand::rngs::OsRng.fill_bytes(&mut data);
    data
}

/// `Hkdf::expand` of hkdf, over SHA-256, derives a key from a salt, a secret and a
/// context. It refuses only lengths above 255 blocks of 32 bytes.
#[verifier::external_body]
fn hkdf_expand(salt: &[u8], secret: &[u8], info: &[u8]) -> (r: Option<[u8; 32]>)
    ensures
        r is Some,
        r->0@ == hkdf_sha256(salt@, secret@, info@),
{
    let mut key = [0u8; 32];
    let hk = hkdf::Hkdf::<sha2::Sha256>::new(Some(salt), secret);
    match hk.expand(info, &mut key) {
        Ok(()) => Some(key),
        Err(_) => None,
    }
}

/// `PublicKey::from` of x25519-dalek computes the public key of a static secret.
#[verifier::external_body]
fn public_key(secret: [u8; 32]) -> (r: [u8; 32])
    ensures
        r@ == x25519_public(secret@),
{
    let private = x25519_dalek::StaticSecret::from(secret);
    x25519_dalek::PublicKey::from(&private).to_bytes()
}

/// `STANDARD.encode` of base64 writes bytes as padded base64 text. It panics where the
/// text would be longer than memory.
#[verifier::external_body]
fn encode_standard(data: &[u8]) -> (r: String)
    requires
        data@.len() <= usize::MAX / 4,
    ensures
        r@ == base64_standard(data@),
{
    base64::engine::general_purpose::STANDARD.encode(data)
}

/// `URL_SAFE_NO_PAD.encode` of base64 writes bytes as unpadded URL-safe base64 text. It
/// panics where the text would be longer than memory.
#[verifier::external_body]
fn encode_url(data: &[u8]) -> (r: String)
    requires
        data@.len() <= usize::MAX / 4,
    ensures
        r@ == base64_url(data@),
{
    base64::engine::general_purpose::URL_SAFE_NO_PAD.encode(data)
}

/// The password that some bytes select: one character for each byte.
pub open spec fn password_text(data: Seq<u8>) -> Seq<char> {
    Seq::new(data.len(), |i: int| pass_chars()[data[i] as int % PASS_CHAR_COUNT as int])
}

/// The password that some bytes select.
pub fn password_from_bytes(data: &[u8]) -> (r: String)
    ensures
        r@ == password_text(data@),
{
    proof {
        reveal_strlit("ABCDEFGHJKLMNPQRSTUVWXYZabcdefghjkmnpqrstuvwxyz23456789");
    }
    let chars = chars_of("ABCDEFGHJKLMNPQRSTUVWXYZabcdefghjkmnpqrstuvwxyz23456789");
    let mut r: Vec<char> = Vec::new();
    let mut i: usize = 0;
    while i < data.len()
        invariant
            i <= data@.len(),
            chars@ == pass_chars(),
            chars@.len() == PASS_CHAR_COUNT,
            r@.len() == i,
            forall|j: int|
                0 <= j < i ==> #[trigger] r@[j] == pass_chars()[data@[j] as int
                    % PASS_CHAR_COUNT as int],
        decreases data@.len() - i,
    {
        let at: usize = data[i] as usize % PASS_CHAR_COUNT;
        r.push(chars[at]);
        i = i + 1;
    }
    proof {
        assert(r@ =~= password_text(data@));
    }
    string_of(r.as_slice())
}

/// A random password of sixteen unambiguous letters and digits.
pub fn random_password() -> (r: String)
    ensures
        exists|data: Seq<u8>|
            data.len() == PASSWORD_LEN && r@ == #[trigger] password_text(data),
{
    let data = random_bytes(PASSWORD_LEN);
    password_from_bytes(data.as_slice())
}

/// Every generated password has its full length and no ambiguous character.
pub proof fn law_password_alphabet(data: Seq<u8>, i: int)
    requires
        0 <= i < data.len(),
    ensures
        password_text(data).len() == data.len(),
        pass_chars().contains(password_text(data)[i]),
        !pass_chars().contains('0') && !pass_chars().contains('1') && !pass_chars().contains('I')
            && !pass_chars().contains('O') && !pass_chars().contains('i')
            && !pass_chars().contains('l') && !pass_chars().contains('o'),
{
    reveal_strlit("ABCDEFGHJKLMNPQRSTUVWXYZabcdefghjkmnpqrstuvwxyz23456789");
    let at = data[i] as int % PASS_CHAR_COUNT as int;
    assert(pass_chars()[at] == password_text(data)[i]);
}

/// A random URL-safe token made of `size` random bytes.
pub fn random_token(size: usize) -> (r: String)
    requires
        size <= usize::MAX / 4,
    ensures
        exists|data: Seq<u8>| data.len() == size && r@ == #[trigger] base64_url(data),
{
    let data = random_bytes(size);
    encode_url(data.as_slice())
}

/// The salt of the wrap key.
pub open spec fn wrap_salt() -> Seq<char> {
    "CSQTT-WRAP-v1"@
}

/// The context of the wrap key.
pub open spec fn wrap_info() -> Seq<char> {
    "rtp-obfs/chacha20poly1305"@
}

/// Derives the key that wraps the traffic of a password.
pub fn derive_wrap_key(password: &str) -> (r: Result<[u8; 32], KeyError>)
    ensures
        wrap_derived(password@, r),
{
    if password.is_empty() {
        return Err(KeyError::EmptyPassword);
    }
    let salt = "CSQTT-WRAP-v1".as_bytes();
    let info = "rtp-obfs/chacha20poly1305".as_bytes();
    match hkdf_expand(salt, password.as_bytes(), info) {
        Some(key) => Ok(key),
        None => Err(KeyError::Expansion),
    }
}

/// A secret key with the bits that X25519 fixes: the three lowest and the highest are
/// zero, the second highest is one.
pub open spec fn clamped(secret: Seq<u8>) -> Seq<u8> {
    secret.update(0, (secret[0] / 8 * 8) as u8).update(31, (secret[31] % 64 + 64) as u8)
}

/// Fixes the bits of a secret key.
pub fn clamp_secret(secret: [u8; 32]) -> (r: [u8; 32])
    ensures
        r@ == clamped(secret@),
{
    let mut r = secret;
    r[0] = r[0] / 8 * 8;
    r[31] = r[31] % 64 + 64;
    r
}

/// The base64 texts of a clamped secret key and of its public key.
pub fn key_pair_from(secret: [u8; 32]) -> (r: (String, String))
    ensures
        r.0@ == base64_standard(clamped(secret@)),
        r.1@ == base64_standard(x25519_public(clamped(secret@))),
{
    let private = clamp_secret(secret);
    let public = public_key(private);
    (encode_standard(private.as_slice()), encode_standard(public.as_slice()))
}

/// A random X25519 key pair in base64: secret key, public key.
pub fn generate_key_pair() -> (r: (String, String))
    ensures
        exists|secret: Seq<u8>|
            secret.len() == 32 && r.0@ == base64_standard(#[trigger] clamped(secret)) && r.1@
                == base64_standard(x25519_public(clamped(secret))),
{
    let data = random_bytes(32);
    let mut secret = [0u8; 32];
    let mut i: usize = 0;
    while i < 32
        invariant
            i <= 32,
            data@.len() == 32,
            secret@.len() == 32,
            forall|j: int| 0 <= j < i ==> #[trigger] secret@[j] == data@[j],
        decreases 32 - i,
    {
        secret[i] = data[i];
        i = i + 1;
    }
    let pair = key_pair_from(secret);
    proof {
        assert(clamped(secret@).len() == 32);
    }
    pair
}

/// Clamping is idempotent: a clamped key stays as it is.
pub proof fn law_clamp_idempotent(secret: Seq<u8>)
    requires
        secret.len() == 32,
    ensures
        clamped(clamped(secret)) == clamped(secret),
{
    let c = clamped(secret);
    assert(c[0] / 8 * 8 == c[0]);
    assert(c[31] % 64 + 64 == c[31]);
    assert(clamped(c) =~= c);
}

/// Clamping clears the three lowest bits of a secret key, clears its highest bit and sets
/// the one below, and leaves every other bit alone.
pub proof fn law_clamp_touches_five_bits(secret: Seq<u8>, i: int)
    requires
        secret.len() == 32,
        0 <= i < 32,
    ensures
        clamped(secret).len() == 32,
        clamped(secret)[0] % 8 == 0,
        clamped(secret)[0] / 8 == secret[0] / 8,
        64 <= clamped(secret)[31] < 128,
        clamped(secret)[31] % 64 == secret[31] % 64,
        i != 0 && i != 31 ==> clamped(secret)[i] == secret[i],
{
}

/// A password takes each character from the alphabet by the value of one byte, and all 55
/// characters can occur.
pub proof fn law_password_characters_follow_bytes(data: Seq<u8>, i: int)
    requires
        0 <= i < data.len(),
    ensures
        pass_chars().len() == 55,
        data[i] < 55 ==> password_text(data)[i] == pass_chars()[data[i] as int],
        55 <= data[i] < 110 ==> password_text(data)[i] == pass_chars()[data[i] - 55],
        110 <= data[i] < 165 ==> password_text(data)[i] == pass_chars()[data[i] - 110],
        165 <= data[i] < 220 ==> password_text(data)[i] == pass_chars()[data[i] - 165],
        220 <= data[i] ==> password_text(data)[i] == pass_chars()[data[i] - 220],
{
    reveal_strlit("ABCDEFGHJKLMNPQRSTUVWXYZabcdefghjkmnpqrstuvwxyz23456789");
}

/// What is derived from a password.
pub open spec fn wrap_derived(password: Seq<char>, r: Result<[u8; 32], KeyError>) -> bool {
    &&& password.len() == 0 ==> r == Err::<[u8; 32], KeyError>(KeyError::EmptyPassword)
    &&& password.len() > 0 ==> r is Ok && r->Ok_0@ == hkdf_sha256(
        vstd::utf8::encode_utf8(wrap_salt()),
        vstd::utf8::encode_utf8(password),
        vstd::utf8::encode_utf8(wrap_info()),
    )
}

/// Both ends of a connection derive the same key from the same password, with a salt and a
/// context that never change; without a password there is no key.
pub proof fn law_both_ends_derive_the_same_key(
    password: Seq<char>,
    a: Result<[u8; 32], KeyError>,
    b: Result<[u8; 32], KeyError>,
)
    requires
        wrap_derived(password, a),
        wrap_derived(password, b),
    ensures
        a is Ok <==> password.len() > 0,
        a is Ok ==> b is Ok && a->Ok_0@ == b->Ok_0@ && a->Ok_0@ == hkdf_sha256(
            vstd::utf8::encode_utf8("CSQTT-WRAP-v1"@),
            vstd::utf8::encode_utf8(password),
            vstd::utf8::encode_utf8("rtp-obfs/chacha20poly1305"@),
        ),
{
}

} // verus!
