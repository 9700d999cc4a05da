//! Secret tokens: how they are drawn, encoded and digested, and the shape
//! that every issued token has.
//!
//! A token is a fixed prefix followed by the URL-safe, unpadded base64 text
//! of 32 random bytes (43 characters).  Only SHA-256 digests of tokens are
//! ever stored.
use vstd::prelude::*;

use crate::auth::AuthError;
use crate::text::{append_str, chars_of, has_prefix_at, is_ascii_alphanumeric, starts_with};

verus! {

broadcast use vstd::string::group_string_axioms;

/// Random bytes behind every issued secret.
pub const SECRET_BYTES: usize = 32;

/// Length of the encoded part of every issued secret.
pub const SECRET_ENCODED_LENGTH: usize = 43;

#[verifier::external_type_specification]
#[verifier::external_body]
pub struct ExRandomError(getrandom::Error);

/// The SHA-256 digest of `bytes`.
pub uninterp spec fn sha256_digest(bytes: Seq<u8>) -> Seq<u8>;

/// The character of the URL-safe base64 alphabet for the six-bit value `n`:
/// `A`-`Z`, `a`-`z`, `0`-`9`, then `-` and `_`.
pub open spec fn base64_url_char(n: int) -> char {
    if n < 26 {
        (('A' as int) + n) as char
    } else if n < 52 {
        (('a' as int) + n - 26) as char
    } else if n < 62 {
        (('0' as int) + n - 52) as char
    } else if n == 62 {
        '-'
    } else {
        '_'
    }
}

/// The URL-safe base64 text of `bytes`, without padding: each group of
/// three bytes gives four characters of six bits each, most significant
/// first; a final group of one or two bytes gives two or three characters,
/// its last one padded with zero bits.
pub open spec fn base64_url_text(bytes: Seq<u8>) -> Seq<char>
    decreases bytes.len(),
{
    if bytes.len() == 0 {
        Seq::empty()
    } else if bytes.len() == 1 {
        seq![base64_url_char(bytes[0] as int / 4), base64_url_char((bytes[0] as int % 4) * 16)]
    } else if bytes.len() == 2 {
        seq![
            base64_url_char(bytes[0] as int / 4),
            base64_url_char((bytes[0] as int % 4) * 16 + bytes[1] as int / 16),
            base64_url_char((bytes[1] as int % 16) * 4),
        ]
    } else {
        seq![
            base64_url_char(bytes[0] as int / 4),
            base64_url_char((bytes[0] as int % 4) * 16 + bytes[1] as int / 16),
            base64_url_char((bytes[1] as int % 16) * 4 + bytes[2] as int / 64),
            base64_url_char(bytes[2] as int % 64),
        ] + base64_url_text(bytes.skip(3))
    }
}

/// A character of the URL-safe base64 alphabet.
pub open spec fn is_url_safe_char(c: char) -> bool {
    is_ascii_alphanumeric(c) || c == '-' || c == '_'
}

/// Length of the unpadded base64 text of `n` bytes.
pub open spec fn base64_unpadded_len(n: nat) -> nat {
    (n / 3) * 4 + if n % 3 == 0 {
        0nat
    } else if n % 3 == 1 {
        2nat
    } else {
        3nat
    }
}

/// The digest under which a token is stored: SHA-256 of its UTF-8 bytes.
pub open spec fn token_digest(token: Seq<char>) -> Seq<u8> {
    sha256_digest(vstd::utf8::encode_utf8(token))
}

/// `token` is `prefix` followed by exactly 43 URL-safe base64 characters.
pub open spec fn well_formed_token(token: Seq<char>, prefix: Seq<char>) -> bool {
    &&& starts_with(token, prefix)
    &&& token.len() == prefix.len() + SECRET_ENCODED_LENGTH
    &&& forall|i: int| prefix.len() <= i < token.len() ==> is_url_safe_char(#[trigger] token[i])
}

/// `sha2::Sha256::digest`: the SHA-256 digest of `bytes`.  The contract only
/// names the result; nothing about SHA-256 itself is stated.
#[verifier::external_body]
pub(crate) fn sha256(bytes: &[u8]) -> (d: [u8; 32])
    ensures
        d@ == sha256_digest(bytes@),
{
    <sha2::Sha256 as sha2::Digest>::digest(bytes).into()
}

/// `subtle::ConstantTimeEq::ct_eq` on byte slices, read as a `bool`: true
/// exactly when both slices have the same length and the same bytes.
#[verifier::external_body]
fn constant_time_eq(a: &[u8], b: &[u8]) -> (r: bool)
    ensures
        r == (a@ == b@),
{
    bool::from(subtle::ConstantTimeEq::ct_eq(a, b))
}

/// `getrandom::fill` on a fresh buffer of `len` bytes.  On success the buffer
/// has `len` bytes; what they are is chance and is not stated.
#[verifier::external_body]
pub(crate) fn random_bytes(len: usize) -> (r: Result<Vec<u8>, getrandom::Error>)
    ensures
        r matches Ok(bytes) ==> bytes@.len() == len,
{
    let mut bytes = vec![0u8; len];
    getrandom::fill(&mut bytes)?;
    Ok(bytes)
}

/// The unpadded URL-safe base64 text has the unpadded length, and every
/// character comes from the URL-safe alphabet.
pub proof fn lemma_base64_url_shape(bytes: Seq<u8>)
    ensures
        base64_url_text(bytes).len() == base64_unpadded_len(bytes.len()),
        forall|i: int|
            0 <= i < base64_url_text(bytes).len() ==> is_url_safe_char(
                #[trigger] base64_url_text(bytes)[i],
            ),
    decreases bytes.len(),
{
    let t = base64_url_text(bytes);
    if bytes.len() >= 3 {
        lemma_base64_url_shape(bytes.skip(3));
        assert(base64_unpadded_len(bytes.len()) == base64_unpadded_len(bytes.skip(3).len()) + 4)
            by (nonlinear_arith)
            requires
                bytes.skip(3).len() == bytes.len() - 3,
                bytes.len() >= 3,
        ;
        assert forall|i: int| 0 <= i < t.len() implies is_url_safe_char(#[trigger] t[i]) by {
            if i >= 4 {
                assert(t[i] == base64_url_text(bytes.skip(3))[i - 4]);
            }
        }
    }
}

/// `base64::Engine::encode` with the `URL_SAFE_NO_PAD` engine: the unpadded
/// URL-safe base64 text of `bytes`.
#[verifier::external_body]
pub(crate) fn base64_url_encode(bytes: &[u8]) -> (s: String)
    ensures
        s@ == base64_url_text(bytes@),
{
    base64::Engine::encode(&base64::engine::general_purpose::URL_SAFE_NO_PAD, bytes)
}

/// A lowercase hexadecimal digit.
pub open spec fn is_lower_hex(c: char) -> bool {
    ('0' <= c && c <= '9') || ('a' <= c && c <= 'f')
}

/// The hyphenated text of a UUID: 36 characters, hyphens at 8, 13, 18 and
/// 23, lowercase hexadecimal digits everywhere else.
pub open spec fn is_uuid_text(s: Seq<char>) -> bool {
    &&& s.len() == 36
    &&& forall|i: int|
        0 <= i < 36 ==> if i == 8 || i == 13 || i == 18 || i == 23 {
            #[trigger] s[i] == '-'
        } else {
            is_lower_hex(s[i])
        }
}

/// The lowercase hexadecimal digit of `n` (taken modulo 16).
pub open spec fn lower_hex_digit(n: int) -> char {
    let d = n % 16;
    if d < 10 {
        (('0' as int) + d) as char
    } else {
        (('a' as int) + d - 10) as char
    }
}

/// How many of the 32 hexadecimal digits come before position `i` of the
/// hyphenated text.
pub open spec fn digits_before(i: int) -> int {
    if i < 8 {
        i
    } else if i < 13 {
        i - 1
    } else if i < 18 {
        i - 2
    } else if i < 23 {
        i - 3
    } else {
        i - 4
    }
}

/// The hyphenated lowercase text of the UUID whose value is `v`, as the
/// UUID's `Display` writes it: its 32 hexadecimal digits, most significant
/// first, in groups of 8, 4, 4, 4 and 12 joined by hyphens.
pub open spec fn uuid_text_of(v: u128) -> Seq<char> {
    Seq::new(
        36,
        |i: int|
            if i == 8 || i == 13 || i == 18 || i == 23 {
                '-'
            } else {
                lower_hex_digit(v as int / vstd::arithmetic::power::pow(16, (31 - digits_before(i)) as nat))
            },
    )
}

/// The text of every UUID has the hyphenated shape.
pub proof fn lemma_uuid_text_shape(v: u128)
    ensures
        is_uuid_text(uuid_text_of(v)),
{
    let s = uuid_text_of(v);
    assert forall|i: int| 0 <= i < 36 && !(i == 8 || i == 13 || i == 18 || i == 23) implies is_lower_hex(
        #[trigger] s[i],
    ) by {
        let n = v as int / vstd::arithmetic::power::pow(16, (31 - digits_before(i)) as nat);
        let d = n % 16;
        assert(0 <= d < 16);
    }
}

/// The number whose big-endian bytes are `bytes`.
pub open spec fn be_value(bytes: Seq<u8>) -> nat
    decreases bytes.len(),
{
    if bytes.len() == 0 {
        0
    } else {
        be_value(bytes.drop_last()) * 256 + bytes.last() as nat
    }
}

/// The bits a version-4 UUID takes from its random bytes: all but the
/// version nibble (bits 76 to 79) and the variant bits (62 and 63).
pub const UUID_RANDOM_BITS: u128 = 0xffff_ffff_ffff_0fff_3fff_ffff_ffff_ffff;

/// The version 4 and the RFC 4122 variant, in place.
pub const UUID_V4_MARKS: u128 = 0x0000_0000_0000_4000_8000_0000_0000_0000;

/// The value of the version-4 UUID built from 16 random bytes
/// (`uuid::Builder::from_random_bytes`): the bytes read big-endian, with the
/// version nibble set to 4 and the variant bits to `10`.
pub open spec fn random_uuid_value(bytes: Seq<u8>) -> u128 {
    (be_value(bytes) as u128 & UUID_RANDOM_BITS) | UUID_V4_MARKS
}

/// `256` to the power `n`.
pub open spec fn pow256(n: nat) -> nat
    decreases n,
{
    if n == 0 {
        1
    } else {
        pow256((n - 1) as nat) * 256
    }
}

proof fn lemma_be_value_bound(bytes: Seq<u8>)
    ensures
        be_value(bytes) < pow256(bytes.len()),
    decreases bytes.len(),
{
    if bytes.len() > 0 {
        lemma_be_value_bound(bytes.drop_last());
        let p = pow256(bytes.drop_last().len());
        let v = be_value(bytes.drop_last());
        assert(v * 256 + bytes.last() < p * 256) by (nonlinear_arith)
            requires
                v < p,
                bytes.last() < 256,
        ;
    }
}

proof fn lemma_pow256_grows(m: nat, n: nat)
    requires
        m <= n,
    ensures
        pow256(m) <= pow256(n),
    decreases n - m,
{
    if m < n {
        lemma_pow256_grows(m, (n - 1) as nat);
    }
}

/// `uuid::Uuid::from_u128(v)` written out by the UUID's `Display`: the
/// hyphenated lowercase text of `v`.
#[verifier::external_body]
fn uuid_text_of_value(v: u128) -> (id: String)
    ensures
        id@ == uuid_text_of(v),
{
    uuid::Uuid::from_u128(v).to_string()
}

/// The value of the version-4 UUID built from 16 random bytes.
pub fn uuid_value_from_random(bytes: &[u8]) -> (id: u128)
    requires
        bytes@.len() == 16,
    ensures
        id == random_uuid_value(bytes@),
{
    let mut value: u128 = 0;
    let mut i: usize = 0;
    while i < 16
        invariant
            i <= 16,
            bytes@.len() == 16,
            value == be_value(bytes@.take(i as int)),
        decreases 16 - i,
    {
        proof {
            lemma_be_value_bound(bytes@.take(i + 1));
            assert(bytes@.take(i + 1).drop_last() =~= bytes@.take(i as int));
            lemma_pow256_grows((i + 1) as nat, 16);
            reveal_with_fuel(pow256, 17);
            assert(pow256(16) == 0x1_0000_0000_0000_0000_0000_0000_0000_0000);
        }
        value = value * 256 + bytes[i] as u128;
        i += 1;
    }
    assert(bytes@.take(16) =~= bytes@);
    (value & UUID_RANDOM_BITS) | UUID_V4_MARKS
}

/// A fresh random identifier: the hyphenated text of a version-4 UUID made
/// of 16 bytes from the system's random source.
pub fn new_random_id() -> (r: Result<String, AuthError>)
    ensures
        match r {
            Ok(id) => is_uuid_text(id@) && exists|bytes: Seq<u8>|
                bytes.len() == 16 && id@ == uuid_text_of(#[trigger] random_uuid_value(bytes)),
            Err(e) => e == AuthError::RandomnessUnavailable,
        },
{
    match random_bytes(16) {
        Ok(bytes) => {
            let id = uuid_text_of_value(uuid_value_from_random(bytes.as_slice()));
            proof {
                lemma_uuid_text_shape(random_uuid_value(bytes@));
            }
            assert(id@ == uuid_text_of(random_uuid_value(bytes@)));
            Ok(id)
        },
        Err(_) => Err(AuthError::RandomnessUnavailable),
    }
}

/// The value of the version-5 UUID of `name` in the namespace whose value
/// is `namespace` (SHA-1 based; a function of the two alone).
pub uninterp spec fn uuid_v5_value(namespace: u128, name: Seq<u8>) -> u128;

/// The hyphenated text of the version-5 UUID of `name` in `namespace`.
pub open spec fn uuid_v5_text(namespace: u128, name: Seq<u8>) -> Seq<char> {
    uuid_text_of(uuid_v5_value(namespace, name))
}

/// `uuid::Uuid::new_v5` in the namespace whose value is `namespace`, written
/// by the UUID's `Display`: the text of the named UUID value.
#[verifier::external_body]
pub(crate) fn uuid_v5(namespace: u128, name: &[u8]) -> (id: String)
    ensures
        id@ == uuid_text_of(uuid_v5_value(namespace, name@)),
{
    uuid::Uuid::new_v5(&uuid::Uuid::from_u128(namespace), name).to_string()
}

/// The stored digest of `token`.
pub fn digest_token(token: &str) -> (d: [u8; 32])
    ensures
        d@ == token_digest(token@),
{
    sha256(token.as_bytes())
}

/// Whether two digests are equal, compared in time independent of their
/// contents.
pub fn digests_match(a: &[u8; 32], b: &[u8; 32]) -> (r: bool)
    ensures
        r == (a@ == b@),
{
    constant_time_eq(a.as_slice(), b.as_slice())
}

/// URL-safe text of `byte_count` fresh random bytes.
pub fn random_base64(byte_count: usize) -> (r: Result<String, AuthError>)
    ensures
        match r {
            Ok(text) => exists|bytes: Seq<u8>|
                bytes.len() == byte_count && #[trigger] base64_url_text(bytes) == text@,
            Err(e) => e == AuthError::RandomnessUnavailable,
        },
        r matches Ok(text) ==> text@.len() == base64_unpadded_len(byte_count as nat) && forall|
            i: int,
        | 0 <= i < text@.len() ==> is_url_safe_char(#[trigger] text@[i]),
{
    match random_bytes(byte_count) {
        Ok(bytes) => {
            let text = base64_url_encode(bytes.as_slice());
            proof {
                lemma_base64_url_shape(bytes@);
            }
            assert(base64_url_text(bytes@) == text@);
            Ok(text)
        },
        Err(_) => Err(AuthError::RandomnessUnavailable),
    }
}

/// A fresh secret: `prefix` followed by the encoding of 32 random bytes.
pub fn random_token(prefix: &str) -> (r: Result<String, AuthError>)
    ensures
        match r {
            Ok(token) => well_formed_token(token@, prefix@) && exists|bytes: Seq<u8>|
                bytes.len() == SECRET_BYTES && token@ == prefix@ + #[trigger] base64_url_text(
                    bytes,
                ),
            Err(e) => e == AuthError::RandomnessUnavailable,
        },
{
    let encoded = random_base64(SECRET_BYTES)?;
    let mut token = String::new();
    append_str(&mut token, prefix);
    append_str(&mut token, encoded.as_str());
    proof {
        assert(base64_unpadded_len(32) == 43);
        assert(token@.take(prefix@.len() as int) == prefix@);
        assert forall|i: int| prefix@.len() <= i < token@.len() implies is_url_safe_char(
            #[trigger] token@[i],
        ) by {
            assert(token@[i] == encoded@[i - prefix@.len()]);
        }
    }
    Ok(token)
}

/// Whether `token` is `prefix` followed by exactly 43 URL-safe characters.
pub fn is_well_formed_token(token: &str, prefix: &str) -> (r: bool)
    ensures
        r == well_formed_token(token@, prefix@),
{
    let chars = chars_of(token);
    let p = chars_of(prefix);
    if !has_prefix_at(&chars, 0, prefix) {
        assert(chars@.skip(0) == token@);
        return false;
    }
    assert(chars@.skip(0) == token@);
    if chars.len() - p.len() != SECRET_ENCODED_LENGTH {
        return false;
    }
    let mut i = p.len();
    while i < chars.len()
        invariant
            chars@ == token@,
            p@ == prefix@,
            p.len() <= i <= chars.len(),
            forall|j: int| p.len() <= j < i ==> is_url_safe_char(#[trigger] token@[j]),
        decreases chars.len() - i,
    {
        let c = chars[i];
        let ok = ('a' <= c && c <= 'z') || ('A' <= c && c <= 'Z') || ('0' <= c && c <= '9') || c
            == '-' || c == '_';
        if !ok {
            assert(!is_url_safe_char(token@[i as int]));
            return false;
        }
        i += 1;
    }
    true
}

} // verus!
