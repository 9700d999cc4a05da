//! The node's identity: its public summary (node identifier and root
//! fingerprint) derived from its signing key, the protected store that keeps
//! the key, its self-signed root certificate, and the short-lived server
//! leaves it issues for checked names.  Keys and signatures come from rcgen;
//! what each certificate holds is planned and proved here.
use vstd::prelude::*;

use crate::database::DatabaseError;
use crate::ip_text::{ip_text, parse_ip, parse_ip_chars};
use crate::lan::{dns_label_at, valid_dns_label};
use crate::net::IpAddress;
use crate::native_client::{node_prefix, valid_fingerprint};
use crate::text::{
    ascii_lower_seq, is_hex_digit, join_fields, lemma_split_join, split_fields, split_ranges,
    starts_with, trim,
};
use crate::token::{base64_url_encode, base64_url_text, sha256, sha256_digest};

verus! {

broadcast use vstd::string::group_string_axioms;

/// The prefix of a node identifier.
pub const NODE_ID_PREFIX: &'static str = "ls_node_";

/// How many digest bytes a node identifier encodes.
pub const NODE_ID_BYTES: usize = 16;

/// Most names a server leaf may carry.
pub const MAX_LEAF_NAMES: usize = 16;

/// Days a server leaf is valid.
pub const LEAF_VALIDITY_DAYS: i64 = 30;

/// What may be shown of a node's identity.
#[derive(Debug, Clone, PartialEq, Eq)]
pub struct NodeIdentitySummary {
    pub node_id: String,
    pub fingerprint: String,
}

/// The two uppercase hexadecimal digits of a byte.
pub open spec fn hex_pair(b: u8) -> Seq<char> {
    seq![hex_digit(b / 16), hex_digit(b % 16)]
}

pub open spec fn hex_digit(n: u8) -> char {
    if n < 10 {
        (('0' as u8) + n) as char
    } else {
        (('A' as u8) + n - 10) as char
    }
}

/// The bytes of `d` as uppercase hexadecimal pairs joined by colons.
pub open spec fn fingerprint_of(d: Seq<u8>) -> Seq<char>
    decreases d.len(),
{
    if d.len() == 0 {
        Seq::empty()
    } else if d.len() == 1 {
        hex_pair(d[0])
    } else {
        fingerprint_of(d.drop_last()) + seq![':'] + hex_pair(d.last())
    }
}

/// The node identifier of a public key: `ls_node_` and the URL-safe base64
/// of the first 16 bytes of its SHA-256 digest.
pub open spec fn node_id_of(public_key: Seq<u8>) -> Seq<char> {
    NODE_ID_PREFIX@ + base64_url_text(sha256_digest(public_key).take(NODE_ID_BYTES as int))
}

/// The fingerprint of a public key: its SHA-256 digest in uppercase
/// hexadecimal pairs joined by colons.
pub open spec fn key_fingerprint_of(public_key: Seq<u8>) -> Seq<char> {
    fingerprint_of(sha256_digest(public_key))
}

/// The pairs of uppercase hexadecimal digits of `d`.
pub open spec fn hex_pairs(d: Seq<u8>) -> Seq<Seq<char>> {
    d.map_values(|b: u8| hex_pair(b))
}

proof fn lemma_fingerprint_joins_pairs(d: Seq<u8>)
    requires
        d.len() >= 1,
    ensures
        fingerprint_of(d) == join_fields(hex_pairs(d), ':'),
        fingerprint_of(d).len() == 3 * d.len() - 1,
    decreases d.len(),
{
    if d.len() == 1 {
        assert(hex_pairs(d) =~= seq![hex_pair(d[0])]);
    } else {
        lemma_fingerprint_joins_pairs(d.drop_last());
        assert(hex_pairs(d).drop_last() =~= hex_pairs(d.drop_last()));
        assert(fingerprint_of(d.drop_last()) + seq![':'] =~= fingerprint_of(d.drop_last()).push(
            ':',
        ));
    }
}

proof fn lemma_hex_digit(n: u8)
    requires
        n < 16,
    ensures
        is_hex_digit(hex_digit(n)),
        hex_digit(n) != ':',
{
}

/// The fingerprint of a SHA-256 digest is one a native client accepts to
/// pin: 95 characters, 32 pairs of hexadecimal digits separated by colons.
pub proof fn lemma_fingerprint_is_pinnable(d: Seq<u8>)
    requires
        d.len() == 32,
    ensures
        valid_fingerprint(fingerprint_of(d)),
{
    lemma_fingerprint_joins_pairs(d);
    let pairs = hex_pairs(d);
    assert forall|i: int| 0 <= i < pairs.len() implies !(#[trigger] pairs[i]).contains(':') by {
        lemma_hex_digit(d[i] / 16);
        lemma_hex_digit(d[i] % 16);
        if pairs[i].contains(':') {
            let k = choose|k: int| 0 <= k < pairs[i].len() && pairs[i][k] == ':';
        }
    }
    lemma_split_join(pairs, ':');
    assert forall|i: int| 0 <= i < split_fields(fingerprint_of(d), ':').len() implies {
        let pair = #[trigger] split_fields(fingerprint_of(d), ':')[i];
        pair.len() == 2 && is_hex_digit(pair[0]) && is_hex_digit(pair[1])
    } by {
        lemma_hex_digit(d[i] / 16);
        lemma_hex_digit(d[i] % 16);
    }
}

fn hex_char(n: u8) -> (c: char)
    requires
        n < 16,
    ensures
        c == hex_digit(n),
{
    if n < 10 {
        ((48u8 + n) as char)
    } else {
        ((65u8 + n - 10) as char)
    }
}

/// The summary of a node whose public key (its DER subject public key
/// info) is `public_key`.
pub fn summarize_public_key(public_key: &[u8]) -> (r: NodeIdentitySummary)
    ensures
        r.node_id@ == node_id_of(public_key@),
        r.fingerprint@ == key_fingerprint_of(public_key@),
        starts_with(r.node_id@, node_prefix()),
        r.node_id@.len() == 30,
        valid_fingerprint(r.fingerprint@),
{
    let digest = sha256(public_key);
    let mut head: Vec<u8> = Vec::new();
    let mut i: usize = 0;
    while i < NODE_ID_BYTES
        invariant
            i <= NODE_ID_BYTES,
            digest@.len() == 32,
            head@ == digest@.take(i as int),
        decreases NODE_ID_BYTES - i,
    {
        head.push(digest[i]);
        assert(digest@.take(i + 1) =~= digest@.take(i as int).push(digest@[i as int]));
        i += 1;
    }
    let encoded = base64_url_encode(head.as_slice());
    proof {
        crate::token::lemma_base64_url_shape(head@);
        assert(crate::token::base64_unpadded_len(16) == 22);
    }
    let mut node_id = String::new();
    crate::text::append_str(&mut node_id, NODE_ID_PREFIX);
    crate::text::append_str(&mut node_id, encoded.as_str());
    let mut fingerprint = String::new();
    let mut k: usize = 0;
    while k < 32
        invariant
            k <= 32,
            digest@.len() == 32,
            fingerprint@ == fingerprint_of(digest@.take(k as int)),
        decreases 32 - k,
    {
        if k > 0 {
            crate::text::push_char(&mut fingerprint, ':');
        }
        let b = digest[k];
        crate::text::push_char(&mut fingerprint, hex_char(b / 16));
        crate::text::push_char(&mut fingerprint, hex_char(b % 16));
        proof {
            assert(digest@.take(k + 1).drop_last() =~= digest@.take(k as int));
            assert(fingerprint@ =~= fingerprint_of(digest@.take(k + 1)));
        }
        k += 1;
    }
    assert(digest@.take(32) =~= digest@);
    proof {
        lemma_fingerprint_is_pinnable(digest@);
        reveal_strlit("ls_node_");
        assert(node_id@.take(8) =~= node_prefix());
    }
    NodeIdentitySummary { node_id, fingerprint }
}

// ---------------------------------------------------------------------------
// Errors
// ---------------------------------------------------------------------------

#[derive(Debug, Clone, Copy, PartialEq, Eq, Structural)]
pub enum LeafIssuanceError {
    InvalidNames,
    GenerationFailed,
}

impl LeafIssuanceError {
    /// The message shown for this error.
    pub fn message(&self) -> (r: &'static str)
        ensures
            r == (match self {
                LeafIssuanceError::InvalidNames => "at least one valid server name is required",
                LeafIssuanceError::GenerationFailed => "a server leaf certificate could not be generated",
            }),
    {
        match self {
            LeafIssuanceError::InvalidNames => "at least one valid server name is required",
            LeafIssuanceError::GenerationFailed => "a server leaf certificate could not be generated",
        }
    }
}

#[derive(Debug, Clone, Copy, PartialEq, Eq, Structural)]
pub enum TlsConfigError {
    Unavailable,
    InvalidMaterial,
}

impl TlsConfigError {
    /// The message shown for this error.
    pub fn message(&self) -> (r: &'static str)
        ensures
            r == (match self {
                TlsConfigError::Unavailable => "the TLS configuration is unavailable",
                TlsConfigError::InvalidMaterial => "the TLS certificate material is invalid",
            }),
    {
        match self {
            TlsConfigError::Unavailable => "the TLS configuration is unavailable",
            TlsConfigError::InvalidMaterial => "the TLS certificate material is invalid",
        }
    }
}

#[derive(Debug, Clone, Copy, PartialEq, Eq, Structural)]
pub enum SecretStoreError {
    Unavailable,
}

impl SecretStoreError {
    /// The message shown for this error.
    pub fn message(&self) -> (r: &'static str)
        ensures
            r == ("the protected secret store is unavailable"),
    {
        "the protected secret store is unavailable"
    }
}

#[derive(Debug, Clone, Copy, PartialEq, Eq, Structural)]
pub enum NodeIdentityError {
    StoreUnavailable,
    InvalidStoredIdentity,
    MissingStoredIdentity,
    GenerationFailed,
}

impl NodeIdentityError {
    /// The message shown for this error.
    pub fn message(&self) -> (r: &'static str)
        ensures
            r == (match self {
                NodeIdentityError::StoreUnavailable => "the protected node identity store is unavailable",
                NodeIdentityError::InvalidStoredIdentity => "the stored node identity is invalid",
                NodeIdentityError::MissingStoredIdentity => "the stored node identity is missing",
                NodeIdentityError::GenerationFailed => "a node identity could not be generated",
            }),
    {
        match self {
            NodeIdentityError::StoreUnavailable => "the protected node identity store is unavailable",
            NodeIdentityError::InvalidStoredIdentity => "the stored node identity is invalid",
            NodeIdentityError::MissingStoredIdentity => "the stored node identity is missing",
            NodeIdentityError::GenerationFailed => "a node identity could not be generated",
        }
    }
}

/// Any failure of the protected store reads as the store being unavailable.
pub fn map_store_error(error: SecretStoreError) -> (r: NodeIdentityError)
    ensures
        r == NodeIdentityError::StoreUnavailable,
{
    NodeIdentityError::StoreUnavailable
}

#[derive(Debug, Clone, Copy, PartialEq, Eq, Structural)]
pub enum IdentityResetError {
    RevocationUnavailable,
    StoreUnavailable,
}

impl IdentityResetError {
    /// The message shown for this error.
    pub fn message(&self) -> (r: &'static str)
        ensures
            r == (match self {
                IdentityResetError::RevocationUnavailable => "trusted device revocation is unavailable",
                IdentityResetError::StoreUnavailable => "the protected node identity store is unavailable",
            }),
    {
        match self {
            IdentityResetError::RevocationUnavailable => "trusted device revocation is unavailable",
            IdentityResetError::StoreUnavailable => "the protected node identity store is unavailable",
        }
    }
}

// ---------------------------------------------------------------------------
// The protected store
// ---------------------------------------------------------------------------

/// Where the node's signing key is kept.
pub trait NodeSecretStore {
    fn load(&self) -> Result<Option<Vec<u8>>, SecretStoreError>;

    fn store(&self, secret: &[u8]) -> Result<(), SecretStoreError>;

    fn delete(&self) -> Result<(), SecretStoreError>;
}

impl<T: NodeSecretStore> NodeSecretStore for &T {
    fn load(&self) -> Result<Option<Vec<u8>>, SecretStoreError> {
        T::load(*self)
    }

    fn store(&self, secret: &[u8]) -> Result<(), SecretStoreError> {
        T::store(*self, secret)
    }

    fn delete(&self) -> Result<(), SecretStoreError> {
        T::delete(*self)
    }
}

/// What a store's answer to a load means: the stored key, if any, or the
/// store being unavailable.
pub fn secret_from_stored(stored: Result<Option<Vec<u8>>, SecretStoreError>) -> (r: Result<
    Option<Vec<u8>>,
    NodeIdentityError,
>)
    ensures
        match stored {
            Err(_) => r == Err::<Option<Vec<u8>>, NodeIdentityError>(
                NodeIdentityError::StoreUnavailable,
            ),
            Ok(None) => r matches Ok(None),
            Ok(Some(secret)) => (r matches Ok(Some(s)) && s@ == secret@),
        },
{
    match stored {
        Err(e) => Err(map_store_error(e)),
        Ok(v) => Ok(v),
    }
}

/// What a store's answer to keeping a key means: kept, or the store being
/// unavailable.
pub fn store_outcome(stored: Result<(), SecretStoreError>) -> (r: Result<(), NodeIdentityError>)
    ensures
        match stored {
            Err(_) => r == Err::<(), NodeIdentityError>(NodeIdentityError::StoreUnavailable),
            Ok(()) => r == Ok::<(), NodeIdentityError>(()),
        },
{
    match stored {
        Err(e) => Err(map_store_error(e)),
        Ok(()) => Ok(()),
    }
}

/// What a store's answer to a load means for a node that must already
/// exist: its key, or why there is none.
pub fn existing_secret(stored: Result<Option<Vec<u8>>, SecretStoreError>) -> (r: Result<
    Vec<u8>,
    NodeIdentityError,
>)
    ensures
        match stored {
            Err(_) => r == Err::<Vec<u8>, NodeIdentityError>(NodeIdentityError::StoreUnavailable),
            Ok(None) => r == Err::<Vec<u8>, NodeIdentityError>(
                NodeIdentityError::MissingStoredIdentity,
            ),
            Ok(Some(secret)) => (r matches Ok(s) && s@ == secret@),
        },
{
    match stored {
        Err(e) => Err(map_store_error(e)),
        Ok(None) => Err(NodeIdentityError::MissingStoredIdentity),
        Ok(Some(secret)) => Ok(secret),
    }
}

/// Loads and keeps the node's signing key through a protected store.
pub struct NodeIdentityService<S> {
    store: S,
}

impl<S> NodeIdentityService<S> {
    /// The store the service works through.
    pub closed spec fn held_store(&self) -> S {
        self.store
    }
}

impl<S: NodeSecretStore> NodeIdentityService<S> {
    pub fn new(store: S) -> (r: Self)
        ensures
            r.held_store() == store,
    {
        NodeIdentityService { store }
    }

    /// The store back.
    pub fn into_store(self) -> (r: S)
        ensures
            r == self.held_store(),
    {
        self.store
    }

    /// The stored key, if any; the store's answer is read by
    /// `secret_from_stored`, so a store failure reads as the store being
    /// unavailable.
    pub fn load_secret(&self) -> (r: Result<Option<Vec<u8>>, NodeIdentityError>)
        ensures
            r matches Err(e) ==> e == NodeIdentityError::StoreUnavailable,
    {
        secret_from_stored(self.store.load())
    }

    /// The stored key of a node that must already exist: the store's answer
    /// is read by `existing_secret`, so a missing key is refused, never
    /// created.
    pub fn load_existing_secret(&self) -> (r: Result<Vec<u8>, NodeIdentityError>)
        ensures
            r matches Err(e) ==> e == NodeIdentityError::StoreUnavailable || e
                == NodeIdentityError::MissingStoredIdentity,
    {
        existing_secret(self.store.load())
    }

    /// Keeps a newly generated key; the store's answer is read by
    /// `store_outcome`.
    pub fn store_secret(&self, secret: &[u8]) -> (r: Result<(), NodeIdentityError>)
        ensures
            r matches Err(e) ==> e == NodeIdentityError::StoreUnavailable,
    {
        store_outcome(self.store.store(secret))
    }
}

// ---------------------------------------------------------------------------
// The signing key and the root certificate
// ---------------------------------------------------------------------------

#[verifier::external_type_specification]
#[verifier::external_body]
pub struct ExKeyPair(rcgen::KeyPair);

/// Whether `der` is a well-formed private key of a kind rcgen reads (a
/// function of the bytes alone).
pub uninterp spec fn parses_as_key(der: Seq<u8>) -> bool;

/// `rcgen::KeyPair::try_from` on stored key bytes: a key only when the bytes
/// parse as one.  Loading also draws from the system's random source, so
/// bytes that parse may still be refused; that is not stated.
#[verifier::external_body]
fn key_pair_from_der(secret: &[u8]) -> (r: Result<rcgen::KeyPair, ()>)
    ensures
        r is Ok ==> parses_as_key(secret@),
{
    rcgen::KeyPair::try_from(secret).map_err(|_| ())
}

/// `rcgen::KeyPair::generate`: a new ECDSA P-256 key drawn from the
/// system's random source, or a failure.  Nothing is promised of the key.
#[verifier::external_body]
fn generate_key() -> (r: Result<rcgen::KeyPair, ()>) {
    rcgen::KeyPair::generate().map_err(|_| ())
}

/// `rcgen::KeyPair::serialize_der`: the key's PKCS#8 bytes, which depend on
/// the key and are not stated.
#[verifier::external_body]
fn key_der(key: &rcgen::KeyPair) -> (r: Vec<u8>) {
    key.serialize_der()
}

/// `rcgen::PublicKeyData::subject_public_key_info`: the DER public key of
/// `key`, which depends on the key and is not stated.
#[verifier::external_body]
fn public_key_info(key: &rcgen::KeyPair) -> (r: Vec<u8>) {
    rcgen::PublicKeyData::subject_public_key_info(key)
}

/// The organization named in every certificate of the node.
pub const ROOT_ORGANIZATION: &'static str = "LocalStream";

/// When a root certificate becomes valid: 2025-01-01 00:00:00 UTC, in Unix
/// seconds.
pub const ROOT_NOT_BEFORE_UNIX: i64 = 1735689600;

/// When a root certificate stops being valid: 2125-01-01 00:00:00 UTC, in
/// Unix seconds.
pub const ROOT_NOT_AFTER_UNIX: i64 = 4891363200;

/// Digest bytes that make a certificate's serial number.
pub const ROOT_SERIAL_BYTES: usize = 20;

/// Seconds before its issuance from which a server leaf is valid.
pub const LEAF_BACKDATE_SECONDS: i64 = 300;

/// What a certificate's key may be used for.
#[derive(Debug, Clone, Copy, PartialEq, Eq, Structural)]
pub enum KeyUsage {
    KeyCertSign,
    DigitalSignature,
    CrlSign,
}

/// What a certificate's key may be used for beyond its key usages.
#[derive(Debug, Clone, Copy, PartialEq, Eq, Structural)]
pub enum ExtendedKeyUsage {
    ServerAuth,
}

/// The contents of a node's self-signed root certificate: the node
/// identifier as common name (with `ROOT_ORGANIZATION`), its validity in
/// Unix seconds, the serial number, the CA path length, and the key usages.
#[derive(Debug)]
pub struct RootCertificatePlan {
    pub common_name: String,
    pub not_before_unix: i64,
    pub not_after_unix: i64,
    pub serial: Vec<u8>,
    pub path_length: u8,
    pub key_usages: Vec<KeyUsage>,
}

/// The root certificate of the node whose public key is `public_key`: its
/// node identifier as common name, valid from 2025 to 2125, the first 20
/// bytes of the key's SHA-256 digest as serial, a CA that may sign leaves
/// only (path length 0), for certificate signing, signatures and CRLs.
pub open spec fn is_root_plan_for(p: RootCertificatePlan, public_key: Seq<u8>) -> bool {
    &&& p.common_name@ == node_id_of(public_key)
    &&& p.not_before_unix == ROOT_NOT_BEFORE_UNIX
    &&& p.not_after_unix == ROOT_NOT_AFTER_UNIX
    &&& p.serial@ == sha256_digest(public_key).take(ROOT_SERIAL_BYTES as int)
    &&& p.path_length == 0
    &&& p.key_usages@ == seq![KeyUsage::KeyCertSign, KeyUsage::DigitalSignature, KeyUsage::CrlSign]
}

/// The contents of a server leaf certificate, with times relative to its
/// issuance: the node identifier as common name (with
/// `ROOT_ORGANIZATION`), the names it is valid for, its serial number, its
/// validity, its key usages, and whether it names the key of its issuer.
/// A leaf is no CA.
#[derive(Debug)]
pub struct LeafCertificatePlan {
    pub common_name: String,
    pub names: Vec<LeafName>,
    pub serial: Vec<u8>,
    pub not_before_offset_seconds: i64,
    pub not_after_offset_seconds: i64,
    pub key_usages: Vec<KeyUsage>,
    pub extended_key_usages: Vec<ExtendedKeyUsage>,
    pub authority_key_identifier: bool,
}

// ---------------------------------------------------------------------------
// rcgen's certificate parameters and signing
// ---------------------------------------------------------------------------

#[verifier::external_type_specification]
#[verifier::external_body]
pub struct ExCertificateParams(rcgen::CertificateParams);

#[verifier::external_type_specification]
#[verifier::external_body]
pub struct ExKeyUsagePurpose(rcgen::KeyUsagePurpose);

#[verifier::external_type_specification]
#[verifier::external_body]
pub struct ExExtendedKeyUsagePurpose(rcgen::ExtendedKeyUsagePurpose);

#[verifier::external_type_specification]
#[verifier::external_body]
pub struct ExSanType(rcgen::SanType);

/// `rcgen::CertificateParams` with the subject `organization` and
/// `common_name` (and no other name part), the serial number `serial`, and
/// validity between the two Unix times (`time::OffsetDateTime::
/// from_unix_timestamp`, which refuses times it cannot represent).  Nothing
/// is stated of the opaque parameters.
#[verifier::external_body]
fn certificate_params(
    organization: &str,
    common_name: &str,
    serial: &[u8],
    not_before_unix: i64,
    not_after_unix: i64,
) -> (r: Result<rcgen::CertificateParams, ()>) {
    let mut params = rcgen::CertificateParams::default();
    params.distinguished_name = rcgen::DistinguishedName::new();
    params.distinguished_name.push(rcgen::DnType::OrganizationName, organization);
    params.distinguished_name.push(rcgen::DnType::CommonName, common_name);
    params.serial_number = Some(rcgen::SerialNumber::from_slice(serial));
    params.not_before = time::OffsetDateTime::from_unix_timestamp(not_before_unix).map_err(|_| ())?;
    params.not_after = time::OffsetDateTime::from_unix_timestamp(not_after_unix).map_err(|_| ())?;
    Ok(params)
}

/// Sets the key usages and extended key usages of `params`.
#[verifier::external_body]
fn set_usages(
    params: &mut rcgen::CertificateParams,
    usages: Vec<rcgen::KeyUsagePurpose>,
    extended: Vec<rcgen::ExtendedKeyUsagePurpose>,
) {
    params.key_usages = usages;
    params.extended_key_usages = extended;
}

/// Makes `params` those of a CA whose chain below it is at most
/// `path_length` long (`IsCa::Ca(BasicConstraints::Constrained(..))`).
#[verifier::external_body]
fn set_ca(params: &mut rcgen::CertificateParams, path_length: u8) {
    params.is_ca = rcgen::IsCa::Ca(rcgen::BasicConstraints::Constrained(path_length));
}

/// Sets the subject alternative names of `params`, and whether it carries
/// its issuer's key identifier.
#[verifier::external_body]
fn set_leaf_names(
    params: &mut rcgen::CertificateParams,
    names: Vec<rcgen::SanType>,
    authority_key_identifier: bool,
) {
    params.subject_alt_names = names;
    params.use_authority_key_identifier_extension = authority_key_identifier;
}

/// rcgen's key usage for `usage`.
#[verifier::external_body]
fn key_usage_purpose(usage: KeyUsage) -> (r: rcgen::KeyUsagePurpose) {
    match usage {
        KeyUsage::KeyCertSign => rcgen::KeyUsagePurpose::KeyCertSign,
        KeyUsage::DigitalSignature => rcgen::KeyUsagePurpose::DigitalSignature,
        KeyUsage::CrlSign => rcgen::KeyUsagePurpose::CrlSign,
    }
}

/// rcgen's extended key usage for `usage`.
#[verifier::external_body]
fn extended_key_usage_purpose(usage: ExtendedKeyUsage) -> (r: rcgen::ExtendedKeyUsagePurpose) {
    match usage {
        ExtendedKeyUsage::ServerAuth => rcgen::ExtendedKeyUsagePurpose::ServerAuth,
    }
}

/// rcgen's subject alternative name for `name`: an address (its bytes, most
/// significant first), or a DNS name (`Ia5String::try_from`, which refuses
/// text that is not ASCII).
#[verifier::external_body]
fn subject_alt_name(name: &LeafName) -> (r: Result<rcgen::SanType, ()>) {
    match name {
        LeafName::IpAddress(IpAddress::V4(v)) => Ok(rcgen::SanType::IpAddress(v.to_be_bytes().into())),
        LeafName::IpAddress(IpAddress::V6(v)) => Ok(rcgen::SanType::IpAddress(v.to_be_bytes().into())),
        LeafName::DnsName(dns) => rcgen::string::Ia5String::try_from(dns.as_str()).map(
            rcgen::SanType::DnsName,
        ).map_err(|_| ()),
    }
}

/// `CertificateParams::self_signed` with `key`: the DER of the signed
/// certificate, which is not stated, or a failure.
#[verifier::external_body]
fn self_sign(params: &rcgen::CertificateParams, key: &rcgen::KeyPair) -> (r: Result<Vec<u8>, ()>) {
    params.self_signed(key).map(|certificate| certificate.der().to_vec()).map_err(|_| ())
}

/// `CertificateParams::signed_by` for the public key of `key`, issued by
/// the certificate of `issuer_params` under `issuer_key`
/// (`Issuer::from_params`): the DER of the signed certificate, which is not
/// stated, or a failure.
#[verifier::external_body]
fn sign_by_issuer(
    params: &rcgen::CertificateParams,
    key: &rcgen::KeyPair,
    issuer_params: &rcgen::CertificateParams,
    issuer_key: &rcgen::KeyPair,
) -> (r: Result<Vec<u8>, ()>) {
    let issuer = rcgen::Issuer::from_params(issuer_params, issuer_key);
    params.signed_by(key, &issuer).map(|certificate| certificate.der().to_vec()).map_err(|_| ())
}

/// rcgen's key usages for `usages`, in order.
fn key_usage_purposes(usages: &Vec<KeyUsage>) -> (r: Vec<rcgen::KeyUsagePurpose>)
    ensures
        r@.len() == usages@.len(),
{
    let mut out: Vec<rcgen::KeyUsagePurpose> = Vec::new();
    let mut i: usize = 0;
    while i < usages.len()
        invariant
            i <= usages.len(),
            out@.len() == i,
        decreases usages.len() - i,
    {
        out.push(key_usage_purpose(usages[i]));
        i += 1;
    }
    out
}

/// rcgen's extended key usages for `usages`, in order.
fn extended_key_usage_purposes(usages: &Vec<ExtendedKeyUsage>) -> (r: Vec<
    rcgen::ExtendedKeyUsagePurpose,
>)
    ensures
        r@.len() == usages@.len(),
{
    let mut out: Vec<rcgen::ExtendedKeyUsagePurpose> = Vec::new();
    let mut i: usize = 0;
    while i < usages.len()
        invariant
            i <= usages.len(),
            out@.len() == i,
        decreases usages.len() - i,
    {
        out.push(extended_key_usage_purpose(usages[i]));
        i += 1;
    }
    out
}

/// rcgen's parameters for the root certificate of `plan`.
fn root_params(plan: &RootCertificatePlan) -> (r: Result<rcgen::CertificateParams, ()>) {
    let mut params = certificate_params(
        ROOT_ORGANIZATION,
        plan.common_name.as_str(),
        plan.serial.as_slice(),
        plan.not_before_unix,
        plan.not_after_unix,
    )?;
    set_ca(&mut params, plan.path_length);
    set_usages(&mut params, key_usage_purposes(&plan.key_usages), Vec::new());
    Ok(params)
}

// ---------------------------------------------------------------------------
// The node's identity
// ---------------------------------------------------------------------------

/// The node's identity: its signing key, the key's public part, the summary
/// derived from it, the plan of its root certificate and that certificate.
#[derive(Debug)]
pub struct NodeIdentity {
    summary: NodeIdentitySummary,
    public_key: Vec<u8>,
    root: RootCertificatePlan,
    root_der: Vec<u8>,
    signing_key: rcgen::KeyPair,
}

/// A server leaf: the certificate chain (the leaf, then the node's root)
/// and the leaf's own signing key.
#[derive(Debug)]
pub struct ServerLeaf {
    pub certificate_chain_der: Vec<Vec<u8>>,
    pub signing_key: rcgen::KeyPair,
}

impl NodeIdentity {
    /// The DER public key of the identity's signing key.
    pub closed spec fn public_key_spec(&self) -> Seq<u8> {
        self.public_key@
    }

    /// The identity's signing key.
    pub closed spec fn key_spec(&self) -> rcgen::KeyPair {
        self.signing_key
    }

    /// The DER of the identity's root certificate.
    pub closed spec fn root_der_spec(&self) -> Seq<u8> {
        self.root_der@
    }

    #[verifier::type_invariant]
    spec fn derived_from_key(&self) -> bool {
        &&& self.summary.node_id@ == node_id_of(self.public_key@)
        &&& self.summary.fingerprint@ == key_fingerprint_of(self.public_key@)
        &&& is_root_plan_for(self.root, self.public_key@)
    }

    /// The node identifier and fingerprint, derived from the public key.
    pub fn summary(&self) -> (r: &NodeIdentitySummary)
        ensures
            r.node_id@ == node_id_of(self.public_key_spec()),
            r.fingerprint@ == key_fingerprint_of(self.public_key_spec()),
    {
        proof {
            use_type_invariant(self);
        }
        &self.summary
    }

    /// The DER public key of the signing key.
    pub fn public_key_der(&self) -> (r: &[u8])
        ensures
            r@ == self.public_key_spec(),
    {
        self.public_key.as_slice()
    }

    /// The contents of the node's root certificate.
    pub fn root_certificate_plan(&self) -> (r: &RootCertificatePlan)
        ensures
            is_root_plan_for(*r, self.public_key_spec()),
    {
        proof {
            use_type_invariant(self);
        }
        &self.root
    }

    /// The node's root certificate, as DER.
    pub fn root_certificate_der(&self) -> (r: &[u8])
        ensures
            r@ == self.root_der_spec(),
    {
        self.root_der.as_slice()
    }

    /// The signing key.
    pub fn signing_key(&self) -> (r: &rcgen::KeyPair)
        ensures
            *r == self.key_spec(),
    {
        &self.signing_key
    }
}

/// The serial number of a certificate for `public_key`: the first 20 bytes
/// of the key's SHA-256 digest.
fn serial_of(public_key: &[u8]) -> (r: Vec<u8>)
    ensures
        r@ == sha256_digest(public_key@).take(ROOT_SERIAL_BYTES as int),
{
    let digest = sha256(public_key);
    let mut serial: Vec<u8> = Vec::new();
    let mut i: usize = 0;
    while i < ROOT_SERIAL_BYTES
        invariant
            i <= ROOT_SERIAL_BYTES,
            digest@.len() == 32,
            digest@ == sha256_digest(public_key@),
            serial@ == digest@.take(i as int),
        decreases ROOT_SERIAL_BYTES - i,
    {
        serial.push(digest[i]);
        assert(digest@.take(i + 1) =~= digest@.take(i as int).push(digest@[i as int]));
        i += 1;
    }
    serial
}

/// The identity made of `key`: its public key, the summary and root plan
/// derived from that, and the root certificate signed with the key;
/// `GenerationFailed` when signing fails.
fn identity_from_key(key: rcgen::KeyPair) -> (r: Result<NodeIdentity, NodeIdentityError>)
    ensures
        r matches Ok(id) ==> id.key_spec() == key,
        r matches Err(e) ==> e == NodeIdentityError::GenerationFailed,
{
    let public_key = public_key_info(&key);
    let summary = summarize_public_key(public_key.as_slice());
    let serial = serial_of(public_key.as_slice());
    let common_name = summary.node_id.clone();
    let root = RootCertificatePlan {
        common_name,
        not_before_unix: ROOT_NOT_BEFORE_UNIX,
        not_after_unix: ROOT_NOT_AFTER_UNIX,
        serial,
        path_length: 0,
        key_usages: vec![KeyUsage::KeyCertSign, KeyUsage::DigitalSignature, KeyUsage::CrlSign],
    };
    assert(root.key_usages@ =~= seq![
        KeyUsage::KeyCertSign,
        KeyUsage::DigitalSignature,
        KeyUsage::CrlSign,
    ]);
    let params = match root_params(&root) {
        Ok(params) => params,
        Err(_) => return Err(NodeIdentityError::GenerationFailed),
    };
    let root_der = match self_sign(&params, &key) {
        Ok(der) => der,
        Err(_) => return Err(NodeIdentityError::GenerationFailed),
    };
    Ok(NodeIdentity { summary, public_key, root, root_der, signing_key: key })
}

/// A server leaf ready to be signed by the node: its own new key, that
/// key's DER public key, and the certificate's contents.
#[derive(Debug)]
pub struct LeafPreparation {
    pub signing_key: rcgen::KeyPair,
    pub public_key: Vec<u8>,
    pub plan: LeafCertificatePlan,
}

/// The leaf contents for `names` (already checked) and a leaf key whose DER
/// public key is `public_key`, issued by the node `node_id`.
pub open spec fn is_leaf_plan_for(
    p: LeafCertificatePlan,
    node_id: Seq<char>,
    names: Seq<LeafNameView>,
    public_key: Seq<u8>,
) -> bool {
    &&& p.names@.map_values(|n: LeafName| n@) == names
    &&& p.common_name@ == node_id
    &&& p.serial@ == sha256_digest(public_key).take(ROOT_SERIAL_BYTES as int)
    &&& p.not_before_offset_seconds == -LEAF_BACKDATE_SECONDS
    &&& p.not_after_offset_seconds == LEAF_VALIDITY_DAYS * 86400
    &&& p.key_usages@ == seq![KeyUsage::DigitalSignature]
    &&& p.extended_key_usages@ == seq![ExtendedKeyUsage::ServerAuth]
    &&& p.authority_key_identifier
}

impl NodeIdentity {
    /// Prepares a server leaf for `names`: the names are checked (see
    /// `validate_leaf_names`), a new key is generated, and the leaf carries
    /// the node identifier, the checked names, the first 20 bytes of its own
    /// key's digest as serial, is valid from five minutes before its
    /// issuance for `LEAF_VALIDITY_DAYS` days, and signs for server
    /// authentication, naming its issuer's key.
    pub fn prepare_leaf(&self, names: &[String]) -> (r: Result<LeafPreparation, LeafIssuanceError>)
        ensures
            match leaf_names_for(names@.map_values(|n: String| n@)) {
                None => r == Err::<LeafPreparation, LeafIssuanceError>(LeafIssuanceError::InvalidNames),
                Some(out) => match r {
                    Ok(p) => is_leaf_plan_for(
                        p.plan,
                        node_id_of(self.public_key_spec()),
                        out,
                        p.public_key@,
                    ),
                    Err(e) => e == LeafIssuanceError::GenerationFailed,
                },
            },
    {
        proof {
            use_type_invariant(self);
        }
        let checked = validate_leaf_names(names)?;
        let signing_key = match generate_key() {
            Ok(key) => key,
            Err(_) => return Err(LeafIssuanceError::GenerationFailed),
        };
        let public_key = public_key_info(&signing_key);
        let serial = serial_of(public_key.as_slice());
        let plan = LeafCertificatePlan {
            common_name: self.summary.node_id.clone(),
            names: checked,
            serial,
            not_before_offset_seconds: -LEAF_BACKDATE_SECONDS,
            not_after_offset_seconds: LEAF_VALIDITY_DAYS * 86400,
            key_usages: vec![KeyUsage::DigitalSignature],
            extended_key_usages: vec![ExtendedKeyUsage::ServerAuth],
            authority_key_identifier: true,
        };
        assert(plan.key_usages@ =~= seq![KeyUsage::DigitalSignature]);
        assert(plan.extended_key_usages@ =~= seq![ExtendedKeyUsage::ServerAuth]);
        Ok(LeafPreparation { signing_key, public_key, plan })
    }

    /// Issues a server leaf for `names` at `now_unix_seconds`: the leaf of
    /// `prepare_leaf`, valid from its backdated start to its end (both
    /// counted from `now_unix_seconds`), signed by the node's root.  The
    /// chain is the new leaf followed by the root.  Names that fail the
    /// checks give `InvalidNames`; every other failure (key generation, an
    /// unrepresentable time, a name rcgen refuses, signing) gives
    /// `GenerationFailed`.
    pub fn issue_server_leaf_at(&self, names: &[String], now_unix_seconds: i64) -> (r: Result<
        ServerLeaf,
        LeafIssuanceError,
    >)
        ensures
            leaf_names_for(names@.map_values(|n: String| n@)) is None <==> r == Err::<
                ServerLeaf,
                LeafIssuanceError,
            >(LeafIssuanceError::InvalidNames),
            r matches Err(e) ==> e == LeafIssuanceError::InvalidNames || e
                == LeafIssuanceError::GenerationFailed,
            r matches Ok(leaf) ==> leaf.certificate_chain_der@.len() == 2
                && leaf.certificate_chain_der@[1]@ == self.root_der_spec(),
    {
        let preparation = self.prepare_leaf(names)?;
        let plan = &preparation.plan;
        let not_before = match now_unix_seconds.checked_add(plan.not_before_offset_seconds) {
            Some(t) => t,
            None => return Err(LeafIssuanceError::GenerationFailed),
        };
        let not_after = match now_unix_seconds.checked_add(plan.not_after_offset_seconds) {
            Some(t) => t,
            None => return Err(LeafIssuanceError::GenerationFailed),
        };
        let mut params = match certificate_params(
            ROOT_ORGANIZATION,
            plan.common_name.as_str(),
            plan.serial.as_slice(),
            not_before,
            not_after,
        ) {
            Ok(params) => params,
            Err(_) => return Err(LeafIssuanceError::GenerationFailed),
        };
        let mut alt_names: Vec<rcgen::SanType> = Vec::new();
        let mut i: usize = 0;
        while i < plan.names.len()
            invariant
                i <= plan.names.len(),
                leaf_names_for(names@.map_values(|n: String| n@)) is Some,
            decreases plan.names.len() - i,
        {
            match subject_alt_name(&plan.names[i]) {
                Ok(name) => alt_names.push(name),
                Err(_) => return Err(LeafIssuanceError::GenerationFailed),
            }
            i += 1;
        }
        set_leaf_names(&mut params, alt_names, plan.authority_key_identifier);
        set_usages(
            &mut params,
            key_usage_purposes(&plan.key_usages),
            extended_key_usage_purposes(&plan.extended_key_usages),
        );
        let issuer = match root_params(&self.root) {
            Ok(issuer) => issuer,
            Err(_) => return Err(LeafIssuanceError::GenerationFailed),
        };
        let leaf_der = match sign_by_issuer(&params, &preparation.signing_key, &issuer, &self.signing_key) {
            Ok(der) => der,
            Err(_) => return Err(LeafIssuanceError::GenerationFailed),
        };
        let chain = vec![leaf_der, self.root_der.clone()];
        Ok(ServerLeaf { certificate_chain_der: chain, signing_key: preparation.signing_key })
    }
}

/// What the key a store answered with leads to.
#[derive(Debug)]
pub enum IdentityStep {
    /// The identity cannot be had.
    Fail(NodeIdentityError),
    /// The stored key is used.
    Use(rcgen::KeyPair),
    /// No key is stored: one is generated and stored.
    Generate,
}

/// The step for a store's answer to a load: a store failure reads as the
/// store being unavailable; stored bytes that are no key are refused as an
/// invalid identity (nothing is stored or deleted), and stored bytes are
/// otherwise used as the key, or refused the same way when loading the key
/// fails; with nothing stored a key is generated.
pub fn identity_step(stored: Result<Option<Vec<u8>>, SecretStoreError>) -> (r: IdentityStep)
    ensures
        match stored {
            Err(_) => r == IdentityStep::Fail(NodeIdentityError::StoreUnavailable),
            Ok(None) => r is Generate,
            Ok(Some(secret)) => (r is Use || r == IdentityStep::Fail(
                NodeIdentityError::InvalidStoredIdentity,
            )) && (!parses_as_key(secret@) ==> r == IdentityStep::Fail(
                NodeIdentityError::InvalidStoredIdentity,
            )),
        },
{
    match stored {
        Err(e) => IdentityStep::Fail(map_store_error(e)),
        Ok(None) => IdentityStep::Generate,
        Ok(Some(secret)) => match key_pair_from_der(secret.as_slice()) {
            Ok(key) => IdentityStep::Use(key),
            Err(_) => IdentityStep::Fail(NodeIdentityError::InvalidStoredIdentity),
        },
    }
}

impl<S: NodeSecretStore> NodeIdentityService<S> {
    /// The node's identity, made from the stored key; the first time (no
    /// key stored) a key is generated and stored.  The store's answer is
    /// read by `identity_step`.
    pub fn load_or_create(&self) -> (r: Result<NodeIdentity, NodeIdentityError>)
        ensures
            r matches Err(e) ==> e == NodeIdentityError::StoreUnavailable || e
                == NodeIdentityError::InvalidStoredIdentity || e
                == NodeIdentityError::GenerationFailed,
    {
        match identity_step(self.store.load()) {
            IdentityStep::Fail(e) => Err(e),
            IdentityStep::Use(key) => identity_from_key(key),
            IdentityStep::Generate => {
                let key = match generate_key() {
                    Ok(key) => key,
                    Err(_) => return Err(NodeIdentityError::GenerationFailed),
                };
                let der = key_der(&key);
                self.store_secret(der.as_slice())?;
                identity_from_key(key)
            },
        }
    }

    /// The identity of a node that must already exist: a missing key is
    /// refused and never created, stored bytes that are no key are an
    /// invalid identity, and a root certificate that cannot be signed is a
    /// failed generation.
    pub fn load_existing(&self) -> (r: Result<NodeIdentity, NodeIdentityError>)
        ensures
            r matches Err(e) ==> e == NodeIdentityError::StoreUnavailable || e
                == NodeIdentityError::MissingStoredIdentity || e
                == NodeIdentityError::InvalidStoredIdentity || e
                == NodeIdentityError::GenerationFailed,
    {
        let secret = self.load_existing_secret()?;
        match key_pair_from_der(secret.as_slice()) {
            Ok(key) => identity_from_key(key),
            Err(_) => Err(NodeIdentityError::InvalidStoredIdentity),
        }
    }
}

/// Resets the node's identity: every trusted peer is revoked first (its
/// outcome is `revoked`); only then is the protected key deleted.  A failed
/// revocation leaves the key untouched.
pub fn reset_node_identity<S: NodeSecretStore>(revoked: Result<usize, DatabaseError>, store: &S) -> (r:
    Result<usize, IdentityResetError>)
    ensures
        revoked is Err ==> r == Err::<usize, IdentityResetError>(
            IdentityResetError::RevocationUnavailable,
        ),
        revoked matches Ok(n) ==> (r == Ok::<usize, IdentityResetError>(n) || r == Err::<
            usize,
            IdentityResetError,
        >(IdentityResetError::StoreUnavailable)),
{
    let count = match revoked {
        Ok(n) => n,
        Err(_) => return Err(IdentityResetError::RevocationUnavailable),
    };
    match store.delete() {
        Ok(()) => Ok(count),
        Err(_) => Err(IdentityResetError::StoreUnavailable),
    }
}

// ---------------------------------------------------------------------------
// Server leaf names
// ---------------------------------------------------------------------------

/// A DNS name a leaf may carry: at most 253 characters, ASCII, and every
/// dot-separated label 1 to 63 letters, digits or hyphens, not beginning or
/// ending with a hyphen.
pub open spec fn leaf_dns_name(name: Seq<char>) -> bool {
    &&& name.len() <= 253
    &&& forall|i: int| 0 <= i < name.len() ==> (#[trigger] name[i] as u32) < 128
    &&& forall|i: int|
        0 <= i < split_fields(name, '.').len() ==> valid_dns_label(
            #[trigger] split_fields(name, '.')[i],
        )
}

/// Whether `name` is a DNS name a leaf may carry.
pub fn is_valid_dns_name(name: &str) -> (r: bool)
    ensures
        r == leaf_dns_name(name@),
{
    let chars = crate::text::chars_of(name);
    if chars.len() > 253 {
        return false;
    }
    let mut i: usize = 0;
    while i < chars.len()
        invariant
            i <= chars.len(),
            chars@ == name@,
            forall|k: int| 0 <= k < i ==> (#[trigger] name@[k] as u32) < 128,
        decreases chars.len() - i,
    {
        if chars[i] as u32 >= 128 {
            return false;
        }
        i += 1;
    }
    let labels = split_ranges(&chars, '.');
    let ghost f = split_fields(name@, '.');
    let mut k: usize = 0;
    while k < labels.len()
        invariant
            chars@ == name@,
            f == split_fields(name@, '.'),
            labels@.len() == f.len(),
            k <= labels.len(),
            forall|i: int|
                0 <= i < labels@.len() ==> (#[trigger] labels@[i]).0 <= labels@[i].1 <= chars.len()
                    && chars@.subrange(labels@[i].0 as int, labels@[i].1 as int) == f[i],
            forall|i: int| 0 <= i < k ==> valid_dns_label(#[trigger] f[i]),
        decreases labels.len() - k,
    {
        let (a, b) = labels[k];
        if !dns_label_at(&chars, a, b) {
            assert(!valid_dns_label(f[k as int]));
            return false;
        }
        k += 1;
    }
    true
}

/// A name a server leaf carries: an IP address, or a DNS name in lowercase.
#[derive(Debug, Clone, PartialEq, Eq)]
pub enum LeafName {
    IpAddress(IpAddress),
    DnsName(String),
}

pub ghost enum LeafNameView {
    IpAddress(IpAddress),
    DnsName(Seq<char>),
}

impl View for LeafName {
    type V = LeafNameView;

    open spec fn view(&self) -> LeafNameView {
        match self {
            LeafName::IpAddress(a) => LeafNameView::IpAddress(*a),
            LeafName::DnsName(n) => LeafNameView::DnsName(n@),
        }
    }
}

/// The names of `names`, read in order, with the canonical text of each
/// (an address in its standard form, a DNS name in lowercase); `None` as
/// soon as a name is empty after trimming, holds `*`, is neither an address
/// nor a valid DNS name, or repeats an earlier canonical name.
pub open spec fn leaf_scan(names: Seq<Seq<char>>) -> Option<(Seq<LeafNameView>, Seq<Seq<char>>)>
    decreases names.len(),
{
    if names.len() == 0 {
        Some((Seq::empty(), Seq::empty()))
    } else {
        match leaf_scan(names.drop_last()) {
            None => None,
            Some((out, seen)) => {
                let t = trim(names.last());
                if t.len() == 0 || t.contains('*') {
                    None
                } else {
                    match parse_ip(t) {
                        Some(a) => if seen.contains(ip_text(a)) {
                            None
                        } else {
                            Some((out.push(LeafNameView::IpAddress(a)), seen.push(ip_text(a))))
                        },
                        None => {
                            let c = ascii_lower_seq(t);
                            if !leaf_dns_name(c) || seen.contains(c) {
                                None
                            } else {
                                Some((out.push(LeafNameView::DnsName(c)), seen.push(c)))
                            }
                        },
                    }
                }
            },
        }
    }
}

/// The names a leaf is issued for: 1 to 16 names, each valid and distinct
/// once canonical.
pub open spec fn leaf_names_for(names: Seq<Seq<char>>) -> Option<Seq<LeafNameView>> {
    if names.len() == 0 || names.len() > MAX_LEAF_NAMES {
        None
    } else {
        match leaf_scan(names) {
            Some((out, _)) => Some(out),
            None => None,
        }
    }
}

/// Once a prefix of the names is refused, so are all the names.
proof fn lemma_scan_refused_prefix(names: Seq<Seq<char>>, k: int)
    requires
        0 <= k <= names.len(),
        leaf_scan(names.take(k)) is None,
    ensures
        leaf_scan(names) is None,
    decreases names.len() - k,
{
    if k < names.len() {
        assert(names.take(k + 1).drop_last() =~= names.take(k));
        lemma_scan_refused_prefix(names, k + 1);
    } else {
        assert(names.take(k) =~= names);
    }
}

fn contains_text(seen: &Vec<String>, s: &str) -> (r: bool)
    ensures
        r == seen@.map_values(|x: String| x@).contains(s@),
{
    let mut i: usize = 0;
    while i < seen.len()
        invariant
            i <= seen.len(),
            forall|k: int| 0 <= k < i ==> (#[trigger] seen@[k])@ != s@,
        decreases seen.len() - i,
    {
        if crate::text::str_eq(seen[i].as_str(), s) {
            assert(seen@.map_values(|x: String| x@)[i as int] == s@);
            return true;
        }
        i += 1;
    }
    proof {
        let v = seen@.map_values(|x: String| x@);
        if v.contains(s@) {
            let k = choose|k: int| 0 <= k < v.len() && v[k] == s@;
            assert(seen@[k]@ == s@);
        }
    }
    false
}

/// Checks the names a leaf is requested for (see `leaf_names_for`).
pub fn validate_leaf_names(names: &[String]) -> (r: Result<Vec<LeafName>, LeafIssuanceError>)
    ensures
        match leaf_names_for(names@.map_values(|n: String| n@)) {
            Some(out) => (r matches Ok(v) && v@.map_values(|n: LeafName| n@) == out),
            None => r == Err::<Vec<LeafName>, LeafIssuanceError>(LeafIssuanceError::InvalidNames),
        },
{
    let ghost all = names@.map_values(|n: String| n@);
    if names.len() == 0 || names.len() > MAX_LEAF_NAMES {
        return Err(LeafIssuanceError::InvalidNames);
    }
    let mut out: Vec<LeafName> = Vec::new();
    let mut seen: Vec<String> = Vec::new();
    let mut i: usize = 0;
    assert(all.take(0) =~= Seq::<Seq<char>>::empty());
    assert(out@.map_values(|n: LeafName| n@) =~= Seq::<LeafNameView>::empty());
    assert(seen@.map_values(|x: String| x@) =~= Seq::<Seq<char>>::empty());
    while i < names.len()
        invariant
            i <= names.len(),
            all == names@.map_values(|n: String| n@),
            leaf_scan(all.take(i as int)) == Some(
                (out@.map_values(|n: LeafName| n@), seen@.map_values(|x: String| x@)),
            ),
        decreases names.len() - i,
    {
        proof {
            assert(all.take(i + 1).drop_last() =~= all.take(i as int));
            assert(all.take(i + 1).last() == names@[i as int]@);
        }
        let whole = crate::text::chars_of(names[i].as_str());
        let (start, end) = crate::text::trim_bounds(&whole, 0, whole.len());
        assert(whole@.subrange(0, whole.len() as int) == whole@);
        let chars = crate::ip_text::sub_chars(&whole, start, end);
        let ghost t = trim(names@[i as int]@);
        assert(chars@ == t);
        if chars.len() == 0 || crate::text::contains_char(&chars, 0, chars.len(), '*') {
            assert(chars@.subrange(0, chars.len() as int) == t);
            proof {
                lemma_scan_refused_prefix(all, i + 1);
            }
            return Err(LeafIssuanceError::InvalidNames);
        }
        assert(chars@.subrange(0, chars.len() as int) == t);
        let ghost out_before = out@;
        let ghost seen_before = seen@;
        match parse_ip_chars(&chars) {
            Some(address) => {
                let canonical = crate::ip_text::ip_address_string(address);
                if contains_text(&seen, canonical.as_str()) {
                    proof {
                        lemma_scan_refused_prefix(all, i + 1);
                    }
                    return Err(LeafIssuanceError::InvalidNames);
                }
                out.push(LeafName::IpAddress(address));
                seen.push(canonical);
                proof {
                    assert(out@.map_values(|n: LeafName| n@) =~= out_before.map_values(
                        |n: LeafName| n@,
                    ).push(LeafNameView::IpAddress(address)));
                    assert(seen@.map_values(|x: String| x@) =~= seen_before.map_values(
                        |x: String| x@,
                    ).push(ip_text(address)));
                }
            },
            None => {
                let text = crate::text::string_of(&chars);
                let canonical = crate::lan::ascii_lowercase(text.as_str());
                if !is_valid_dns_name(canonical.as_str()) || contains_text(
                    &seen,
                    canonical.as_str(),
                ) {
                    proof {
                        lemma_scan_refused_prefix(all, i + 1);
                    }
                    return Err(LeafIssuanceError::InvalidNames);
                }
                let copy = canonical.clone();
                out.push(LeafName::DnsName(canonical));
                seen.push(copy);
                proof {
                    assert(out@.map_values(|n: LeafName| n@) =~= out_before.map_values(
                        |n: LeafName| n@,
                    ).push(LeafNameView::DnsName(ascii_lower_seq(t))));
                    assert(seen@.map_values(|x: String| x@) =~= seen_before.map_values(
                        |x: String| x@,
                    ).push(ascii_lower_seq(t)));
                }
            },
        }
        i += 1;
    }
    assert(all.take(names.len() as int) =~= all);
    Ok(out)
}

} // verus!
