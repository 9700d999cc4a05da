use std::cell::RefCell;

use x509_parser::{extensions::GeneralName, parse_x509_certificate};

use localstream_core::database::DatabaseError;
use localstream_core::net::IpAddress;
use localstream_core::node_identity::{
    is_valid_dns_name, reset_node_identity, secret_from_stored, store_outcome, summarize_public_key, validate_leaf_names,
    IdentityResetError, LeafIssuanceError, LeafName, NodeIdentityError, NodeIdentityService,
    NodeSecretStore, KeyUsage, ExtendedKeyUsage, SecretStoreError, MAX_LEAF_NAMES, NODE_ID_PREFIX,
};

#[derive(Default)]
struct MemoryStore {
    value: RefCell<Option<Vec<u8>>>,
    fail_load: bool,
    fail_store: bool,
    fail_delete: bool,
    deleted: RefCell<bool>,
}

impl NodeSecretStore for MemoryStore {
    fn load(&self) -> Result<Option<Vec<u8>>, SecretStoreError> {
        if self.fail_load {
            return Err(SecretStoreError::Unavailable);
        }
        Ok(self.value.borrow().clone())
    }

    fn store(&self, secret: &[u8]) -> Result<(), SecretStoreError> {
        if self.fail_store {
            return Err(SecretStoreError::Unavailable);
        }
        *self.value.borrow_mut() = Some(secret.to_vec());
        Ok(())
    }

    fn delete(&self) -> Result<(), SecretStoreError> {
        if self.fail_delete {
            return Err(SecretStoreError::Unavailable);
        }
        *self.value.borrow_mut() = None;
        *self.deleted.borrow_mut() = true;
        Ok(())
    }
}

#[test]
fn rejects_empty_wildcard_malformed_duplicate_and_excessive_leaf_names() {
    let invalid = [
        Vec::new(),
        vec!["".to_owned()],
        vec!["*.localstream.test".to_owned()],
        vec!["-bad.local".to_owned()],
        vec!["bad_.local".to_owned()],
        vec!["LOCALHOST".to_owned(), "localhost".to_owned()],
        vec!["127.0.0.1".to_owned(), "127.0.0.1".to_owned()],
        (0..=MAX_LEAF_NAMES).map(|index| format!("node-{index}.local")).collect(),
    ];
    let store = MemoryStore::default();
    let identity = NodeIdentityService::new(&store).load_or_create().expect("identity should generate");
    for names in invalid {
        assert_eq!(
            validate_leaf_names(&names).expect_err("names should fail"),
            LeafIssuanceError::InvalidNames
        );
        assert_eq!(
            identity.issue_server_leaf_at(&names, 1_800_000_000).err(),
            Some(LeafIssuanceError::InvalidNames)
        );
    }
}

#[test]
fn accepts_canonical_dns_and_address_names() {
    let names = vec![" LocalHost ".to_owned(), "127.0.0.1".to_owned(), "::1".to_owned()];
    let sans = validate_leaf_names(&names).expect("names should validate");
    assert_eq!(
        sans,
        vec![
            LeafName::DnsName("localhost".to_owned()),
            LeafName::IpAddress(IpAddress::V4(0x7f00_0001)),
            LeafName::IpAddress(IpAddress::V6(1)),
        ]
    );
    let names = vec!["::1".to_owned(), "0:0:0:0:0:0:0:1".to_owned()];
    assert!(validate_leaf_names(&names).is_err());
    assert!(is_valid_dns_name("media.home"));
    assert!(!is_valid_dns_name("media..home"));
    assert!(!is_valid_dns_name("médiä.home"));
    assert!(!is_valid_dns_name(&"a".repeat(64)));
}

#[test]
fn generates_and_restores_a_stable_public_identity() {
    let store = MemoryStore::default();
    let first = NodeIdentityService::new(&store).load_or_create().expect("identity should generate");
    let restored = NodeIdentityService::new(&store).load_or_create().expect("identity should restore");

    assert_eq!(first.summary(), restored.summary());
    assert!(first.summary().node_id.starts_with(NODE_ID_PREFIX));
    assert_eq!(first.summary().fingerprint.len(), 95);
    assert!(!first.root_certificate_der().is_empty());
    assert!(!restored.root_certificate_der().is_empty());
}

#[test]
fn fails_closed_for_corrupt_stored_identity_without_replacing_it() {
    let original = b"not a PKCS8 key".to_vec();
    let store = MemoryStore { value: RefCell::new(Some(original.clone())), ..MemoryStore::default() };

    let error = NodeIdentityService::new(&store).load_or_create().expect_err("corrupt identity should fail");

    assert_eq!(error, NodeIdentityError::InvalidStoredIdentity);
    assert_eq!(store.value.borrow().as_ref(), Some(&original));
    assert!(!*store.deleted.borrow());
}

#[test]
fn fails_without_returning_an_ephemeral_identity_when_storage_fails() {
    let load_error = NodeIdentityService::new(MemoryStore { fail_load: true, ..MemoryStore::default() })
        .load_or_create()
        .expect_err("load failure should fail closed");
    assert_eq!(load_error, NodeIdentityError::StoreUnavailable);

    let store_error = NodeIdentityService::new(MemoryStore { fail_store: true, ..MemoryStore::default() })
        .load_or_create()
        .expect_err("store failure should fail closed");
    assert_eq!(store_error, NodeIdentityError::StoreUnavailable);
}

#[test]
fn existing_only_load_never_creates_a_missing_identity() {
    let store = MemoryStore::default();
    let error = NodeIdentityService::new(&store).load_existing().expect_err("missing identity should fail");

    assert_eq!(error, NodeIdentityError::MissingStoredIdentity);
    assert!(store.value.borrow().is_none());

    let created = NodeIdentityService::new(&store).load_or_create().expect("identity should create");
    let existing = NodeIdentityService::new(&store).load_existing().expect("identity should load");
    assert_eq!(created.summary(), existing.summary());
}

#[test]
fn root_certificate_plan_follows_the_public_key() {
    let store = MemoryStore::default();
    let identity = NodeIdentityService::new(&store).load_or_create().expect("identity should generate");
    let plan = identity.root_certificate_plan();
    assert_eq!(plan.common_name, identity.summary().node_id);
    assert_eq!((plan.not_before_unix, plan.not_after_unix), (1_735_689_600, 4_891_363_200));
    assert_eq!(plan.serial.len(), 20);
    assert_eq!(plan.path_length, 0);
    assert_eq!(
        plan.key_usages,
        vec![KeyUsage::KeyCertSign, KeyUsage::DigitalSignature, KeyUsage::CrlSign]
    );
    assert_eq!(summarize_public_key(identity.public_key_der()), *identity.summary());
}

#[test]
fn secret_store_answers_are_read_directly() {
    let service = NodeIdentityService::new(MemoryStore { fail_store: true, ..MemoryStore::default() });
    assert_eq!(service.store_secret(b"generated key"), Err(NodeIdentityError::StoreUnavailable));
    let store = MemoryStore::default();
    let service = NodeIdentityService::new(&store);
    assert_eq!(service.load_existing_secret(), Err(NodeIdentityError::MissingStoredIdentity));
    service.store_secret(b"generated key").expect("key should store");
    assert_eq!(service.load_existing_secret(), Ok(b"generated key".to_vec()));
    assert_eq!(service.load_secret(), Ok(Some(b"generated key".to_vec())));
}

#[test]
fn summary_is_stable_and_well_formed() {
    let first = summarize_public_key(b"public key material");
    let again = summarize_public_key(b"public key material");
    let other = summarize_public_key(b"other key material");
    assert_eq!(first, again);
    assert_ne!(first.node_id, other.node_id);
    assert!(first.node_id.starts_with(NODE_ID_PREFIX));
    assert_eq!(first.node_id.len(), NODE_ID_PREFIX.len() + 22);
    assert_eq!(first.fingerprint.len(), 95);
    assert!(first.fingerprint.split(':').all(|pair| pair.len() == 2
        && pair.chars().all(|c| c.is_ascii_hexdigit() && !c.is_ascii_lowercase())));
    let abc = summarize_public_key(b"abc");
    assert!(abc.fingerprint.starts_with("BA:78:16:BF"));
}

#[test]
fn identity_reset_revokes_all_peers_before_deleting_the_root() {
    let store = MemoryStore::default();
    let revoked = reset_node_identity(Ok(2), &store).expect("identity should reset");
    assert_eq!(revoked, 2);
    assert!(*store.deleted.borrow());
}

#[test]
fn identity_reset_keeps_peers_revoked_when_protected_deletion_fails() {
    let store = MemoryStore { fail_delete: true, ..MemoryStore::default() };
    let error = reset_node_identity(Ok(1), &store).expect_err("store failure should fail reset");
    assert_eq!(error, IdentityResetError::StoreUnavailable);
}

#[test]
fn identity_reset_never_deletes_without_revocation() {
    let store = MemoryStore::default();
    *store.value.borrow_mut() = Some(b"key".to_vec());
    let error = reset_node_identity(Err(DatabaseError::Unavailable), &store)
        .expect_err("revocation failure should fail reset");
    assert_eq!(error, IdentityResetError::RevocationUnavailable);
    assert!(!*store.deleted.borrow());
    assert_eq!(store.value.borrow().clone(), Some(b"key".to_vec()));
}

#[test]
fn store_answers_are_read_as_identity_outcomes() {
    assert_eq!(
        secret_from_stored(Ok(Some(b"key".to_vec()))),
        Ok(Some(b"key".to_vec()))
    );
    assert_eq!(secret_from_stored(Ok(None)), Ok(None));
    assert_eq!(
        secret_from_stored(Err(SecretStoreError::Unavailable)),
        Err(NodeIdentityError::StoreUnavailable)
    );
    assert_eq!(store_outcome(Ok(())), Ok(()));
    assert_eq!(
        store_outcome(Err(SecretStoreError::Unavailable)),
        Err(NodeIdentityError::StoreUnavailable)
    );
}

#[test]
fn summary_encodes_the_key_digest() {
    let summary = summarize_public_key(b"abc");
    assert_eq!(summary.node_id, "ls_node_ungWv48Bz-pBQUDeXa4iIw");
    assert_eq!(
        summary.fingerprint,
        "BA:78:16:BF:8F:01:CF:EA:41:41:40:DE:5D:AE:22:23:B0:03:61:A3:96:17:7A:9C:B4:10:FF:61:F2:00:15:AD"
    );
}

#[test]
fn leaves_carry_checked_names_and_their_own_serial() {
    let store = MemoryStore::default();
    let identity = NodeIdentityService::new(&store).load_or_create().expect("identity should generate");
    let names = vec![" LocalHost ".to_owned(), "127.0.0.1".to_owned()];
    let leaf = identity.prepare_leaf(&names).expect("leaf should prepare");
    assert_eq!(
        leaf.plan.names,
        vec![LeafName::DnsName("localhost".to_owned()), LeafName::IpAddress(IpAddress::V4(0x7f00_0001))]
    );
    assert_eq!(leaf.plan.common_name, identity.summary().node_id);
    assert_eq!(leaf.plan.serial.len(), 20);
    assert_eq!((leaf.plan.not_before_offset_seconds, leaf.plan.not_after_offset_seconds), (-300, 30 * 86_400));
    assert_eq!(leaf.plan.key_usages, vec![KeyUsage::DigitalSignature]);
    assert_eq!(leaf.plan.extended_key_usages, vec![ExtendedKeyUsage::ServerAuth]);
    assert!(leaf.plan.authority_key_identifier);
    assert_ne!(leaf.public_key, identity.public_key_der());
    let other = identity.prepare_leaf(&names).expect("leaf should prepare");
    assert_ne!(leaf.plan.serial, other.plan.serial);
    assert_eq!(
        identity.prepare_leaf(&["*.localstream.test".to_owned()]).err(),
        Some(LeafIssuanceError::InvalidNames)
    );
}

const LEAF_VALIDITY_SECONDS: i64 = 30 * 86_400;

#[test]
fn issues_a_short_lived_server_only_leaf_with_dns_and_ip_sans() {
    let store = MemoryStore::default();
    let identity = NodeIdentityService::new(&store).load_or_create().expect("identity should generate");
    let now: i64 = 1_800_000_000;
    let leaf = identity
        .issue_server_leaf_at(&["LocalHost".to_owned(), "127.0.0.1".to_owned(), "::1".to_owned()], now)
        .expect("leaf should issue");

    assert_eq!(leaf.certificate_chain_der.len(), 2);
    assert_eq!(leaf.certificate_chain_der[1], identity.root_certificate_der());
    let (_, parsed_leaf) = parse_x509_certificate(&leaf.certificate_chain_der[0]).expect("leaf should parse");
    let (_, parsed_root) = parse_x509_certificate(&leaf.certificate_chain_der[1]).expect("root should parse");
    parsed_leaf
        .verify_signature(Some(parsed_root.public_key()))
        .expect("root should verify leaf signature");

    let sans = parsed_leaf
        .subject_alternative_name()
        .expect("SAN parsing should succeed")
        .expect("SAN should exist");
    assert!(sans.value.general_names.contains(&GeneralName::DNSName("localhost")));
    assert!(sans.value.general_names.contains(&GeneralName::IPAddress(&[127, 0, 0, 1])));
    assert!(sans
        .value
        .general_names
        .contains(&GeneralName::IPAddress(&[0, 0, 0, 0, 0, 0, 0, 0, 0, 0, 0, 0, 0, 0, 0, 1])));

    let key_usage = parsed_leaf
        .key_usage()
        .expect("key usage should parse")
        .expect("key usage should exist");
    assert!(key_usage.value.digital_signature());
    assert!(!key_usage.value.key_cert_sign());
    let extended = parsed_leaf
        .extended_key_usage()
        .expect("extended usage should parse")
        .expect("extended usage should exist");
    assert!(extended.value.server_auth);
    assert!(!extended.value.client_auth);
    assert!(!extended.value.any);

    let validity = parsed_leaf.validity();
    assert_eq!(validity.not_before.timestamp(), now - 5 * 60);
    assert_eq!(validity.not_after.timestamp(), now + LEAF_VALIDITY_SECONDS);
    assert!(parsed_root.validity().not_after.timestamp() > validity.not_after.timestamp());
}

#[test]
fn generates_a_unique_key_for_each_leaf_and_redacts_debug_output() {
    let store = MemoryStore::default();
    let identity = NodeIdentityService::new(&store).load_or_create().expect("identity should generate");
    let names = ["localhost".to_owned()];
    let first = identity.issue_server_leaf_at(&names, 1_800_000_000).expect("first leaf should issue");
    let second = identity.issue_server_leaf_at(&names, 1_800_000_000).expect("second leaf should issue");
    let (_, first_cert) = parse_x509_certificate(&first.certificate_chain_der[0]).expect("first leaf should parse");
    let (_, second_cert) =
        parse_x509_certificate(&second.certificate_chain_der[0]).expect("second leaf should parse");

    assert_ne!(first_cert.public_key().raw, second_cert.public_key().raw);
    let debug = format!("{first:?}");
    assert!(debug.starts_with("ServerLeaf { certificate_chain_der: "));
    assert!(!debug.contains(
        &base64::Engine::encode(&base64::engine::general_purpose::STANDARD, first.signing_key.serialize_der())
    ));
}

#[test]
fn root_certificate_is_a_path_limited_ca_for_the_node() {
    let store = MemoryStore::default();
    let identity = NodeIdentityService::new(&store).load_or_create().expect("identity should generate");
    let (_, root) = parse_x509_certificate(identity.root_certificate_der()).expect("root should parse");
    root.verify_signature(None).expect("root should be self-signed");
    assert_eq!(root.validity().not_before.timestamp(), 1_735_689_600);
    assert_eq!(root.validity().not_after.timestamp(), 4_891_363_200);
    let constraints = root
        .basic_constraints()
        .expect("constraints should parse")
        .expect("constraints should exist");
    assert!(constraints.value.ca);
    assert_eq!(constraints.value.path_len_constraint, Some(0));
    let subject = root.subject().to_string();
    assert!(subject.contains(&identity.summary().node_id));
    assert!(subject.contains("LocalStream"));
}
