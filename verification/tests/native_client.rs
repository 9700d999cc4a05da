use std::cell::RefCell;
use std::rc::Rc;

use localstream_core::native_client::{
    decode_record, encode_record, save_plan, validate_record, NativePeerTrust, NativePeerTrustService,
    NativePeerTrustStore, NativeTrustError,
};

#[derive(Clone, Default)]
struct MemoryStore(Rc<RefCell<Option<Vec<u8>>>>);

impl NativePeerTrustStore for MemoryStore {
    fn load(&self, _: &str) -> Result<Option<Vec<u8>>, NativeTrustError> {
        Ok(self.0.borrow().clone())
    }
    fn store(&self, _: &str, value: &[u8]) -> Result<(), NativeTrustError> {
        *self.0.borrow_mut() = Some(value.to_vec());
        Ok(())
    }
    fn delete(&self, _: &str) -> Result<(), NativeTrustError> {
        *self.0.borrow_mut() = None;
        Ok(())
    }
}

fn record() -> NativePeerTrust {
    NativePeerTrust {
        node_id: "ls_node_example".into(),
        root_fingerprint: ["AA"; 32].join(":"),
        endpoint_hints: vec!["https://192.168.1.10:8443".into()],
        bearer_credential: "ls_peer_secret".into(),
    }
}

#[test]
fn persists_verifies_and_deletes_protected_trust() {
    let store = MemoryStore::default();
    let service = NativePeerTrustService::new(store.clone());
    service.save_verified(&record(), false).unwrap();
    assert_eq!(
        service
            .verify_pin("ls_node_example", &["AA"; 32].join(":"))
            .unwrap(),
        record()
    );
    service.delete("ls_node_example").unwrap();
    assert!(service.load("ls_node_example").unwrap().is_none());
}

#[test]
fn rejects_pin_change_corruption_and_silent_replacement() {
    let store = MemoryStore::default();
    let service = NativePeerTrustService::new(store.clone());
    service.save_verified(&record(), false).unwrap();
    assert_eq!(
        service
            .verify_pin("ls_node_example", &["BB"; 32].join(":"))
            .unwrap_err(),
        NativeTrustError::PinMismatch
    );
    let mut changed = record();
    changed.root_fingerprint = ["BB"; 32].join(":");
    assert_eq!(
        service.save_verified(&changed, false).unwrap_err(),
        NativeTrustError::ReplacementApprovalRequired
    );
    service.save_verified(&changed, true).unwrap();
    *store.0.borrow_mut() = Some(b"corrupt".to_vec());
    assert_eq!(
        service.load("ls_node_example").unwrap_err(),
        NativeTrustError::CorruptRecord
    );
}

#[test]
fn records_are_length_prefixed_in_name_order() {
    let bytes = encode_record(&record());
    let expected = format!(
        "LSTRUST1\ncredential:14:ls_peer_secret\nfingerprint:95:{}\nnode:15:ls_node_example\nendpoint:25:https://192.168.1.10:8443\n",
        ["AA"; 32].join(":")
    );
    assert_eq!(String::from_utf8(bytes.clone()).unwrap(), expected);
    assert_eq!(decode_record(&bytes).unwrap(), record());
}

#[test]
fn lengths_count_bytes_and_fields_may_not_repeat() {
    let mut unicode = record();
    unicode.node_id = "ls_node_café".into();
    let bytes = encode_record(&unicode);
    assert!(String::from_utf8(bytes.clone()).unwrap().contains("node:13:ls_node_café\n"));
    assert_eq!(decode_record(&bytes).unwrap(), unicode);

    let fingerprint = ["AA"; 32].join(":");
    let duplicated = format!(
        "LSTRUST1\nnode:15:ls_node_example\nnode:15:ls_node_example\nfingerprint:95:{fingerprint}\ncredential:14:ls_peer_secret\nendpoint:25:https://192.168.1.10:8443\n"
    );
    assert_eq!(decode_record(duplicated.as_bytes()).unwrap_err(), NativeTrustError::CorruptRecord);
    let wrong_length = format!(
        "LSTRUST1\nnode:14:ls_node_example\nfingerprint:95:{fingerprint}\ncredential:14:ls_peer_secret\nendpoint:25:https://192.168.1.10:8443\n"
    );
    assert_eq!(decode_record(wrong_length.as_bytes()).unwrap_err(), NativeTrustError::CorruptRecord);
    let reordered = format!(
        "LSTRUST1\nendpoint:25:https://192.168.1.10:8443\nnode:15:ls_node_example\nfingerprint:95:{fingerprint}\ncredential:14:ls_peer_secret"
    );
    assert_eq!(decode_record(reordered.as_bytes()).unwrap(), record());
}

#[test]
fn invalid_records_are_refused() {
    let mut bad = record();
    bad.endpoint_hints = vec![];
    assert_eq!(validate_record(&bad), Err(NativeTrustError::InvalidRecord));
    let mut bad = record();
    bad.endpoint_hints = vec!["https://host/path".into()];
    assert_eq!(validate_record(&bad), Err(NativeTrustError::InvalidRecord));
    let mut bad = record();
    bad.endpoint_hints = vec!["http://host".into()];
    assert_eq!(validate_record(&bad), Err(NativeTrustError::InvalidRecord));
    let mut bad = record();
    bad.root_fingerprint = ["AG"; 32].join(":");
    assert_eq!(validate_record(&bad), Err(NativeTrustError::InvalidRecord));
    let mut bad = record();
    bad.node_id = format!("ls_node_{}", "x".repeat(89));
    assert_eq!(validate_record(&bad), Err(NativeTrustError::InvalidRecord));
    let mut bad = record();
    bad.bearer_credential = "ls_claim_secret".into();
    assert_eq!(validate_record(&bad), Err(NativeTrustError::InvalidRecord));
    let mut fine = record();
    fine.endpoint_hints = (0..16).map(|i| format!("https://host{i}")).collect();
    assert_eq!(validate_record(&fine), Ok(()));
    fine.endpoint_hints.push("https://host16".into());
    assert_eq!(validate_record(&fine), Err(NativeTrustError::InvalidRecord));
    let service = NativePeerTrustService::new(MemoryStore::default());
    assert_eq!(service.save_verified(&bad, false), Err(NativeTrustError::InvalidRecord));
    assert_eq!(
        service.verify_pin("ls_node_example", "AA").unwrap_err(),
        NativeTrustError::PinMismatch
    );
}

#[test]
fn saving_stores_the_encoding_or_nothing() {
    let kept = record();
    assert_eq!(save_plan(Ok(None), &kept, false), Ok(encode_record(&kept)));
    assert_eq!(
        save_plan(Err(NativeTrustError::CorruptRecord), &kept, true),
        Err(NativeTrustError::CorruptRecord)
    );
    let mut changed = record();
    changed.bearer_credential = "ls_peer_other".into();
    assert_eq!(
        save_plan(Ok(Some(kept.clone())), &changed, false),
        Err(NativeTrustError::ReplacementApprovalRequired)
    );
    assert_eq!(save_plan(Ok(Some(kept.clone())), &changed, true), Ok(encode_record(&changed)));
    let mut moved = record();
    moved.endpoint_hints = vec!["https://192.168.1.11:8443".into()];
    assert_eq!(save_plan(Ok(Some(kept)), &moved, false), Ok(encode_record(&moved)));
}
