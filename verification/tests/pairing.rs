use localstream_core::auth::{
    bearer_digest, peer_from_record, prepare_credential, AuthError, PeerCapability,
};
use localstream_core::database::TrustedPeerRecord;
use localstream_core::pairing::{PairingError, PairingService, PAIRING_TTL_NANOS};

const SECOND: u64 = 1_000_000_000;
// An arbitrary monotonic clock reading.
const NOW: u64 = 10_000 * SECOND;

fn service(ttl_nanos: u64, capacity: usize) -> PairingService {
    PairingService::new(ttl_nanos, capacity)
}

/// Claims `request_id`, issues the credential for the returned name and
/// settles the claim, as the application does around its peer store.
fn claim_and_issue(
    pairing: &mut PairingService,
    request_id: &str,
    claim_secret: &str,
    now: u64,
) -> Result<localstream_core::auth::PreparedCredential, PairingError> {
    let name = pairing.claim_at(request_id, claim_secret, now)?;
    match prepare_credential(&name) {
        Ok(prepared) => {
            pairing.settle_claim(request_id, true);
            Ok(prepared)
        }
        Err(error) => {
            pairing.settle_claim(request_id, false);
            Err(PairingError::Auth(error))
        }
    }
}

#[test]
fn pairing_requires_approval_and_issues_exactly_one_credential() {
    let mut pairing = service(120 * SECOND, 4);
    let receipt = pairing
        .begin_at("Living Room TV", NOW)
        .expect("request should begin");

    assert!(receipt.request_id.starts_with("ls_pair_"));
    assert!(receipt.claim_secret.starts_with("ls_claim_"));
    assert_eq!(receipt.verification_code.len(), 6);
    assert!(receipt
        .verification_code
        .bytes()
        .all(|byte| byte.is_ascii_digit()));
    let pending = pairing.pending_at(NOW);
    assert_eq!(pending.len(), 1);
    assert_eq!(pending[0].display_name, "Living Room TV");

    assert!(matches!(
        pairing.claim_at(&receipt.request_id, &receipt.claim_secret, NOW),
        Err(PairingError::NotApproved)
    ));
    let invalid_code = if receipt.verification_code == "000000" {
        "000001"
    } else {
        "000000"
    };
    assert!(matches!(
        pairing.approve_at(&receipt.request_id, invalid_code, NOW),
        Err(PairingError::InvalidVerificationCode)
    ));
    pairing
        .approve_at(&receipt.request_id, &receipt.verification_code, NOW)
        .expect("matching code should approve");
    assert!(pairing.pending_at(NOW).is_empty());
    assert!(matches!(
        pairing.claim_at(&receipt.request_id, "ls_claim_invalid", NOW),
        Err(PairingError::InvalidClaimSecret)
    ));

    let credential = claim_and_issue(&mut pairing, &receipt.request_id, &receipt.claim_secret, NOW)
        .expect("approved request should issue");
    let digest = bearer_digest(Some(&credential.credential.bearer_token))
        .expect("issued token should be well formed");
    assert_eq!(digest, credential.token_digest);
    let stored = TrustedPeerRecord {
        id: credential.credential.peer.id.clone(),
        display_name: credential.credential.peer.display_name.clone(),
        capability: "library.read".to_string(),
        created_at: 1,
        revoked: false,
    };
    let peer = peer_from_record(Some(stored)).expect("issued peer should authenticate");
    assert_eq!(peer, credential.credential.peer);
    assert!(matches!(
        pairing.claim_at(&receipt.request_id, &receipt.claim_secret, NOW),
        Err(PairingError::ReplayedRequest)
    ));
}

#[test]
fn rejected_pairing_cannot_be_claimed() {
    let mut pairing = service(120 * SECOND, 4);
    let receipt = pairing
        .begin_at("Unknown Browser", NOW)
        .expect("request should begin");

    pairing
        .reject_at(&receipt.request_id, NOW)
        .expect("pending request should reject");

    assert!(matches!(
        pairing.claim_at(&receipt.request_id, &receipt.claim_secret, NOW),
        Err(PairingError::Rejected)
    ));
}

#[test]
fn pairing_requests_expire_and_capacity_is_bounded() {
    let mut expiring = service(1_000_000, 1);
    let receipt = expiring
        .begin_at("Short Lived Client", NOW)
        .expect("request should begin");
    assert!(matches!(
        expiring.approve_at(&receipt.request_id, &receipt.verification_code, NOW + 1_000_000),
        Err(PairingError::ExpiredRequest)
    ));

    let mut bounded = service(120 * SECOND, 1);
    let first = bounded
        .begin_at("First Client", NOW)
        .expect("first request should begin");
    assert!(matches!(
        bounded.begin_at("Second Client", NOW),
        Err(PairingError::CapacityReached)
    ));
    bounded
        .reject_at(&first.request_id, NOW)
        .expect("rejection should release capacity");
    bounded
        .begin_at("Second Client", NOW)
        .expect("released capacity should be reusable");
}

#[test]
fn default_service_lives_two_minutes_and_reports_it() {
    let mut pairing = PairingService::default();
    assert_eq!(PAIRING_TTL_NANOS, 120 * SECOND);
    let receipt = pairing.begin_at("Kitchen Tablet", NOW).expect("request should begin");
    assert_eq!(receipt.expires_in_seconds, 120);
    let pending = pairing.pending_at(NOW + 30 * SECOND + 1);
    assert_eq!(pending.len(), 1);
    assert_eq!(pending[0].expires_in_seconds, 89);
    assert_eq!(pending[0].request_id, receipt.request_id);
    assert_eq!(pending[0].verification_code, receipt.verification_code);
}

#[test]
fn display_names_are_trimmed_and_invalid_names_are_refused() {
    let mut pairing = service(120 * SECOND, 4);
    assert!(matches!(
        pairing.begin_at("   ", NOW),
        Err(PairingError::Auth(AuthError::InvalidDisplayName))
    ));
    assert!(matches!(
        pairing.begin_at("Living\nRoom", NOW),
        Err(PairingError::Auth(AuthError::InvalidDisplayName))
    ));
    pairing.begin_at("  Den  ", NOW).expect("request should begin");
    assert_eq!(pairing.pending_at(NOW)[0].display_name, "Den");
}

#[test]
fn expired_requests_are_pruned_and_answered_as_expired() {
    let mut pairing = service(10 * SECOND, 2);
    let first = pairing.begin_at("First", NOW).expect("request should begin");
    let later = NOW + 10 * SECOND;
    assert!(pairing.pending_at(later).is_empty());
    assert!(matches!(
        pairing.claim_at(&first.request_id, &first.claim_secret, later),
        Err(PairingError::ExpiredRequest)
    ));
    assert!(matches!(
        pairing.reject_at(&first.request_id, later),
        Err(PairingError::ExpiredRequest)
    ));
}

#[test]
fn unknown_requests_and_repeated_decisions_are_refused() {
    let mut pairing = service(120 * SECOND, 4);
    assert!(matches!(
        pairing.approve_at("ls_pair_unknown", "000000", NOW),
        Err(PairingError::UnknownRequest)
    ));
    let receipt = pairing.begin_at("Phone", NOW).expect("request should begin");
    pairing
        .approve_at(&receipt.request_id, &receipt.verification_code, NOW)
        .expect("code should approve");
    assert!(matches!(
        pairing.approve_at(&receipt.request_id, &receipt.verification_code, NOW),
        Err(PairingError::AlreadyDecided)
    ));
    assert!(matches!(
        pairing.reject_at(&receipt.request_id, NOW),
        Err(PairingError::AlreadyDecided)
    ));
    pairing
        .claim_at(&receipt.request_id, &receipt.claim_secret, NOW)
        .expect("approved request should be claimable");
    assert!(matches!(
        pairing.claim_at(&receipt.request_id, &receipt.claim_secret, NOW),
        Err(PairingError::ReplayedRequest)
    ));
    // Issuing failed: the request may be claimed again.
    pairing.settle_claim(&receipt.request_id, false);
    pairing
        .claim_at(&receipt.request_id, &receipt.claim_secret, NOW)
        .expect("request should be claimable again");
}

#[test]
fn pending_requests_are_listed_by_identifier() {
    let mut pairing = service(120 * SECOND, 8);
    for name in ["A", "B", "C", "D", "E"] {
        pairing.begin_at(name, NOW).expect("request should begin");
    }
    let pending = pairing.pending_at(NOW);
    assert_eq!(pending.len(), 5);
    for pair in pending.windows(2) {
        assert!(pair[0].request_id < pair[1].request_id);
    }
}

#[test]
fn issued_credentials_carry_the_library_capability() {
    let prepared = prepare_credential("  Bedroom  ").expect("credential should be prepared");
    assert_eq!(prepared.credential.peer.display_name, "Bedroom");
    assert_eq!(prepared.credential.peer.capability, PeerCapability::LibraryRead);
    assert!(prepared.credential.bearer_token.starts_with("ls_peer_"));
    assert_eq!(prepared.credential.bearer_token.len(), 8 + 43);
    assert_eq!(prepared.credential.peer.id.len(), 36);
}
