use std::collections::HashMap;

use localstream_core::token::new_random_id;
use localstream_core::auth::{
    bearer_digest, parse_capability, peer_from_record, prepare_credential, summarize_peers,
    validate_display_name, AuthError, PeerCapability, TrustedPeer,
};
use localstream_core::database::{
    parse_probe_status, probe_status_name, BrowserSessionRecord, TrustedPeerRecord,
};
use localstream_core::media::ProbeStatus;
use localstream_core::session::{prepare_session, session_digest, session_peer, SESSION_TTL_SECONDS};
use localstream_core::token::digest_token;

/// A stand-in for the peer table of the library database: records by the
/// digest of their token.
#[derive(Default)]
struct PeerStore {
    peers: HashMap<[u8; 32], TrustedPeerRecord>,
}

impl PeerStore {
    fn issue(&mut self, display_name: &str) -> Result<localstream_core::auth::IssuedCredential, AuthError> {
        let prepared = prepare_credential(display_name)?;
        let peer = &prepared.credential.peer;
        self.peers.insert(
            prepared.token_digest,
            TrustedPeerRecord {
                id: peer.id.clone(),
                display_name: peer.display_name.clone(),
                capability: "library.read".to_string(),
                created_at: 1_700_000_000,
                revoked: false,
            },
        );
        Ok(prepared.credential)
    }

    fn authenticate(&self, token: Option<&str>) -> Result<TrustedPeer, AuthError> {
        let digest = bearer_digest(token)?;
        peer_from_record(self.peers.get(&digest).cloned())
    }

    fn revoke(&mut self, peer_id: &str) -> bool {
        let mut changed = false;
        for record in self.peers.values_mut() {
            if record.id == peer_id && !record.revoked {
                record.revoked = true;
                changed = true;
            }
        }
        changed
    }
}

/// A stand-in for the browser session table.
#[derive(Default)]
struct SessionStore {
    sessions: HashMap<[u8; 32], BrowserSessionRecord>,
}

impl SessionStore {
    fn issue_at(
        &mut self,
        display_name: &str,
        now: i64,
        ttl: u64,
    ) -> Result<localstream_core::session::IssuedBrowserSession, AuthError> {
        let prepared = prepare_session(display_name, now, ttl)?;
        self.sessions.insert(
            prepared.session_digest,
            BrowserSessionRecord {
                peer_id: prepared.session.peer.id.clone(),
                display_name: prepared.session.peer.display_name.clone(),
                capability: "library.read".to_string(),
                expires_at: prepared.expires_at,
                session_revoked: false,
                peer_revoked: false,
            },
        );
        Ok(prepared.session)
    }

    fn authenticate_at(&mut self, token: Option<&str>, now: i64) -> Result<TrustedPeer, AuthError> {
        let digest = session_digest(token)?;
        self.sessions.retain(|_, record| record.expires_at > now);
        session_peer(self.sessions.get(&digest).cloned(), now)
    }
}

#[test]
fn issues_authenticates_and_revokes_a_peer_credential() {
    let mut store = PeerStore::default();
    let issued = store.issue("Living Room TV").expect("credential should issue");

    assert!(issued.bearer_token.starts_with("ls_peer_"));
    assert_eq!(issued.peer.display_name, "Living Room TV");
    assert!(matches!(issued.peer.capability, PeerCapability::LibraryRead));
    assert!(matches!(store.authenticate(None), Err(AuthError::MissingCredential)));
    assert!(matches!(
        store.authenticate(Some("ls_peer_invalid")),
        Err(AuthError::InvalidCredential)
    ));

    let authenticated = store
        .authenticate(Some(&issued.bearer_token))
        .expect("issued credential should authenticate");
    assert_eq!(authenticated, issued.peer);

    assert!(store.revoke(&issued.peer.id));
    assert!(matches!(
        store.authenticate(Some(&issued.bearer_token)),
        Err(AuthError::RevokedCredential)
    ));
    assert!(!store.revoke(&issued.peer.id));
}

#[test]
fn rejects_invalid_peer_display_names() {
    assert!(matches!(
        prepare_credential("   "),
        Err(AuthError::InvalidDisplayName)
    ));
    assert!(matches!(
        prepare_credential(&"x".repeat(101)),
        Err(AuthError::InvalidDisplayName)
    ));
    assert!(matches!(
        prepare_credential("Living\nRoom"),
        Err(AuthError::InvalidDisplayName)
    ));
}

#[test]
fn issues_digest_only_session_and_enforces_expiry() {
    let mut store = SessionStore::default();
    let issued = store
        .issue_at("Living Room Browser", 1_000, 60)
        .expect("session should issue");

    assert!(issued.session_token.starts_with("ls_session_"));
    assert_eq!(issued.expires_in_seconds, 60);
    assert_eq!(
        store
            .authenticate_at(Some(&issued.session_token), 1_059)
            .expect("session should authenticate"),
        issued.peer
    );
    assert!(store.authenticate_at(Some(&issued.session_token), 1_060).is_err());
    assert!(!store
        .sessions
        .contains_key(&digest_token(&issued.session_token)));
}

#[test]
fn peer_revocation_immediately_invalidates_the_bound_session() {
    let mut store = SessionStore::default();
    let issued = store
        .issue_at("Bedroom Browser", 2_000, 60)
        .expect("session should issue");
    for record in store.sessions.values_mut() {
        if record.peer_id == issued.peer.id {
            record.peer_revoked = true;
            record.session_revoked = true;
        }
    }
    assert!(store.authenticate_at(Some(&issued.session_token), 2_001).is_err());
    let record = store
        .sessions
        .get(&digest_token(&issued.session_token))
        .expect("revoked session should remain");
    assert!(record.peer_revoked);
    assert!(record.session_revoked);
}

#[test]
fn malformed_unknown_and_unknown_capability_sessions_fail_uniformly() {
    let mut store = SessionStore::default();
    let issued = store
        .issue_at("Kitchen Browser", 3_000, 60)
        .expect("session should issue");
    let malformed = store
        .authenticate_at(Some("invalid"), 3_001)
        .expect_err("malformed token should fail")
        .message();
    let unknown = store
        .authenticate_at(
            Some("ls_session_AAAAAAAAAAAAAAAAAAAAAAAAAAAAAAAAAAAAAAAAAAA"),
            3_001,
        )
        .expect_err("unknown token should fail")
        .message();
    assert_eq!(malformed, unknown);

    store
        .sessions
        .get_mut(&digest_token(&issued.session_token))
        .expect("session should be stored")
        .capability = "unknown.capability".to_string();
    assert!(store.authenticate_at(Some(&issued.session_token), 3_001).is_err());
}

#[test]
fn session_lifetimes_must_be_positive_and_representable() {
    assert!(matches!(
        prepare_session("Browser", 1_000, 0),
        Err(AuthError::Unavailable)
    ));
    assert!(matches!(
        prepare_session("Browser", i64::MAX, 1),
        Err(AuthError::Unavailable)
    ));
    assert!(matches!(
        prepare_session("Browser", 0, u64::MAX),
        Err(AuthError::Unavailable)
    ));
    assert!(matches!(
        prepare_session(" ", 0, 60),
        Err(AuthError::InvalidDisplayName)
    ));
    let prepared = prepare_session("Browser", 5, SESSION_TTL_SECONDS).expect("session should issue");
    assert_eq!(prepared.expires_at, 5 + 86_400);
    assert_eq!(prepared.created_at, 5);
    assert_ne!(prepared.session_digest, prepared.peer_token_digest);
}

#[test]
fn display_names_are_trimmed_and_bounded() {
    assert_eq!(validate_display_name("  Den \t"), Ok("Den"));
    assert_eq!(validate_display_name(&"é".repeat(100)).map(str::len), Ok(200));
    assert_eq!(
        validate_display_name(&"é".repeat(101)),
        Err(AuthError::InvalidDisplayName)
    );
    assert_eq!(validate_display_name(""), Err(AuthError::InvalidDisplayName));
}

#[test]
fn digests_are_sha256_of_the_token_text() {
    let digest = digest_token("abc");
    assert_eq!(
        digest[..4],
        [0xba, 0x78, 0x16, 0xbf],
        "SHA-256 of \"abc\" starts with ba7816bf"
    );
    assert_ne!(digest_token("abc"), digest_token("abd"));
}

#[test]
fn stored_capabilities_and_peer_listings() {
    assert_eq!(parse_capability("library.read"), Ok(PeerCapability::LibraryRead));
    assert_eq!(parse_capability("library.write"), Err(AuthError::InvalidCredential));
    let record = |id: &str, capability: &str, revoked: bool| TrustedPeerRecord {
        id: id.to_string(),
        display_name: format!("Peer {id}"),
        capability: capability.to_string(),
        created_at: 42,
        revoked,
    };
    let listed = summarize_peers(vec![record("a", "library.read", false), record("b", "library.read", false)])
        .expect("active peers should list");
    assert_eq!(listed.len(), 2);
    assert_eq!(listed[1].display_name, "Peer b");
    assert_eq!(listed[0].created_at, 42);
    assert_eq!(
        summarize_peers(vec![record("a", "other", false), record("b", "library.read", true)]).err(),
        Some(AuthError::InvalidCredential)
    );
    assert_eq!(
        summarize_peers(vec![record("a", "library.read", true), record("b", "other", false)]).err(),
        Some(AuthError::Unavailable)
    );
    assert!(matches!(peer_from_record(None), Err(AuthError::InvalidCredential)));
}

#[test]
fn probe_statuses_round_trip_through_their_stored_names() {
    for status in [ProbeStatus::Available, ProbeStatus::NotProbed, ProbeStatus::Unavailable] {
        assert_eq!(parse_probe_status(probe_status_name(status)), Some(status));
    }
    assert_eq!(probe_status_name(ProbeStatus::NotProbed), "not_probed");
    assert_eq!(parse_probe_status("probed"), None);
}

fn is_hyphenated_uuid(id: &str) -> bool {
    id.len() == 36
        && id.char_indices().all(|(i, c)| {
            if [8, 13, 18, 23].contains(&i) {
                c == '-'
            } else {
                c.is_ascii_digit() || ('a'..='f').contains(&c)
            }
        })
}

#[test]
fn random_ids_are_fresh_hyphenated_uuids() {
    let first = new_random_id().expect("randomness should be available");
    let second = new_random_id().expect("randomness should be available");
    assert!(is_hyphenated_uuid(&first));
    assert!(is_hyphenated_uuid(&second));
    assert_eq!(&first[14..15], "4");
    assert_ne!(first, second);
    let prepared = prepare_credential("Living Room TV").expect("credential should prepare");
    assert!(is_hyphenated_uuid(&prepared.credential.peer.id));
}

#[test]
fn random_uuid_values_follow_the_version_four_layout() {
    let bytes: Vec<u8> = (0u8..16).collect();
    let value = localstream_core::token::uuid_value_from_random(&bytes);
    assert_eq!(value, 0x0001_0203_0405_4607_8809_0a0b_0c0d_0e0f);
    let mut array = [0u8; 16];
    array.copy_from_slice(&bytes);
    assert_eq!(value, uuid::Builder::from_random_bytes(array).into_uuid().as_u128());
    let all_ones = vec![0xffu8; 16];
    assert_eq!(
        localstream_core::token::uuid_value_from_random(&all_ones),
        uuid::Builder::from_random_bytes([0xff; 16]).into_uuid().as_u128()
    );
}
