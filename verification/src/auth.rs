//! Peer credentials: display names, the bearer token that a trusted peer
//! presents, and the checks applied to what the peer store holds.
//!
//! The store itself (a database) stays outside this library: the functions
//! here prepare what is written to it and judge what is read back.
use vstd::prelude::*;
use vstd::string::StrSliceExecFns;

use crate::database::{DatabaseError, TrustedPeerRecord};
use crate::text::{chars_of, is_control, is_control_exec, str_eq, trim, trim_bounds};
use crate::token::{
    digest_token, is_uuid_text, new_random_id, random_token, is_well_formed_token, token_digest,
    well_formed_token,
};

verus! {

broadcast use vstd::string::group_string_axioms;

/// Longest accepted display name, in characters.
pub const MAX_DISPLAY_NAME_CHARS: usize = 100;

/// What a trusted peer may do.
#[derive(Debug, Clone, Copy, PartialEq, Eq, Structural)]
pub enum PeerCapability {
    LibraryRead,
}

#[derive(Debug, Clone, PartialEq, Eq)]
pub struct TrustedPeer {
    pub id: String,
    pub display_name: String,
    pub capability: PeerCapability,
}

#[derive(Debug, Clone, PartialEq, Eq)]
pub struct TrustedPeerSummary {
    pub id: String,
    pub display_name: String,
    pub capability: PeerCapability,
    pub created_at: i64,
}

pub struct IssuedCredential {
    pub peer: TrustedPeer,
    pub bearer_token: String,
}

/// A credential ready to be stored: the peer and token handed to the caller,
/// and the digest under which the token is stored.
pub struct PreparedCredential {
    pub credential: IssuedCredential,
    pub token_digest: [u8; 32],
}

#[derive(Debug, Clone, Copy, PartialEq, Eq, Structural)]
pub enum AuthError {
    InvalidDisplayName,
    MissingCredential,
    InvalidCredential,
    RevokedCredential,
    RandomnessUnavailable,
    Unavailable,
}

/// The message shown for `e`.
pub open spec fn auth_error_text(e: AuthError) -> &'static str {
    match e {
        AuthError::InvalidDisplayName => "a peer display name is required",
        AuthError::MissingCredential => "a bearer credential is required",
        AuthError::InvalidCredential => "the bearer credential is invalid",
        AuthError::RevokedCredential => "the peer credential has been revoked",
        AuthError::RandomnessUnavailable => "secure credential generation is unavailable",
        AuthError::Unavailable => "the credential store is unavailable",
    }
}

impl AuthError {
    /// The message shown for this error.
    pub fn message(&self) -> (r: &'static str)
        ensures
            r == auth_error_text(*self),
    {
        match self {
            AuthError::InvalidDisplayName => "a peer display name is required",
            AuthError::MissingCredential => "a bearer credential is required",
            AuthError::InvalidCredential => "the bearer credential is invalid",
            AuthError::RevokedCredential => "the peer credential has been revoked",
            AuthError::RandomnessUnavailable => "secure credential generation is unavailable",
            AuthError::Unavailable => "the credential store is unavailable",
        }
    }
}

impl From<DatabaseError> for AuthError {
    fn from(error: DatabaseError) -> (r: Self) {
        AuthError::Unavailable
    }
}

impl vstd::std_specs::convert::FromSpecImpl<DatabaseError> for AuthError {
    open spec fn obeys_from_spec() -> bool {
        true
    }

    open spec fn from_spec(v: DatabaseError) -> Self {
        AuthError::Unavailable
    }
}

/// The prefix of a peer bearer token.
pub open spec fn peer_token_prefix() -> Seq<char> {
    seq!['l', 's', '_', 'p', 'e', 'e', 'r', '_']
}

/// The stored name of the `LibraryRead` capability.
pub open spec fn library_read_text() -> Seq<char> {
    seq!['l', 'i', 'b', 'r', 'a', 'r', 'y', '.', 'r', 'e', 'a', 'd']
}

/// A display name is accepted when, trimmed, it is not empty, has at most
/// 100 characters and holds no control character.
pub open spec fn valid_display_name(name: Seq<char>) -> bool {
    let t = trim(name);
    &&& t.len() > 0
    &&& t.len() <= MAX_DISPLAY_NAME_CHARS
    &&& forall|i: int| 0 <= i < t.len() ==> !is_control(#[trigger] t[i])
}

/// The capability a stored capability name stands for.
pub open spec fn capability_of(value: Seq<char>) -> Option<PeerCapability> {
    if value == library_read_text() {
        Some(PeerCapability::LibraryRead)
    } else {
        None
    }
}

/// Why a stored peer cannot be listed, if it cannot.
pub open spec fn summary_error(record: TrustedPeerRecord) -> Option<AuthError> {
    if record.revoked {
        Some(AuthError::Unavailable)
    } else if capability_of(record.capability@) is None {
        Some(AuthError::InvalidCredential)
    } else {
        None
    }
}

/// The trimmed display name, when it is acceptable.
pub fn validate_display_name(display_name: &str) -> (r: Result<&str, AuthError>)
    ensures
        match r {
            Ok(name) => valid_display_name(display_name@) && name@ == trim(display_name@),
            Err(e) => !valid_display_name(display_name@) && e == AuthError::InvalidDisplayName,
        },
{
    let chars = chars_of(display_name);
    let (start, end) = trim_bounds(&chars, 0, chars.len());
    assert(chars@.subrange(0, chars.len() as int) == display_name@);
    let ghost t = trim(display_name@);
    if start == end || end - start > MAX_DISPLAY_NAME_CHARS {
        return Err(AuthError::InvalidDisplayName);
    }
    let mut i = start;
    while i < end
        invariant
            start <= i <= end <= chars.len(),
            t == trim(display_name@),
            chars@.subrange(start as int, end as int) == t,
            forall|j: int| 0 <= j < i - start ==> !is_control(#[trigger] t[j]),
        decreases end - i,
    {
        if is_control_exec(chars[i]) {
            assert(t[i - start] == chars@[i as int]);
            return Err(AuthError::InvalidDisplayName);
        }
        assert(t[i - start] == chars@[i as int]);
        i += 1;
    }
    Ok(display_name.substring_char(start, end))
}

/// The capability named `value` in the peer store.
pub fn parse_capability(value: &str) -> (r: Result<PeerCapability, AuthError>)
    ensures
        match capability_of(value@) {
            Some(c) => r == Ok::<PeerCapability, AuthError>(c),
            None => r == Err::<PeerCapability, AuthError>(AuthError::InvalidCredential),
        },
{
    proof {
        reveal_strlit("library.read");
        assert("library.read"@ == library_read_text());
    }
    if str_eq(value, "library.read") {
        Ok(PeerCapability::LibraryRead)
    } else {
        Err(AuthError::InvalidCredential)
    }
}

/// Whether `token` has the shape of a peer bearer token.
pub fn is_peer_token(token: &str) -> (r: bool)
    ensures
        r == well_formed_token(token@, peer_token_prefix()),
{
    proof {
        reveal_strlit("ls_peer_");
        assert("ls_peer_"@ == peer_token_prefix());
    }
    is_well_formed_token(token, "ls_peer_")
}

/// A new credential for `display_name`: a random peer identifier, a fresh
/// bearer token, and the digest to store for it.
pub fn prepare_credential(display_name: &str) -> (r: Result<PreparedCredential, AuthError>)
    ensures
        match r {
            Ok(p) => {
                &&& valid_display_name(display_name@)
                &&& p.credential.peer.display_name@ == trim(display_name@)
                &&& p.credential.peer.capability == PeerCapability::LibraryRead
                &&& is_uuid_text(p.credential.peer.id@)
                &&& well_formed_token(p.credential.bearer_token@, peer_token_prefix())
                &&& p.token_digest@ == token_digest(p.credential.bearer_token@)
            },
            Err(e) => if valid_display_name(display_name@) {
                e == AuthError::RandomnessUnavailable
            } else {
                e == AuthError::InvalidDisplayName
            },
        },
{
    let name = validate_display_name(display_name)?;
    proof {
        reveal_strlit("ls_peer_");
        assert("ls_peer_"@ == peer_token_prefix());
    }
    let bearer_token = random_token("ls_peer_")?;
    let token_digest = digest_token(bearer_token.as_str());
    let id = new_random_id()?;
    let peer = TrustedPeer {
        id,
        display_name: name.to_owned(),
        capability: PeerCapability::LibraryRead,
    };
    Ok(PreparedCredential { credential: IssuedCredential { peer, bearer_token }, token_digest })
}

/// The digest to look a presented bearer token up by.
pub fn bearer_digest(bearer_token: Option<&str>) -> (r: Result<[u8; 32], AuthError>)
    ensures
        match bearer_token {
            None => r == Err::<[u8; 32], AuthError>(AuthError::MissingCredential),
            Some(t) => if well_formed_token(t@, peer_token_prefix()) {
                r matches Ok(d) && d@ == token_digest(t@)
            } else {
                r == Err::<[u8; 32], AuthError>(AuthError::InvalidCredential)
            },
        },
{
    match bearer_token {
        None => Err(AuthError::MissingCredential),
        Some(t) => {
            if is_peer_token(t) {
                Ok(digest_token(t))
            } else {
                Err(AuthError::InvalidCredential)
            }
        },
    }
}

/// The peer a stored record grants, given the record found for a presented
/// token (or none).
pub fn peer_from_record(record: Option<TrustedPeerRecord>) -> (r: Result<TrustedPeer, AuthError>)
    ensures
        match record {
            None => r == Err::<TrustedPeer, AuthError>(AuthError::InvalidCredential),
            Some(rec) => if rec.revoked {
                r == Err::<TrustedPeer, AuthError>(AuthError::RevokedCredential)
            } else {
                match capability_of(rec.capability@) {
                    None => r == Err::<TrustedPeer, AuthError>(AuthError::InvalidCredential),
                    Some(c) => r matches Ok(peer) && peer.id@ == rec.id@ && peer.display_name@
                        == rec.display_name@ && peer.capability == c,
                }
            },
        },
{
    match record {
        None => Err(AuthError::InvalidCredential),
        Some(rec) => {
            if rec.revoked {
                return Err(AuthError::RevokedCredential);
            }
            let capability = parse_capability(rec.capability.as_str())?;
            Ok(TrustedPeer { id: rec.id, display_name: rec.display_name, capability })
        },
    }
}

/// The listing of the active peers read from the store.  A revoked record
/// among them means the store answered wrongly; an unknown capability is
/// refused as it is at sign-in.  The first such record decides the error.
pub fn summarize_peers(records: Vec<TrustedPeerRecord>) -> (r: Result<
    Vec<TrustedPeerSummary>,
    AuthError,
>)
    ensures
        match r {
            Ok(list) => {
                &&& forall|i: int| 0 <= i < records@.len() ==> summary_error(#[trigger] records@[i]) is None
                &&& list@.len() == records@.len()
                &&& forall|i: int|
                    0 <= i < list@.len() ==> {
                        &&& (#[trigger] list@[i]).id@ == records@[i].id@
                        &&& list@[i].display_name@ == records@[i].display_name@
                        &&& list@[i].capability == PeerCapability::LibraryRead
                        &&& list@[i].created_at == records@[i].created_at
                    }
            },
            Err(e) => exists|k: int|
                0 <= k < records@.len() && summary_error(#[trigger] records@[k]) == Some(e)
                    && forall|j: int| 0 <= j < k ==> summary_error(#[trigger] records@[j]) is None,
        },
{
    let mut list: Vec<TrustedPeerSummary> = Vec::new();
    let mut i: usize = 0;
    while i < records.len()
        invariant
            i <= records.len(),
            list@.len() == i,
            forall|j: int| 0 <= j < i ==> summary_error(#[trigger] records@[j]) is None,
            forall|j: int|
                0 <= j < i ==> {
                    &&& (#[trigger] list@[j]).id@ == records@[j].id@
                    &&& list@[j].display_name@ == records@[j].display_name@
                    &&& list@[j].capability == PeerCapability::LibraryRead
                    &&& list@[j].created_at == records@[j].created_at
                },
        decreases records.len() - i,
    {
        let rec = &records[i];
        if rec.revoked {
            assert(summary_error(records@[i as int]) == Some(AuthError::Unavailable));
            return Err(AuthError::Unavailable);
        }
        let capability = match parse_capability(rec.capability.as_str()) {
            Ok(c) => c,
            Err(e) => {
                assert(summary_error(records@[i as int]) == Some(AuthError::InvalidCredential));
                return Err(e);
            },
        };
        list.push(
            TrustedPeerSummary {
                id: rec.id.clone(),
                display_name: rec.display_name.clone(),
                capability,
                created_at: rec.created_at,
            },
        );
        i += 1;
    }
    Ok(list)
}

} // verus!
