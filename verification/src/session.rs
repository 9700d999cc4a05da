//! Browser sessions: a session token bound to a browser peer, valid for a
//! limited time.  Only digests are stored; the store itself stays outside
//! this library.
use vstd::prelude::*;

use crate::auth::{
    capability_of, parse_capability, valid_display_name, validate_display_name, AuthError,
    PeerCapability, TrustedPeer,
};
use crate::database::BrowserSessionRecord;
use crate::text::trim;
use crate::token::{
    digest_token, is_uuid_text, is_well_formed_token, new_random_id, random_token, token_digest,
    well_formed_token,
};

verus! {

broadcast use vstd::string::group_string_axioms;

pub const SESSION_COOKIE_NAME: &'static str = "__Host-localstream_session";

/// A browser session lasts a day.
pub const SESSION_TTL_SECONDS: u64 = 24 * 60 * 60;

pub struct IssuedBrowserSession {
    pub peer: TrustedPeer,
    pub session_token: String,
    pub expires_in_seconds: u64,
}

/// A session ready to be stored: what the browser receives, the digests to
/// store, and the session's lifetime in Unix seconds.  The browser peer gets
/// a bearer token digest that no one holds the token of.
pub struct PreparedSession {
    pub session: IssuedBrowserSession,
    pub session_digest: [u8; 32],
    pub peer_token_digest: [u8; 32],
    pub created_at: i64,
    pub expires_at: i64,
}

/// The prefix of a session token.
pub open spec fn session_token_prefix() -> Seq<char> {
    seq!['l', 's', '_', 's', 'e', 's', 's', 'i', 'o', 'n', '_']
}

/// The expiry of a session started at `now` for `ttl` seconds, when the
/// lifetime is positive and the expiry is a representable Unix time.
pub open spec fn session_expiry(now: i64, ttl: u64) -> Option<i64> {
    if ttl > i64::MAX || now + ttl > i64::MAX || ttl == 0 {
        None
    } else {
        Some((now + ttl) as i64)
    }
}

/// What a stored session grants at `now`: the peer's identifier, name and
/// capability, or the error.
pub open spec fn session_grant(record: Option<BrowserSessionRecord>, now: i64) -> Result<
    (Seq<char>, Seq<char>, PeerCapability),
    AuthError,
> {
    match record {
        None => Err(AuthError::InvalidCredential),
        Some(r) => if r.session_revoked || r.peer_revoked || now >= r.expires_at {
            Err(AuthError::InvalidCredential)
        } else {
            match capability_of(r.capability@) {
                Some(c) => Ok((r.peer_id@, r.display_name@, c)),
                None => Err(AuthError::InvalidCredential),
            }
        },
    }
}

/// Whether `token` has the shape of a session token.
pub fn is_session_token(token: &str) -> (r: bool)
    ensures
        r == well_formed_token(token@, session_token_prefix()),
{
    proof {
        reveal_strlit("ls_session_");
        assert("ls_session_"@ == session_token_prefix());
    }
    is_well_formed_token(token, "ls_session_")
}

/// A new browser session for `display_name`, started at `now` (Unix
/// seconds) and lasting `ttl_seconds`.
pub fn prepare_session(display_name: &str, now: i64, ttl_seconds: u64) -> (r: Result<
    PreparedSession,
    AuthError,
>)
    ensures
        match r {
            Ok(p) => {
                &&& valid_display_name(display_name@)
                &&& session_expiry(now, ttl_seconds) == Some(p.expires_at)
                &&& p.created_at == now
                &&& p.session.expires_in_seconds == ttl_seconds
                &&& p.session.peer.display_name@ == trim(display_name@)
                &&& p.session.peer.capability == PeerCapability::LibraryRead
                &&& is_uuid_text(p.session.peer.id@)
                &&& well_formed_token(p.session.session_token@, session_token_prefix())
                &&& p.session_digest@ == token_digest(p.session.session_token@)
                &&& exists|t: Seq<char>|
                    well_formed_token(t, crate::auth::peer_token_prefix()) && p.peer_token_digest@
                        == #[trigger] token_digest(t)
            },
            Err(e) => if !valid_display_name(display_name@) {
                e == AuthError::InvalidDisplayName
            } else if session_expiry(now, ttl_seconds) is None {
                e == AuthError::Unavailable
            } else {
                e == AuthError::RandomnessUnavailable
            },
        },
{
    let name = validate_display_name(display_name)?;
    if ttl_seconds > i64::MAX as u64 {
        return Err(AuthError::Unavailable);
    }
    let ttl = ttl_seconds as i64;
    let expires_at = match now.checked_add(ttl) {
        Some(e) => e,
        None => return Err(AuthError::Unavailable),
    };
    if ttl_seconds == 0 {
        return Err(AuthError::Unavailable);
    }
    proof {
        reveal_strlit("ls_session_");
        assert("ls_session_"@ == session_token_prefix());
        reveal_strlit("ls_peer_");
        assert("ls_peer_"@ == crate::auth::peer_token_prefix());
    }
    let session_token = random_token("ls_session_")?;
    let session_digest = digest_token(session_token.as_str());
    let peer_token = random_token("ls_peer_")?;
    let peer_token_digest = digest_token(peer_token.as_str());
    let id = new_random_id()?;
    let peer = TrustedPeer {
        id,
        display_name: name.to_owned(),
        capability: PeerCapability::LibraryRead,
    };
    Ok(
        PreparedSession {
            session: IssuedBrowserSession { peer, session_token, expires_in_seconds: ttl_seconds },
            session_digest,
            peer_token_digest,
            created_at: now,
            expires_at,
        },
    )
}

/// The digest to look a presented session token up by.
pub fn session_digest(session_token: Option<&str>) -> (r: Result<[u8; 32], AuthError>)
    ensures
        match session_token {
            None => r == Err::<[u8; 32], AuthError>(AuthError::MissingCredential),
            Some(t) => if well_formed_token(t@, session_token_prefix()) {
                r matches Ok(d) && d@ == token_digest(t@)
            } else {
                r == Err::<[u8; 32], AuthError>(AuthError::InvalidCredential)
            },
        },
{
    match session_token {
        None => Err(AuthError::MissingCredential),
        Some(t) => {
            if is_session_token(t) {
                Ok(digest_token(t))
            } else {
                Err(AuthError::InvalidCredential)
            }
        },
    }
}

/// The peer a stored session grants at `now` (Unix seconds), given the
/// record found for a presented token (or none).  Every refusal is the same
/// error, so a caller learns nothing of why.
pub fn session_peer(record: Option<BrowserSessionRecord>, now: i64) -> (r: Result<
    TrustedPeer,
    AuthError,
>)
    ensures
        match session_grant(record, now) {
            Ok((id, name, c)) => r matches Ok(peer) && peer.id@ == id && peer.display_name@ == name
                && peer.capability == c,
            Err(e) => r == Err::<TrustedPeer, AuthError>(e),
        },
{
    match record {
        None => Err(AuthError::InvalidCredential),
        Some(rec) => {
            if rec.session_revoked || rec.peer_revoked || now >= rec.expires_at {
                return Err(AuthError::InvalidCredential);
            }
            let capability = parse_capability(rec.capability.as_str())?;
            Ok(TrustedPeer { id: rec.peer_id, display_name: rec.display_name, capability })
        },
    }
}

/// A stored session that is not revoked grants its peer exactly until its
/// expiry: at every earlier second, and at none from the expiry on.
pub proof fn lemma_session_valid_until_expiry(record: BrowserSessionRecord, now: i64)
    requires
        !record.session_revoked,
        !record.peer_revoked,
        capability_of(record.capability@) is Some,
    ensures
        session_grant(Some(record), now) is Ok <==> now < record.expires_at,
{
}

} // verus!
