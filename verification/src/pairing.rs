//! Pairing of new devices.
//!
//! A device asks to pair and receives a request identifier, a six-digit
//! verification code and a claim secret.  The owner compares the code shown
//! on both sides and approves (or rejects) the request; the device then
//! claims its credential once with the secret.  Requests expire after a time
//! to live, their number is bounded, and the outcome of the last finished
//! requests is remembered so that a replayed claim is told apart from an
//! unknown one.
//!
//! Times are readings of a monotonic clock in nanoseconds, supplied by the
//! caller.
use vstd::prelude::*;

use crate::auth::{valid_display_name, validate_display_name, AuthError};
use crate::text::{
    all_digits, append_str, is_digit, starts_with, str_eq, string_of, text_less, text_less_exec,
    trim,
};
use crate::token::{
    digest_token, digests_match, is_url_safe_char, is_well_formed_token, random_base64,
    random_bytes, random_token, token_digest, well_formed_token,
};

verus! {

broadcast use vstd::string::group_string_axioms;

/// Time to live of a pairing request: two minutes.
pub const PAIRING_TTL_NANOS: u64 = 120_000_000_000;

/// Most requests waiting at once.
pub const MAX_ACTIVE_REQUESTS: usize = 32;

/// Number of finished requests whose outcome is remembered.
pub const MAX_TOMBSTONES: usize = 64;

/// Random bytes behind a request identifier.
pub const REQUEST_BYTES: usize = 16;

/// Fresh identifiers drawn before giving up on a request; a collision of
/// 128-bit random identifiers is not expected even once.
pub const REQUEST_ID_ATTEMPTS: usize = 8;

/// Random words drawn for a verification code before giving up; each draw
/// is refused with a probability below one in four thousand.
pub const CODE_ATTEMPTS: usize = 16;

/// Draws at or above this bound are refused, so that every code is equally
/// likely.
pub const CODE_ACCEPT_LIMIT: u32 = 4_294_000_000;

pub struct PairingReceipt {
    pub request_id: String,
    pub verification_code: String,
    pub claim_secret: String,
    pub expires_in_seconds: u64,
}

#[derive(Debug, Clone, PartialEq, Eq)]
pub struct PendingPairing {
    pub request_id: String,
    pub display_name: String,
    pub verification_code: String,
    pub expires_in_seconds: u64,
}

#[derive(Debug, Clone, Copy, PartialEq, Eq, Structural)]
pub enum PairingError {
    Auth(AuthError),
    CapacityReached,
    UnknownRequest,
    ExpiredRequest,
    InvalidVerificationCode,
    InvalidClaimSecret,
    NotApproved,
    Rejected,
    AlreadyDecided,
    ReplayedRequest,
    Unavailable,
}

impl PairingError {
    /// The message shown for this error.
    pub fn message(&self) -> (r: &'static str)
        ensures
            r == (match self {
                PairingError::Auth(e) => crate::auth::auth_error_text(*e),
                PairingError::CapacityReached => "pairing request capacity has been reached",
                PairingError::UnknownRequest => "the pairing request does not exist",
                PairingError::ExpiredRequest => "the pairing request has expired",
                PairingError::InvalidVerificationCode => "the pairing verification code is invalid",
                PairingError::InvalidClaimSecret => "the pairing claim secret is invalid",
                PairingError::NotApproved => "the pairing request has not been approved",
                PairingError::Rejected => "the pairing request was rejected",
                PairingError::AlreadyDecided => "the pairing request has already been decided",
                PairingError::ReplayedRequest => "the pairing request has already been consumed",
                PairingError::Unavailable => "the pairing request store is unavailable",
            }),
    {
        match self {
            PairingError::Auth(e) => e.message(),
            PairingError::CapacityReached => "pairing request capacity has been reached",
            PairingError::UnknownRequest => "the pairing request does not exist",
            PairingError::ExpiredRequest => "the pairing request has expired",
            PairingError::InvalidVerificationCode => "the pairing verification code is invalid",
            PairingError::InvalidClaimSecret => "the pairing claim secret is invalid",
            PairingError::NotApproved => "the pairing request has not been approved",
            PairingError::Rejected => "the pairing request was rejected",
            PairingError::AlreadyDecided => "the pairing request has already been decided",
            PairingError::ReplayedRequest => "the pairing request has already been consumed",
            PairingError::Unavailable => "the pairing request store is unavailable",
        }
    }
}

impl From<AuthError> for PairingError {
    fn from(error: AuthError) -> (r: Self) {
        PairingError::Auth(error)
    }
}

impl vstd::std_specs::convert::FromSpecImpl<AuthError> for PairingError {
    open spec fn obeys_from_spec() -> bool {
        true
    }

    open spec fn from_spec(v: AuthError) -> Self {
        PairingError::Auth(v)
    }
}

#[derive(Debug, Clone, Copy, PartialEq, Eq, Structural)]
pub enum RequestStatus {
    Pending,
    Approved,
    Claiming,
}

#[derive(Debug, Clone, Copy, PartialEq, Eq, Structural)]
pub enum TerminalStatus {
    Consumed,
    Rejected,
    Expired,
}

/// A request that has not finished.
pub struct PairingRequest {
    pub request_id: String,
    pub display_name: String,
    pub verification_code: String,
    pub claim_digest: [u8; 32],
    pub expires_at: u64,
    pub status: RequestStatus,
}

/// The remembered outcome of a finished request.
pub struct Tombstone {
    pub request_id: String,
    pub status: TerminalStatus,
}

/// Requests and remembered outcomes.
pub struct PairingTable {
    pub requests: Vec<PairingRequest>,
    pub tombstones: Vec<Tombstone>,
}

/// The pairing service: its table, with the time to live and the capacity
/// it was made with.
pub struct PairingService {
    table: PairingTable,
    ttl_nanos: u64,
    capacity: usize,
}

// ---------------------------------------------------------------------------
// Model
// ---------------------------------------------------------------------------

pub ghost struct RequestView {
    pub id: Seq<char>,
    pub display_name: Seq<char>,
    pub code: Seq<char>,
    pub claim_digest: Seq<u8>,
    pub expires_at: u64,
    pub status: RequestStatus,
}

/// Unfinished requests in table order, and remembered outcomes, oldest
/// first.
pub ghost struct PairingState {
    pub requests: Seq<RequestView>,
    pub tombstones: Seq<(Seq<char>, TerminalStatus)>,
}

pub open spec fn request_view(r: PairingRequest) -> RequestView {
    RequestView {
        id: r.request_id@,
        display_name: r.display_name@,
        code: r.verification_code@,
        claim_digest: r.claim_digest@,
        expires_at: r.expires_at,
        status: r.status,
    }
}

pub open spec fn tombstone_view(t: Tombstone) -> (Seq<char>, TerminalStatus) {
    (t.request_id@, t.status)
}

impl View for PairingTable {
    type V = PairingState;

    open spec fn view(&self) -> PairingState {
        PairingState {
            requests: self.requests@.map_values(|r: PairingRequest| request_view(r)),
            tombstones: self.tombstones@.map_values(|t: Tombstone| tombstone_view(t)),
        }
    }
}

impl View for PairingService {
    type V = PairingState;

    closed spec fn view(&self) -> PairingState {
        self.table@
    }
}

/// The prefix of a request identifier.
pub open spec fn request_id_prefix() -> Seq<char> {
    seq!['l', 's', '_', 'p', 'a', 'i', 'r', '_']
}

/// The prefix of a claim secret.
pub open spec fn claim_secret_prefix() -> Seq<char> {
    seq!['l', 's', '_', 'c', 'l', 'a', 'i', 'm', '_']
}

pub open spec fn request_ids(reqs: Seq<RequestView>) -> Seq<Seq<char>> {
    reqs.map_values(|r: RequestView| r.id)
}

pub open spec fn tombstone_ids(ts: Seq<(Seq<char>, TerminalStatus)>) -> Seq<Seq<char>> {
    ts.map_values(|t: (Seq<char>, TerminalStatus)| t.0)
}

/// The requests still alive at `now`, in order.
pub open spec fn live_requests(reqs: Seq<RequestView>, now: u64) -> Seq<RequestView>
    decreases reqs.len(),
{
    if reqs.len() == 0 {
        reqs
    } else {
        let rest = live_requests(reqs.drop_last(), now);
        if now < reqs.last().expires_at {
            rest.push(reqs.last())
        } else {
            rest
        }
    }
}

/// The identifiers of the requests expired at `now`, in order.
pub open spec fn expired_ids(reqs: Seq<RequestView>, now: u64) -> Seq<Seq<char>>
    decreases reqs.len(),
{
    if reqs.len() == 0 {
        Seq::empty()
    } else {
        let rest = expired_ids(reqs.drop_last(), now);
        if now < reqs.last().expires_at {
            rest
        } else {
            rest.push(reqs.last().id)
        }
    }
}

/// `ts` with one more outcome remembered, the oldest forgotten beyond the
/// bound.
pub open spec fn with_tombstone(
    ts: Seq<(Seq<char>, TerminalStatus)>,
    id: Seq<char>,
    status: TerminalStatus,
) -> Seq<(Seq<char>, TerminalStatus)> {
    let all = ts.push((id, status));
    if all.len() > MAX_TOMBSTONES {
        all.subrange(all.len() - MAX_TOMBSTONES, all.len() as int)
    } else {
        all
    }
}

/// `ts` with each of `ids` remembered as expired, in order.
pub open spec fn with_expired(ts: Seq<(Seq<char>, TerminalStatus)>, ids: Seq<Seq<char>>) -> Seq<
    (Seq<char>, TerminalStatus),
>
    decreases ids.len(),
{
    if ids.len() == 0 {
        ts
    } else {
        with_tombstone(with_expired(ts, ids.drop_last()), ids.last(), TerminalStatus::Expired)
    }
}

/// The state once every request expired at `now` is finished as expired.
pub open spec fn pruned(s: PairingState, now: u64) -> PairingState {
    PairingState {
        requests: live_requests(s.requests, now),
        tombstones: with_expired(s.tombstones, expired_ids(s.requests, now)),
    }
}

/// The remembered outcome of request `id`, if any.
pub open spec fn terminal_status(s: PairingState, id: Seq<char>) -> Option<TerminalStatus> {
    match tombstone_ids(s.tombstones).index_of_first(id) {
        Some(i) => Some(s.tombstones[i].1),
        None => None,
    }
}

/// The error a finished request is answered with.
pub open spec fn replay_error(s: PairingState, id: Seq<char>) -> Option<PairingError> {
    match terminal_status(s, id) {
        Some(TerminalStatus::Consumed) => Some(PairingError::ReplayedRequest),
        Some(TerminalStatus::Rejected) => Some(PairingError::Rejected),
        Some(TerminalStatus::Expired) => Some(PairingError::ExpiredRequest),
        None => None,
    }
}

/// Position of the unfinished request `id`.
pub open spec fn request_index(s: PairingState, id: Seq<char>) -> Option<int> {
    request_ids(s.requests).index_of_first(id)
}

/// The state once the request at `i` is finished with `status`.
pub open spec fn finish_request(s: PairingState, i: int, status: TerminalStatus) -> PairingState {
    PairingState {
        requests: s.requests.remove(i),
        tombstones: with_tombstone(s.tombstones, s.requests[i].id, status),
    }
}

/// The state with the request at `i` moved to `status`.
pub open spec fn with_status(s: PairingState, i: int, status: RequestStatus) -> PairingState {
    PairingState {
        requests: s.requests.update(i, RequestView { status: status, ..s.requests[i] }),
        tombstones: s.tombstones,
    }
}

/// Approval of request `id` with `code` at `now`.
pub open spec fn approve_outcome(s: PairingState, id: Seq<char>, code: Seq<char>, now: u64) -> (
    PairingState,
    Result<(), PairingError>,
) {
    match replay_error(s, id) {
        Some(e) => (s, Err(e)),
        None => match request_index(s, id) {
            None => (s, Err(PairingError::UnknownRequest)),
            Some(i) => {
                let r = s.requests[i];
                if now >= r.expires_at {
                    (finish_request(s, i, TerminalStatus::Expired), Err(PairingError::ExpiredRequest))
                } else if r.status != RequestStatus::Pending {
                    (s, Err(PairingError::AlreadyDecided))
                } else if r.code != code {
                    (s, Err(PairingError::InvalidVerificationCode))
                } else {
                    (with_status(s, i, RequestStatus::Approved), Ok(()))
                }
            },
        },
    }
}

/// Rejection of request `id` at `now`.
pub open spec fn reject_outcome(s: PairingState, id: Seq<char>, now: u64) -> (
    PairingState,
    Result<(), PairingError>,
) {
    match replay_error(s, id) {
        Some(e) => (s, Err(e)),
        None => match request_index(s, id) {
            None => (s, Err(PairingError::UnknownRequest)),
            Some(i) => {
                let r = s.requests[i];
                if now >= r.expires_at {
                    (finish_request(s, i, TerminalStatus::Expired), Err(PairingError::ExpiredRequest))
                } else if r.status != RequestStatus::Pending {
                    (s, Err(PairingError::AlreadyDecided))
                } else {
                    (finish_request(s, i, TerminalStatus::Rejected), Ok(()))
                }
            },
        },
    }
}

/// A claim of request `id` with `secret` at `now`: on success the request
/// is being claimed and the display name to issue a credential for is
/// returned.
pub open spec fn claim_outcome(s: PairingState, id: Seq<char>, secret: Seq<char>, now: u64) -> (
    PairingState,
    Result<Seq<char>, PairingError>,
) {
    match replay_error(s, id) {
        Some(e) => (s, Err(e)),
        None => match request_index(s, id) {
            None => (s, Err(PairingError::UnknownRequest)),
            Some(i) => {
                let r = s.requests[i];
                if now >= r.expires_at {
                    (finish_request(s, i, TerminalStatus::Expired), Err(PairingError::ExpiredRequest))
                } else if r.status == RequestStatus::Pending {
                    (s, Err(PairingError::NotApproved))
                } else if r.status == RequestStatus::Claiming {
                    (s, Err(PairingError::ReplayedRequest))
                } else if !well_formed_token(secret, claim_secret_prefix()) || token_digest(secret)
                    != r.claim_digest {
                    (s, Err(PairingError::InvalidClaimSecret))
                } else {
                    (with_status(s, i, RequestStatus::Claiming), Ok(r.display_name))
                }
            },
        },
    }
}

/// The end of a claim: once the credential is issued the request is
/// consumed; if issuing failed it is approved again.
pub open spec fn settle_outcome(s: PairingState, id: Seq<char>, issued: bool) -> PairingState {
    match request_index(s, id) {
        Some(i) => if s.requests[i].status == RequestStatus::Claiming {
            if issued {
                finish_request(s, i, TerminalStatus::Consumed)
            } else {
                with_status(s, i, RequestStatus::Approved)
            }
        } else {
            s
        },
        None => s,
    }
}

/// Every request is known once, by the table or by the remembered outcomes;
/// no more requests than the capacity and no more outcomes than the bound.
pub open spec fn state_wf(s: PairingState, capacity: nat) -> bool {
    &&& request_ids(s.requests).no_duplicates()
    &&& tombstone_ids(s.tombstones).no_duplicates()
    &&& forall|i: int|
        0 <= i < s.requests.len() ==> !tombstone_ids(s.tombstones).contains(
            #[trigger] s.requests[i].id,
        )
    &&& s.requests.len() <= capacity
    &&& s.tombstones.len() <= MAX_TOMBSTONES
}


/// Six decimal digits.
pub open spec fn is_verification_code(code: Seq<char>) -> bool {
    code.len() == 6 && all_digits(code)
}

/// `ls_pair_` followed by the 22 URL-safe characters of 16 random bytes.
pub open spec fn well_formed_request_id(id: Seq<char>) -> bool {
    &&& starts_with(id, request_id_prefix())
    &&& id.len() == 30
    &&& forall|i: int| 8 <= i < id.len() ==> is_url_safe_char(#[trigger] id[i])
}

/// `id` names no request, unfinished or remembered.
pub open spec fn fresh_in(s: PairingState, id: Seq<char>) -> bool {
    !request_ids(s.requests).contains(id) && !tombstone_ids(s.tombstones).contains(id)
}

/// Whether a new request for `name` may be taken at `now`, and the state it
/// is taken into: names are checked first, then expired requests are
/// finished, then the capacity is checked.
pub open spec fn begin_check(s: PairingState, capacity: nat, name: Seq<char>, now: u64) -> Result<
    PairingState,
    PairingError,
> {
    if !valid_display_name(name) {
        Err(PairingError::Auth(AuthError::InvalidDisplayName))
    } else if pruned(s, now).requests.len() >= capacity {
        Err(PairingError::CapacityReached)
    } else {
        Ok(pruned(s, now))
    }
}

/// The state with request `r` taken in.
pub open spec fn admitted(s: PairingState, r: RequestView) -> PairingState {
    PairingState { requests: s.requests.push(r), tombstones: s.tombstones }
}

/// Whole seconds left before `expires_at`, rounded down.
pub open spec fn seconds_left(expires_at: u64, now: u64) -> u64 {
    if expires_at > now {
        ((expires_at - now) / 1_000_000_000) as u64
    } else {
        0
    }
}

/// `entry` lists the waiting request `r`.
pub open spec fn listed(entry: PendingPairing, r: RequestView, now: u64) -> bool {
    &&& r.status == RequestStatus::Pending
    &&& entry.request_id@ == r.id
    &&& entry.display_name@ == r.display_name
    &&& entry.verification_code@ == r.code
    &&& entry.expires_in_seconds == seconds_left(r.expires_at, now)
}

/// Entries in strictly increasing order of request identifier.
pub open spec fn sorted_by_id(list: Seq<PendingPairing>) -> bool {
    forall|a: int, b: int|
        0 <= a < b < list.len() ==> text_less(
            (#[trigger] list[a]).request_id@,
            (#[trigger] list[b]).request_id@,
        )
}

/// `list` holds one entry for each waiting request among the first `n` of
/// `s`, and nothing else.
#[verifier::opaque]
pub open spec fn lists_waiting(s: PairingState, now: u64, n: int, list: Seq<PendingPairing>) -> bool {
    &&& forall|k: int|
        0 <= k < list.len() ==> exists|j: int|
            0 <= j < n && listed(#[trigger] list[k], s.requests[j], now)
    &&& forall|j: int|
        0 <= j < n && (#[trigger] s.requests[j]).status == RequestStatus::Pending ==> exists|k: int|
            0 <= k < list.len() && listed(list[k], s.requests[j], now)
}

/// `list` is the listing of the waiting requests of `s`: one entry for each,
/// in order of request identifier.
pub open spec fn pending_listing(s: PairingState, now: u64, list: Seq<PendingPairing>) -> bool {
    &&& sorted_by_id(list)
    &&& lists_waiting(s, now, s.requests.len() as int, list)
}

// ---------------------------------------------------------------------------
// Invariant preservation
// ---------------------------------------------------------------------------

proof fn lemma_live_subset(reqs: Seq<RequestView>, now: u64)
    ensures
        live_requests(reqs, now).len() <= reqs.len(),
        forall|i: int|
            0 <= i < live_requests(reqs, now).len() ==> now < (
            #[trigger] live_requests(reqs, now)[i]).expires_at && exists|j: int|
                0 <= j < reqs.len() && live_requests(reqs, now)[i] == reqs[j],
    decreases reqs.len(),
{
    if reqs.len() > 0 {
        let d = reqs.drop_last();
        lemma_live_subset(d, now);
        let rest = live_requests(d, now);
        let out = live_requests(reqs, now);
        assert forall|i: int| 0 <= i < out.len() implies now < (#[trigger] out[i]).expires_at
            && exists|j: int| 0 <= j < reqs.len() && out[i] == reqs[j] by {
            if i < rest.len() {
                assert(out[i] == rest[i]);
                let j = choose|j: int| 0 <= j < d.len() && rest[i] == d[j];
                assert(reqs[j] == d[j]);
            } else {
                assert(out[i] == reqs[reqs.len() - 1]);
            }
        }
    }
}

proof fn lemma_expired_source(reqs: Seq<RequestView>, now: u64)
    ensures
        forall|i: int|
            0 <= i < expired_ids(reqs, now).len() ==> exists|j: int|
                0 <= j < reqs.len() && reqs[j].id == #[trigger] expired_ids(reqs, now)[i]
                    && now >= reqs[j].expires_at,
    decreases reqs.len(),
{
    if reqs.len() > 0 {
        let d = reqs.drop_last();
        lemma_expired_source(d, now);
        let rest = expired_ids(d, now);
        let out = expired_ids(reqs, now);
        assert forall|i: int| 0 <= i < out.len() implies exists|j: int|
            0 <= j < reqs.len() && reqs[j].id == #[trigger] out[i] && now >= reqs[j].expires_at by {
            if i < rest.len() {
                assert(out[i] == rest[i]);
                let j = choose|j: int|
                    0 <= j < d.len() && d[j].id == rest[i] && now >= d[j].expires_at;
                assert(reqs[j] == d[j]);
            } else {
                assert(out[i] == reqs[reqs.len() - 1].id);
            }
        }
    }
}

proof fn lemma_ids_drop_last(reqs: Seq<RequestView>)
    requires
        reqs.len() > 0,
        request_ids(reqs).no_duplicates(),
    ensures
        request_ids(reqs.drop_last()).no_duplicates(),
        forall|j: int|
            0 <= j < reqs.len() - 1 ==> #[trigger] reqs[j].id != reqs[reqs.len() - 1].id,
{
    let d = reqs.drop_last();
    assert forall|a: int, b: int|
        0 <= a < request_ids(d).len() && 0 <= b < request_ids(d).len() && a != b implies request_ids(
        d,
    )[a] != request_ids(d)[b] by {
        assert(request_ids(d)[a] == request_ids(reqs)[a]);
        assert(request_ids(d)[b] == request_ids(reqs)[b]);
    }
    assert forall|j: int| 0 <= j < reqs.len() - 1 implies #[trigger] reqs[j].id != reqs[reqs.len()
        - 1].id by {
        assert(request_ids(reqs)[j] == reqs[j].id);
        assert(request_ids(reqs)[reqs.len() - 1] == reqs[reqs.len() - 1].id);
    }
}

proof fn lemma_prune_unique(reqs: Seq<RequestView>, now: u64)
    requires
        request_ids(reqs).no_duplicates(),
    ensures
        request_ids(live_requests(reqs, now)).no_duplicates(),
        expired_ids(reqs, now).no_duplicates(),
        forall|i: int|
            0 <= i < live_requests(reqs, now).len() ==> !expired_ids(reqs, now).contains(
                (#[trigger] live_requests(reqs, now)[i]).id,
            ),
    decreases reqs.len(),
{
    if reqs.len() > 0 {
        let d = reqs.drop_last();
        let last = reqs.last();
        lemma_ids_drop_last(reqs);
        lemma_prune_unique(d, now);
        lemma_live_subset(d, now);
        lemma_expired_source(d, now);
        let live = live_requests(d, now);
        let exp = expired_ids(d, now);
        assert(forall|i: int| 0 <= i < d.len() ==> d[i] == reqs[i]);
        assert forall|i: int| 0 <= i < live.len() implies (#[trigger] live[i]).id != last.id by {
            let j = choose|j: int| 0 <= j < d.len() && live[i] == d[j];
            assert(reqs[j].id != reqs[reqs.len() - 1].id);
        }
        assert(!exp.contains(last.id)) by {
            if exp.contains(last.id) {
                let k = choose|k: int| 0 <= k < exp.len() && exp[k] == last.id;
                let j = choose|j: int|
                    0 <= j < d.len() && d[j].id == #[trigger] exp[k] && now >= d[j].expires_at;
                assert(reqs[j].id != reqs[reqs.len() - 1].id);
            }
        }
        if now < last.expires_at {
            let out = live.push(last);
            assert(live_requests(reqs, now) == out);
            assert forall|a: int, b: int|
                0 <= a < request_ids(out).len() && 0 <= b < request_ids(out).len() && a
                    != b implies request_ids(out)[a] != request_ids(out)[b] by {
                if a < live.len() && b < live.len() {
                    assert(request_ids(out)[a] == request_ids(live)[a]);
                    assert(request_ids(out)[b] == request_ids(live)[b]);
                } else if a < live.len() {
                    assert(request_ids(out)[a] == live[a].id);
                } else {
                    assert(request_ids(out)[b] == live[b].id);
                }
            }
            assert forall|i: int| 0 <= i < out.len() implies !exp.contains(
                (#[trigger] out[i]).id,
            ) by {
                if i < live.len() {
                    assert(out[i] == live[i]);
                }
            }
        } else {
            let out = exp.push(last.id);
            assert(expired_ids(reqs, now) == out);
            assert forall|a: int, b: int|
                0 <= a < out.len() && 0 <= b < out.len() && a != b implies out[a] != out[b] by {
                if a < exp.len() && b < exp.len() {
                } else if a < exp.len() {
                    assert(exp.contains(exp[a]));
                } else if b < exp.len() {
                    assert(exp.contains(exp[b]));
                }
            }
            assert forall|i: int| 0 <= i < live.len() implies !out.contains(
                (#[trigger] live[i]).id,
            ) by {
                if out.contains(live[i].id) {
                    let k = choose|k: int| 0 <= k < out.len() && out[k] == live[i].id;
                    if k < exp.len() {
                        assert(exp.contains(live[i].id));
                    }
                }
            }
        }
    }
}

proof fn lemma_with_tombstone(ts: Seq<(Seq<char>, TerminalStatus)>, id: Seq<char>, status: TerminalStatus)
    requires
        tombstone_ids(ts).no_duplicates(),
        !tombstone_ids(ts).contains(id),
        ts.len() <= MAX_TOMBSTONES,
    ensures
        ({
            let r = with_tombstone(ts, id, status);
            &&& tombstone_ids(r).no_duplicates()
            &&& r.len() <= MAX_TOMBSTONES
            &&& forall|x: Seq<char>|
                #[trigger] tombstone_ids(r).contains(x) ==> x == id || tombstone_ids(ts).contains(x)
            &&& tombstone_ids(r).index_of_first(id) == Some(r.len() - 1)
            &&& r[r.len() - 1] == (id, status)
        }),
{
    let all = ts.push((id, status));
    let r = with_tombstone(ts, id, status);
    let off: int = if all.len() > MAX_TOMBSTONES {
        all.len() - MAX_TOMBSTONES
    } else {
        0
    };
    assert(r =~= all.subrange(off, all.len() as int));
    assert forall|k: int| 0 <= k < r.len() implies #[trigger] tombstone_ids(r)[k]
        == tombstone_ids(all)[k + off] by {}
    assert forall|k: int| 0 <= k < ts.len() implies #[trigger] tombstone_ids(all)[k]
        == tombstone_ids(ts)[k] by {}
    assert(tombstone_ids(all)[all.len() - 1] == id);
    assert forall|a: int, b: int|
        0 <= a < tombstone_ids(r).len() && 0 <= b < tombstone_ids(r).len() && a
            != b implies tombstone_ids(r)[a] != tombstone_ids(r)[b] by {
        let ia = a + off;
        let ib = b + off;
        if ia < ts.len() && ib < ts.len() {
        } else if ia < ts.len() {
            assert(tombstone_ids(ts).contains(tombstone_ids(ts)[ia]));
        } else if ib < ts.len() {
            assert(tombstone_ids(ts).contains(tombstone_ids(ts)[ib]));
        }
    }
    assert forall|x: Seq<char>| #[trigger] tombstone_ids(r).contains(x) implies x == id
        || tombstone_ids(ts).contains(x) by {
        let k = choose|k: int| 0 <= k < tombstone_ids(r).len() && tombstone_ids(r)[k] == x;
        if k + off < ts.len() {
            assert(tombstone_ids(ts)[k + off] == x);
        }
    }
    crate::text::lemma_first_index(tombstone_ids(r), id, r.len() - 1);
}

proof fn lemma_with_expired(ts: Seq<(Seq<char>, TerminalStatus)>, ids: Seq<Seq<char>>)
    requires
        tombstone_ids(ts).no_duplicates(),
        ids.no_duplicates(),
        forall|i: int| 0 <= i < ids.len() ==> !tombstone_ids(ts).contains(#[trigger] ids[i]),
        ts.len() <= MAX_TOMBSTONES,
    ensures
        tombstone_ids(with_expired(ts, ids)).no_duplicates(),
        with_expired(ts, ids).len() <= MAX_TOMBSTONES,
        forall|x: Seq<char>|
            #[trigger] tombstone_ids(with_expired(ts, ids)).contains(x) ==> tombstone_ids(
                ts,
            ).contains(x) || ids.contains(x),
    decreases ids.len(),
{
    if ids.len() > 0 {
        let d = ids.drop_last();
        assert forall|a: int, b: int|
            0 <= a < d.len() && 0 <= b < d.len() && a != b implies d[a] != d[b] by {
            assert(d[a] == ids[a]);
            assert(d[b] == ids[b]);
        }
        assert forall|i: int| 0 <= i < d.len() implies !tombstone_ids(ts).contains(#[trigger] d[i]) by {
            assert(d[i] == ids[i]);
        }
        lemma_with_expired(ts, d);
        let mid = with_expired(ts, d);
        let last = ids.last();
        assert(!tombstone_ids(mid).contains(last)) by {
            if tombstone_ids(mid).contains(last) {
                if d.contains(last) {
                    let k = choose|k: int| 0 <= k < d.len() && d[k] == last;
                    assert(ids[k] == ids[ids.len() - 1]);
                } else {
                    assert(tombstone_ids(ts).contains(ids[ids.len() - 1]));
                }
            }
        }
        lemma_with_tombstone(mid, last, TerminalStatus::Expired);
        let out = with_expired(ts, ids);
        assert forall|x: Seq<char>| #[trigger] tombstone_ids(out).contains(x) implies tombstone_ids(
            ts,
        ).contains(x) || ids.contains(x) by {
            if x == last {
                assert(ids[ids.len() - 1] == x);
            } else {
                assert(tombstone_ids(mid).contains(x));
                if d.contains(x) {
                    let k = choose|k: int| 0 <= k < d.len() && d[k] == x;
                    assert(ids[k] == x);
                }
            }
        }
    }
}

proof fn lemma_pruned_wf(s: PairingState, now: u64, capacity: nat)
    requires
        state_wf(s, capacity),
    ensures
        state_wf(pruned(s, now), capacity),
        forall|i: int|
            0 <= i < pruned(s, now).requests.len() ==> now < (
            #[trigger] pruned(s, now).requests[i]).expires_at,
{
    let live = live_requests(s.requests, now);
    let exp = expired_ids(s.requests, now);
    lemma_live_subset(s.requests, now);
    lemma_expired_source(s.requests, now);
    lemma_prune_unique(s.requests, now);
    assert forall|i: int| 0 <= i < exp.len() implies !tombstone_ids(s.tombstones).contains(
        #[trigger] exp[i],
    ) by {
        let j = choose|j: int|
            0 <= j < s.requests.len() && s.requests[j].id == exp[i] && now
                >= s.requests[j].expires_at;
        assert(!tombstone_ids(s.tombstones).contains(s.requests[j].id));
    }
    lemma_with_expired(s.tombstones, exp);
    let ts = with_expired(s.tombstones, exp);
    assert forall|i: int| 0 <= i < live.len() implies !tombstone_ids(ts).contains(
        #[trigger] live[i].id,
    ) by {
        let j = choose|j: int| 0 <= j < s.requests.len() && live[i] == s.requests[j];
        assert(!tombstone_ids(s.tombstones).contains(s.requests[j].id));
    }
}

proof fn lemma_finish_wf(s: PairingState, i: int, status: TerminalStatus, capacity: nat)
    requires
        state_wf(s, capacity),
        0 <= i < s.requests.len(),
    ensures
        state_wf(finish_request(s, i, status), capacity),
        terminal_status(finish_request(s, i, status), s.requests[i].id) == Some(status),
        request_index(finish_request(s, i, status), s.requests[i].id) is None,
{
    let id = s.requests[i].id;
    let out = finish_request(s, i, status);
    lemma_with_tombstone(s.tombstones, id, status);
    s.requests.remove_ensures(i);
    assert forall|k: int| 0 <= k < out.requests.len() implies (#[trigger] out.requests[k]).id
        != id by {
        let j = if k < i {
            k
        } else {
            k + 1
        };
        assert(out.requests[k] == s.requests[j]);
        assert(request_ids(s.requests)[j] != request_ids(s.requests)[i]);
    }
    assert forall|a: int, b: int|
        0 <= a < request_ids(out.requests).len() && 0 <= b < request_ids(out.requests).len() && a
            != b implies request_ids(out.requests)[a] != request_ids(out.requests)[b] by {
        let ja = if a < i {
            a
        } else {
            a + 1
        };
        let jb = if b < i {
            b
        } else {
            b + 1
        };
        assert(request_ids(out.requests)[a] == request_ids(s.requests)[ja]);
        assert(request_ids(out.requests)[b] == request_ids(s.requests)[jb]);
    }
    assert forall|k: int| 0 <= k < out.requests.len() implies !tombstone_ids(
        out.tombstones,
    ).contains(#[trigger] out.requests[k].id) by {
        let j = if k < i {
            k
        } else {
            k + 1
        };
        assert(out.requests[k] == s.requests[j]);
        assert(!tombstone_ids(s.tombstones).contains(s.requests[j].id));
    }
    crate::text::lemma_no_index(request_ids(out.requests), id);
}

proof fn lemma_with_status_wf(s: PairingState, i: int, status: RequestStatus, capacity: nat)
    requires
        state_wf(s, capacity),
        0 <= i < s.requests.len(),
    ensures
        state_wf(with_status(s, i, status), capacity),
        request_ids(with_status(s, i, status).requests) == request_ids(s.requests),
{
    let out = with_status(s, i, status);
    assert(request_ids(out.requests) =~= request_ids(s.requests));
    assert forall|k: int| 0 <= k < out.requests.len() implies !tombstone_ids(
        out.tombstones,
    ).contains(#[trigger] out.requests[k].id) by {
        assert(out.requests[k].id == s.requests[k].id);
    }
}


// ---------------------------------------------------------------------------
// Table operations
// ---------------------------------------------------------------------------

fn copy_request(r: &PairingRequest) -> (c: PairingRequest)
    ensures
        request_view(c) == request_view(*r),
{
    PairingRequest {
        request_id: r.request_id.clone(),
        display_name: r.display_name.clone(),
        verification_code: r.verification_code.clone(),
        claim_digest: r.claim_digest,
        expires_at: r.expires_at,
        status: r.status,
    }
}

/// Position of the unfinished request `id`.
fn find_request(table: &PairingTable, id: &str) -> (r: Option<usize>)
    ensures
        match request_index(table@, id@) {
            Some(i) => r == Some(i as usize) && 0 <= i < table.requests.len(),
            None => r is None,
        },
{
    let ghost ids = request_ids(table@.requests);
    let mut i: usize = 0;
    while i < table.requests.len()
        invariant
            i <= table.requests.len(),
            ids == request_ids(table@.requests),
            ids.len() == table.requests.len(),
            forall|j: int| 0 <= j < i ==> ids[j] != id@,
        decreases table.requests.len() - i,
    {
        assert(ids[i as int] == table.requests@[i as int].request_id@);
        if str_eq(table.requests[i].request_id.as_str(), id) {
            proof {
                crate::text::lemma_first_index(ids, id@, i as int);
            }
            return Some(i);
        }
        i += 1;
    }
    proof {
        crate::text::lemma_no_index(ids, id@);
    }
    None
}

/// The error for a finished request `id`, if it is remembered.
fn replay_check(table: &PairingTable, id: &str) -> (r: Option<PairingError>)
    ensures
        r == replay_error(table@, id@),
{
    let ghost ids = tombstone_ids(table@.tombstones);
    let mut i: usize = 0;
    while i < table.tombstones.len()
        invariant
            i <= table.tombstones.len(),
            ids == tombstone_ids(table@.tombstones),
            ids.len() == table.tombstones.len(),
            forall|j: int| 0 <= j < i ==> ids[j] != id@,
        decreases table.tombstones.len() - i,
    {
        assert(ids[i as int] == table.tombstones@[i as int].request_id@);
        if str_eq(table.tombstones[i].request_id.as_str(), id) {
            proof {
                crate::text::lemma_first_index(ids, id@, i as int);
            }
            return match table.tombstones[i].status {
                TerminalStatus::Consumed => Some(PairingError::ReplayedRequest),
                TerminalStatus::Rejected => Some(PairingError::Rejected),
                TerminalStatus::Expired => Some(PairingError::ExpiredRequest),
            };
        }
        i += 1;
    }
    proof {
        crate::text::lemma_no_index(ids, id@);
    }
    None
}

/// Remembers the outcome of a finished request, forgetting the oldest one
/// beyond the bound.
fn add_tombstone(tombstones: &mut Vec<Tombstone>, request_id: String, status: TerminalStatus)
    requires
        old(tombstones).len() <= MAX_TOMBSTONES,
    ensures
        final(tombstones)@.map_values(|t: Tombstone| tombstone_view(t)) == with_tombstone(
            old(tombstones)@.map_values(|t: Tombstone| tombstone_view(t)),
            request_id@,
            status,
        ),
        final(tombstones).len() <= MAX_TOMBSTONES,
{
    let ghost before = old(tombstones)@;
    let entry = Tombstone { request_id, status };
    tombstones.push(entry);
    assert(tombstones@.map_values(|t: Tombstone| tombstone_view(t)) =~= before.map_values(
        |t: Tombstone| tombstone_view(t),
    ).push((request_id@, status)));
    if tombstones.len() > MAX_TOMBSTONES {
        let ghost all = tombstones@;
        tombstones.remove(0);
        assert(tombstones@.map_values(|t: Tombstone| tombstone_view(t)) =~= all.map_values(
            |t: Tombstone| tombstone_view(t),
        ).subrange(1, all.len() as int));
    }
}

/// Finishes the request at `i` with `status`.
fn finish(table: &mut PairingTable, i: usize, status: TerminalStatus)
    requires
        i < old(table).requests.len(),
        old(table).tombstones.len() <= MAX_TOMBSTONES,
    ensures
        final(table)@ == finish_request(old(table)@, i as int, status),
        final(table).tombstones.len() <= MAX_TOMBSTONES,
{
    let ghost before = table@;
    let ghost reqs = table.requests@;
    let request = table.requests.remove(i);
    assert(table.requests@.map_values(|r: PairingRequest| request_view(r)) =~= reqs.map_values(
        |r: PairingRequest| request_view(r),
    ).remove(i as int));
    add_tombstone(&mut table.tombstones, request.request_id, status);
}

/// Moves the request at `i` to `status`.
fn set_status(table: &mut PairingTable, i: usize, status: RequestStatus)
    requires
        i < old(table).requests.len(),
    ensures
        final(table)@ == with_status(old(table)@, i as int, status),
        final(table).tombstones@ == old(table).tombstones@,
{
    let ghost reqs = table.requests@;
    let request = table.requests.remove(i);
    let updated = PairingRequest { status, ..request };
    table.requests.insert(i, updated);
    assert(table.requests@.map_values(|r: PairingRequest| request_view(r)) =~= reqs.map_values(
        |r: PairingRequest| request_view(r),
    ).update(i as int, RequestView { status: status, ..request_view(reqs[i as int]) }));
}

/// Finishes every request expired at `now`.
fn prune(table: &mut PairingTable, now: u64)
    requires
        old(table).tombstones.len() <= MAX_TOMBSTONES,
    ensures
        final(table)@ == pruned(old(table)@, now),
        final(table).tombstones.len() <= MAX_TOMBSTONES,
{
    let ghost start = table@;
    let mut old_requests: Vec<PairingRequest> = Vec::new();
    std::mem::swap(&mut old_requests, &mut table.requests);
    let ghost rv = old_requests@.map_values(|r: PairingRequest| request_view(r));
    assert(rv == start.requests);
    let mut i: usize = 0;
    assert(rv.take(0) =~= Seq::<RequestView>::empty());
    assert(table.requests@.map_values(|r: PairingRequest| request_view(r)) =~= Seq::<
        RequestView,
    >::empty());
    while i < old_requests.len()
        invariant
            i <= old_requests.len(),
            rv == old_requests@.map_values(|r: PairingRequest| request_view(r)),
            rv == start.requests,
            table.requests@.map_values(|r: PairingRequest| request_view(r)) == live_requests(
                rv.take(i as int),
                now,
            ),
            table.tombstones@.map_values(|t: Tombstone| tombstone_view(t)) == with_expired(
                start.tombstones,
                expired_ids(rv.take(i as int), now),
            ),
            table.tombstones.len() <= MAX_TOMBSTONES,
        decreases old_requests.len() - i,
    {
        let r = &old_requests[i];
        assert(rv.take(i + 1).drop_last() =~= rv.take(i as int));
        assert(rv.take(i + 1).last() == request_view(*r));
        if now < r.expires_at {
            let ghost before = table.requests@;
            table.requests.push(copy_request(r));
            assert(table.requests@.map_values(|q: PairingRequest| request_view(q)) =~= before.map_values(
                |q: PairingRequest| request_view(q),
            ).push(request_view(*r)));
        } else {
            let ghost ids = expired_ids(rv.take(i as int), now);
            assert(expired_ids(rv.take(i + 1), now) == ids.push(r.request_id@));
            assert(ids.push(r.request_id@).drop_last() =~= ids);
            add_tombstone(&mut table.tombstones, r.request_id.clone(), TerminalStatus::Expired);
        }
        i += 1;
    }
    assert(rv.take(old_requests.len() as int) =~= rv);
}

fn approve_in(table: &mut PairingTable, id: &str, code: &str, now: u64, capacity: usize) -> (r:
    Result<(), PairingError>)
    requires
        state_wf(old(table)@, capacity as nat),
    ensures
        (final(table)@, r) == approve_outcome(old(table)@, id@, code@, now),
        state_wf(final(table)@, capacity as nat),
{
    if let Some(e) = replay_check(table, id) {
        return Err(e);
    }
    let i = match find_request(table, id) {
        Some(i) => i,
        None => return Err(PairingError::UnknownRequest),
    };
    assert(table.requests@.map_values(|r: PairingRequest| request_view(r))[i as int]
        == request_view(table.requests@[i as int]));
    if now >= table.requests[i].expires_at {
        proof {
            lemma_finish_wf(table@, i as int, TerminalStatus::Expired, capacity as nat);
        }
        finish(table, i, TerminalStatus::Expired);
        return Err(PairingError::ExpiredRequest);
    }
    if table.requests[i].status != RequestStatus::Pending {
        return Err(PairingError::AlreadyDecided);
    }
    if !str_eq(table.requests[i].verification_code.as_str(), code) {
        return Err(PairingError::InvalidVerificationCode);
    }
    proof {
        lemma_with_status_wf(table@, i as int, RequestStatus::Approved, capacity as nat);
    }
    set_status(table, i, RequestStatus::Approved);
    Ok(())
}

fn reject_in(table: &mut PairingTable, id: &str, now: u64, capacity: usize) -> (r: Result<
    (),
    PairingError,
>)
    requires
        state_wf(old(table)@, capacity as nat),
    ensures
        (final(table)@, r) == reject_outcome(old(table)@, id@, now),
        state_wf(final(table)@, capacity as nat),
{
    if let Some(e) = replay_check(table, id) {
        return Err(e);
    }
    let i = match find_request(table, id) {
        Some(i) => i,
        None => return Err(PairingError::UnknownRequest),
    };
    assert(table.requests@.map_values(|r: PairingRequest| request_view(r))[i as int]
        == request_view(table.requests@[i as int]));
    if now >= table.requests[i].expires_at {
        proof {
            lemma_finish_wf(table@, i as int, TerminalStatus::Expired, capacity as nat);
        }
        finish(table, i, TerminalStatus::Expired);
        return Err(PairingError::ExpiredRequest);
    }
    if table.requests[i].status != RequestStatus::Pending {
        return Err(PairingError::AlreadyDecided);
    }
    proof {
        lemma_finish_wf(table@, i as int, TerminalStatus::Rejected, capacity as nat);
    }
    finish(table, i, TerminalStatus::Rejected);
    Ok(())
}

/// Whether `secret` has the shape of a claim secret.
pub fn valid_claim_secret(secret: &str) -> (r: bool)
    ensures
        r == well_formed_token(secret@, claim_secret_prefix()),
{
    proof {
        reveal_strlit("ls_claim_");
        assert("ls_claim_"@ == claim_secret_prefix());
    }
    is_well_formed_token(secret, "ls_claim_")
}

fn claim_in(table: &mut PairingTable, id: &str, secret: &str, now: u64, capacity: usize) -> (r:
    Result<String, PairingError>)
    requires
        state_wf(old(table)@, capacity as nat),
    ensures
        ({
            let (next, answer) = claim_outcome(old(table)@, id@, secret@, now);
            &&& final(table)@ == next
            &&& match answer {
                Ok(name) => r matches Ok(n) && n@ == name,
                Err(e) => r == Err::<String, PairingError>(e),
            }
        }),
        state_wf(final(table)@, capacity as nat),
{
    if let Some(e) = replay_check(table, id) {
        return Err(e);
    }
    let i = match find_request(table, id) {
        Some(i) => i,
        None => return Err(PairingError::UnknownRequest),
    };
    assert(table.requests@.map_values(|r: PairingRequest| request_view(r))[i as int]
        == request_view(table.requests@[i as int]));
    if now >= table.requests[i].expires_at {
        proof {
            lemma_finish_wf(table@, i as int, TerminalStatus::Expired, capacity as nat);
        }
        finish(table, i, TerminalStatus::Expired);
        return Err(PairingError::ExpiredRequest);
    }
    if table.requests[i].status == RequestStatus::Pending {
        return Err(PairingError::NotApproved);
    }
    if table.requests[i].status == RequestStatus::Claiming {
        return Err(PairingError::ReplayedRequest);
    }
    if !valid_claim_secret(secret) {
        return Err(PairingError::InvalidClaimSecret);
    }
    let presented = digest_token(secret);
    if !digests_match(&presented, &table.requests[i].claim_digest) {
        return Err(PairingError::InvalidClaimSecret);
    }
    let name = table.requests[i].display_name.clone();
    proof {
        lemma_with_status_wf(table@, i as int, RequestStatus::Claiming, capacity as nat);
    }
    set_status(table, i, RequestStatus::Claiming);
    Ok(name)
}

fn settle_in(table: &mut PairingTable, id: &str, issued: bool, capacity: usize)
    requires
        state_wf(old(table)@, capacity as nat),
    ensures
        final(table)@ == settle_outcome(old(table)@, id@, issued),
        state_wf(final(table)@, capacity as nat),
{
    let i = match find_request(table, id) {
        Some(i) => i,
        None => return ,
    };
    assert(table.requests@.map_values(|r: PairingRequest| request_view(r))[i as int]
        == request_view(table.requests@[i as int]));
    if table.requests[i].status != RequestStatus::Claiming {
        return ;
    }
    if issued {
        proof {
            lemma_finish_wf(table@, i as int, TerminalStatus::Consumed, capacity as nat);
        }
        finish(table, i, TerminalStatus::Consumed);
    } else {
        proof {
            lemma_with_status_wf(table@, i as int, RequestStatus::Approved, capacity as nat);
        }
        set_status(table, i, RequestStatus::Approved);
    }
}


proof fn lemma_admit_wf(s: PairingState, r: RequestView, capacity: nat)
    requires
        state_wf(s, capacity),
        fresh_in(s, r.id),
        s.requests.len() < capacity,
    ensures
        state_wf(admitted(s, r), capacity),
{
    let out = admitted(s, r);
    assert(request_ids(out.requests) =~= request_ids(s.requests).push(r.id));
    assert forall|a: int, b: int|
        0 <= a < request_ids(out.requests).len() && 0 <= b < request_ids(out.requests).len() && a
            != b implies request_ids(out.requests)[a] != request_ids(out.requests)[b] by {
        if a < s.requests.len() && b < s.requests.len() {
        } else if a < s.requests.len() {
            assert(request_ids(s.requests).contains(request_ids(s.requests)[a]));
        } else if b < s.requests.len() {
            assert(request_ids(s.requests).contains(request_ids(s.requests)[b]));
        }
    }
    assert forall|k: int| 0 <= k < out.requests.len() implies !tombstone_ids(
        out.tombstones,
    ).contains(#[trigger] out.requests[k].id) by {
        if k < s.requests.len() {
            assert(out.requests[k] == s.requests[k]);
        }
    }
}

proof fn lemma_not_found(s: PairingState, id: Seq<char>)
    requires
        request_index(s, id) is None,
        replay_error(s, id) is None,
    ensures
        fresh_in(s, id),
{
    request_ids(s.requests).index_of_first_ensures(id);
    tombstone_ids(s.tombstones).index_of_first_ensures(id);
}


// ---------------------------------------------------------------------------
// New requests and the listing of waiting ones
// ---------------------------------------------------------------------------

fn digit_char(d: u32) -> (c: char)
    requires
        d < 10,
    ensures
        is_digit(c),
{
    ((d + 48) as u8) as char
}

/// `value` written with exactly six digits, zeros in front.
fn six_digit_code(value: u32) -> (code: String)
    requires
        value < 1_000_000,
    ensures
        is_verification_code(code@),
{
    let digits = vec![
        digit_char(value / 100_000),
        digit_char((value / 10_000) % 10),
        digit_char((value / 1_000) % 10),
        digit_char((value / 100) % 10),
        digit_char((value / 10) % 10),
        digit_char(value % 10),
    ];
    string_of(&digits)
}

/// A verification code drawn uniformly from the million six-digit codes.
fn random_verification_code() -> (r: Result<String, PairingError>)
    ensures
        match r {
            Ok(code) => is_verification_code(code@),
            Err(e) => e == PairingError::Auth(AuthError::RandomnessUnavailable),
        },
{
    let mut attempt: usize = 0;
    while attempt < CODE_ATTEMPTS
        invariant
            attempt <= CODE_ATTEMPTS,
        decreases CODE_ATTEMPTS - attempt,
    {
        let bytes = match random_bytes(4) {
            Ok(b) => b,
            Err(_) => return Err(PairingError::Auth(AuthError::RandomnessUnavailable)),
        };
        let value: u32 = bytes[0] as u32 + (bytes[1] as u32) * 256 + (bytes[2] as u32) * 65536
            + (bytes[3] as u32) * 16777216;
        if value < CODE_ACCEPT_LIMIT {
            return Ok(six_digit_code(value % 1_000_000));
        }
        attempt += 1;
    }
    Err(PairingError::Auth(AuthError::RandomnessUnavailable))
}

/// A request identifier that names no request of `table`.
fn fresh_request_id(table: &PairingTable) -> (r: Result<String, PairingError>)
    ensures
        match r {
            Ok(id) => well_formed_request_id(id@) && fresh_in(table@, id@),
            Err(e) => e == PairingError::Auth(AuthError::RandomnessUnavailable),
        },
{
    let mut attempt: usize = 0;
    while attempt < REQUEST_ID_ATTEMPTS
        invariant
            attempt <= REQUEST_ID_ATTEMPTS,
        decreases REQUEST_ID_ATTEMPTS - attempt,
    {
        let text = match random_base64(REQUEST_BYTES) {
            Ok(t) => t,
            Err(e) => return Err(PairingError::Auth(e)),
        };
        let mut candidate = String::new();
        append_str(&mut candidate, "ls_pair_");
        append_str(&mut candidate, text.as_str());
        if find_request(table, candidate.as_str()).is_none() && replay_check(
            table,
            candidate.as_str(),
        ).is_none() {
            proof {
                lemma_not_found(table@, candidate@);
                reveal_strlit("ls_pair_");
                assert("ls_pair_"@ == request_id_prefix());
                assert(candidate@.take(8) =~= request_id_prefix());
                assert forall|i: int| 8 <= i < candidate@.len() implies is_url_safe_char(
                    #[trigger] candidate@[i],
                ) by {
                    assert(candidate@[i] == text@[i - 8]);
                }
            }
            return Ok(candidate);
        }
        attempt += 1;
    }
    Err(PairingError::Auth(AuthError::RandomnessUnavailable))
}

fn begin_in(table: &mut PairingTable, display_name: &str, now: u64, ttl: u64, capacity: usize) -> (r:
    Result<PairingReceipt, PairingError>)
    requires
        state_wf(old(table)@, capacity as nat),
        now + ttl <= u64::MAX,
    ensures
        state_wf(final(table)@, capacity as nat),
        match begin_check(old(table)@, capacity as nat, display_name@, now) {
            Err(e) => r == Err::<PairingReceipt, PairingError>(e) && final(table)@ == (if valid_display_name(
                display_name@,
            ) {
                pruned(old(table)@, now)
            } else {
                old(table)@
            }),
            Ok(p) => match r {
                Ok(receipt) => {
                    &&& fresh_in(p, receipt.request_id@)
                    &&& well_formed_request_id(receipt.request_id@)
                    &&& well_formed_token(receipt.claim_secret@, claim_secret_prefix())
                    &&& is_verification_code(receipt.verification_code@)
                    &&& receipt.expires_in_seconds == ttl / 1_000_000_000
                    &&& final(table)@ == admitted(
                        p,
                        RequestView {
                            id: receipt.request_id@,
                            display_name: trim(display_name@),
                            code: receipt.verification_code@,
                            claim_digest: token_digest(receipt.claim_secret@),
                            expires_at: (now + ttl) as u64,
                            status: RequestStatus::Pending,
                        },
                    )
                },
                Err(e) => e == PairingError::Auth(AuthError::RandomnessUnavailable) && final(table)@
                    == p,
            },
        },
{
    let name = match validate_display_name(display_name) {
        Ok(n) => n,
        Err(e) => return Err(PairingError::Auth(e)),
    };
    proof {
        lemma_pruned_wf(table@, now, capacity as nat);
    }
    prune(table, now);
    if table.requests.len() >= capacity {
        return Err(PairingError::CapacityReached);
    }
    let request_id = fresh_request_id(table)?;
    proof {
        reveal_strlit("ls_claim_");
        assert("ls_claim_"@ == claim_secret_prefix());
    }
    let claim_secret = match random_token("ls_claim_") {
        Ok(t) => t,
        Err(e) => return Err(PairingError::Auth(e)),
    };
    let verification_code = random_verification_code()?;
    let claim_digest = digest_token(claim_secret.as_str());
    let request = PairingRequest {
        request_id: request_id.clone(),
        display_name: name.to_owned(),
        verification_code: verification_code.clone(),
        claim_digest,
        expires_at: now + ttl,
        status: RequestStatus::Pending,
    };
    let ghost before = table@;
    proof {
        lemma_admit_wf(before, request_view(request), capacity as nat);
    }
    let ghost reqs = table.requests@;
    table.requests.push(request);
    assert(table.requests@.map_values(|q: PairingRequest| request_view(q)) =~= reqs.map_values(
        |q: PairingRequest| request_view(q),
    ).push(request_view(request)));
    Ok(
        PairingReceipt {
            request_id,
            verification_code,
            claim_secret,
            expires_in_seconds: ttl / 1_000_000_000,
        },
    )
}

proof fn lemma_insert_keeps_order(before: Seq<PendingPairing>, pos: int, e: PendingPairing)
    requires
        sorted_by_id(before),
        0 <= pos <= before.len(),
        forall|i: int| 0 <= i < pos ==> text_less((#[trigger] before[i]).request_id@, e.request_id@),
        pos < before.len() ==> text_less(e.request_id@, before[pos].request_id@),
    ensures
        sorted_by_id(before.insert(pos, e)),
{
    let out = before.insert(pos, e);
    before.insert_ensures(pos, e);
    assert forall|a: int, b: int| 0 <= a < b < out.len() implies text_less(
        (#[trigger] out[a]).request_id@,
        (#[trigger] out[b]).request_id@,
    ) by {
        if b < pos {
            assert(out[a] == before[a] && out[b] == before[b]);
        } else if b == pos {
            assert(out[a] == before[a]);
            assert(out[b] == e);
        } else if a < pos {
            assert(out[a] == before[a] && out[b] == before[b - 1]);
            if pos == b - 1 {
            } else {
                assert(text_less(before[pos].request_id@, before[b - 1].request_id@));
            }
            crate::text::lemma_text_less_transitive(
                before[a].request_id@,
                e.request_id@,
                before[pos].request_id@,
            );
            if pos < b - 1 {
                crate::text::lemma_text_less_transitive(
                    before[a].request_id@,
                    before[pos].request_id@,
                    before[b - 1].request_id@,
                );
            }
        } else if a == pos {
            assert(out[a] == e);
            assert(out[b] == before[b - 1]);
            if pos < b - 1 {
                assert(text_less(before[pos].request_id@, before[b - 1].request_id@));
                crate::text::lemma_text_less_transitive(
                    e.request_id@,
                    before[pos].request_id@,
                    before[b - 1].request_id@,
                );
            }
        } else {
            assert(out[a] == before[a - 1] && out[b] == before[b - 1]);
        }
    }
}

proof fn lemma_insert_members(before: Seq<PendingPairing>, pos: int, e: PendingPairing)
    requires
        0 <= pos <= before.len(),
    ensures
        ({
            let out = before.insert(pos, e);
            &&& out.len() == before.len() + 1
            &&& forall|i: int|
                0 <= i < out.len() ==> #[trigger] out[i] == e || exists|k: int|
                    0 <= k < before.len() && out[i] == before[k]
            &&& forall|k: int|
                0 <= k < before.len() ==> exists|i: int|
                    0 <= i < out.len() && out[i] == #[trigger] before[k]
            &&& out[pos] == e
        }),
{
    let out = before.insert(pos, e);
    before.insert_ensures(pos, e);
    assert forall|i: int| 0 <= i < out.len() implies #[trigger] out[i] == e || exists|k: int|
        0 <= k < before.len() && out[i] == before[k] by {
        if i < pos {
            assert(out[i] == before[i]);
        } else if i > pos {
            assert(out[i] == before[i - 1]);
        }
    }
    assert forall|k: int| 0 <= k < before.len() implies exists|i: int|
        0 <= i < out.len() && out[i] == #[trigger] before[k] by {
        if k < pos {
            assert(out[k] == before[k]);
        } else {
            assert(out[k + 1] == before[k]);
        }
    }
}

/// Puts `entry` into the sorted `list` at its place.
fn insert_sorted(list: &mut Vec<PendingPairing>, entry: PendingPairing)
    requires
        sorted_by_id(old(list)@),
        forall|i: int|
            0 <= i < old(list)@.len() ==> (#[trigger] old(list)@[i]).request_id@
                != entry.request_id@,
    ensures
        sorted_by_id(final(list)@),
        final(list)@.len() == old(list)@.len() + 1,
        forall|i: int|
            0 <= i < final(list)@.len() ==> #[trigger] final(list)@[i] == entry || exists|k: int|
                0 <= k < old(list)@.len() && final(list)@[i] == old(list)@[k],
        forall|k: int|
            0 <= k < old(list)@.len() ==> exists|i: int|
                0 <= i < final(list)@.len() && final(list)@[i] == #[trigger] old(list)@[k],
        exists|i: int| 0 <= i < final(list)@.len() && final(list)@[i] == entry,
{
    let ghost before = list@;
    let mut pos: usize = 0;
    while pos < list.len() && !text_less_exec(
        entry.request_id.as_str(),
        list[pos].request_id.as_str(),
    )
        invariant
            list@ == before,
            pos <= list.len(),
            forall|i: int| 0 <= i < pos ==> text_less(
                (#[trigger] before[i]).request_id@,
                entry.request_id@,
            ),
            forall|i: int|
                0 <= i < before.len() ==> (#[trigger] before[i]).request_id@
                    != entry.request_id@,
        decreases list.len() - pos,
    {
        proof {
            crate::text::lemma_text_less_total(
                entry.request_id@,
                before[pos as int].request_id@,
            );
        }
        pos += 1;
    }
    let ghost e = entry;
    proof {
        lemma_insert_keeps_order(before, pos as int, e);
        lemma_insert_members(before, pos as int, e);
    }
    list.insert(pos, entry);
}

proof fn lemma_listing_start(s: PairingState, now: u64)
    ensures
        lists_waiting(s, now, 0, Seq::empty()),
{
    reveal(lists_waiting);
}

proof fn lemma_listing_fresh(s: PairingState, now: u64, i: int, list: Seq<PendingPairing>, capacity: nat)
    requires
        state_wf(s, capacity),
        0 <= i < s.requests.len(),
        lists_waiting(s, now, i, list),
    ensures
        forall|k: int| 0 <= k < list.len() ==> (#[trigger] list[k]).request_id@ != s.requests[i].id,
{
    reveal(lists_waiting);
    assert forall|k: int| 0 <= k < list.len() implies (#[trigger] list[k]).request_id@
        != s.requests[i].id by {
        let j = choose|j: int| 0 <= j < i && listed(list[k], s.requests[j], now);
        assert(request_ids(s.requests)[j] == s.requests[j].id);
        assert(request_ids(s.requests)[i] == s.requests[i].id);
    }
}

proof fn lemma_listing_skip(s: PairingState, now: u64, i: int, list: Seq<PendingPairing>)
    requires
        0 <= i < s.requests.len(),
        lists_waiting(s, now, i, list),
        s.requests[i].status != RequestStatus::Pending,
    ensures
        lists_waiting(s, now, i + 1, list),
{
    reveal(lists_waiting);
    assert forall|k: int| 0 <= k < list.len() implies exists|j: int|
        0 <= j < i + 1 && listed(#[trigger] list[k], s.requests[j], now) by {
        let j = choose|j: int| 0 <= j < i && listed(list[k], s.requests[j], now);
    }
}

proof fn lemma_listing_step(
    s: PairingState,
    now: u64,
    i: int,
    before: Seq<PendingPairing>,
    after: Seq<PendingPairing>,
    entry: PendingPairing,
)
    requires
        0 <= i < s.requests.len(),
        listed(entry, s.requests[i], now),
        lists_waiting(s, now, i, before),
        forall|k: int|
            0 <= k < after.len() ==> #[trigger] after[k] == entry || exists|m: int|
                0 <= m < before.len() && after[k] == before[m],
        forall|m: int|
            0 <= m < before.len() ==> exists|k: int|
                0 <= k < after.len() && after[k] == #[trigger] before[m],
        exists|k: int| 0 <= k < after.len() && after[k] == entry,
    ensures
        lists_waiting(s, now, i + 1, after),
{
    reveal(lists_waiting);
    assert forall|k: int| 0 <= k < after.len() implies exists|j: int|
        0 <= j < i + 1 && listed(#[trigger] after[k], s.requests[j], now) by {
        if after[k] != entry {
            let m = choose|m: int| 0 <= m < before.len() && after[k] == before[m];
            let j = choose|j: int| 0 <= j < i && listed(before[m], s.requests[j], now);
            assert(listed(after[k], s.requests[j], now));
        } else {
            assert(listed(after[k], s.requests[i], now));
        }
    }
    assert forall|j: int|
        0 <= j < i + 1 && (#[trigger] s.requests[j]).status == RequestStatus::Pending implies exists|
        k: int,
    | 0 <= k < after.len() && listed(after[k], s.requests[j], now) by {
        if j < i {
            let m = choose|m: int| 0 <= m < before.len() && listed(before[m], s.requests[j], now);
            let k = choose|k: int| 0 <= k < after.len() && after[k] == before[m];
            assert(listed(after[k], s.requests[j], now));
        } else {
            let k = choose|k: int| 0 <= k < after.len() && after[k] == entry;
            assert(listed(after[k], s.requests[j], now));
        }
    }
}

fn pending_in(table: &mut PairingTable, now: u64, capacity: usize) -> (r: Vec<PendingPairing>)
    requires
        state_wf(old(table)@, capacity as nat),
    ensures
        final(table)@ == pruned(old(table)@, now),
        state_wf(final(table)@, capacity as nat),
        pending_listing(final(table)@, now, r@),
{
    proof {
        lemma_pruned_wf(table@, now, capacity as nat);
    }
    prune(table, now);
    let ghost s = table@;
    let mut list: Vec<PendingPairing> = Vec::new();
    proof {
        lemma_listing_start(s, now);
    }
    let mut i: usize = 0;
    while i < table.requests.len()
        invariant
            table@ == s,
            state_wf(s, capacity as nat),
            i <= table.requests.len(),
            sorted_by_id(list@),
            lists_waiting(s, now, i as int, list@),
        decreases table.requests.len() - i,
    {
        let r = &table.requests[i];
        assert(s.requests[i as int] == request_view(*r));
        if r.status == RequestStatus::Pending {
            let left = if r.expires_at > now {
                (r.expires_at - now) / 1_000_000_000
            } else {
                0
            };
            let entry = PendingPairing {
                request_id: r.request_id.clone(),
                display_name: r.display_name.clone(),
                verification_code: r.verification_code.clone(),
                expires_in_seconds: left,
            };
            assert(listed(entry, s.requests[i as int], now));
            proof {
                lemma_listing_fresh(s, now, i as int, list@, capacity as nat);
            }
            let ghost before = list@;
            let ghost e = entry;
            insert_sorted(&mut list, entry);
            proof {
                lemma_listing_step(s, now, i as int, before, list@, e);
            }
        } else {
            proof {
                lemma_listing_skip(s, now, i as int, list@);
            }
        }
        i += 1;
    }
    list
}


// ---------------------------------------------------------------------------
// The service
// ---------------------------------------------------------------------------

/// The state with nothing waiting and nothing remembered.
pub open spec fn empty_state() -> PairingState {
    PairingState { requests: Seq::empty(), tombstones: Seq::empty() }
}

impl PairingService {
    /// The time to live of a request, in nanoseconds.
    pub closed spec fn ttl(&self) -> u64 {
        self.ttl_nanos
    }

    /// The most requests waiting at once.
    pub closed spec fn capacity(&self) -> nat {
        self.capacity as nat
    }

    #[verifier::type_invariant]
    closed spec fn inv(&self) -> bool {
        state_wf(self.table@, self.capacity as nat)
    }

    /// A service whose requests live `ttl_nanos` and of which at most
    /// `capacity` wait at once.
    pub fn new(ttl_nanos: u64, capacity: usize) -> (r: Self)
        ensures
            r@ == empty_state(),
            r.ttl() == ttl_nanos,
            r.capacity() == capacity,
            state_wf(r@, r.capacity()),
    {
        let table = PairingTable { requests: Vec::new(), tombstones: Vec::new() };
        assert(table@.requests =~= Seq::<RequestView>::empty());
        assert(table@.tombstones =~= Seq::<(Seq<char>, TerminalStatus)>::empty());
        assert(request_ids(table@.requests) =~= Seq::empty());
        assert(tombstone_ids(table@.tombstones) =~= Seq::empty());
        PairingService { table, ttl_nanos, capacity }
    }

    fn take_table(&mut self) -> (t: PairingTable)
        ensures
            t@ == old(self)@,
            state_wf(t@, old(self).capacity()),
            final(self).ttl() == old(self).ttl(),
            final(self).capacity() == old(self).capacity(),
            state_wf(final(self)@, final(self).capacity()),
    {
        proof {
            use_type_invariant(&*self);
        }
        let mut table = PairingTable { requests: Vec::new(), tombstones: Vec::new() };
        assert(request_ids(table@.requests) =~= Seq::empty());
        assert(tombstone_ids(table@.tombstones) =~= Seq::empty());
        std::mem::swap(&mut table, &mut self.table);
        table
    }

    /// The time to live of a request, in nanoseconds.
    pub fn ttl_nanos(&self) -> (r: u64)
        ensures
            r == self.ttl(),
    {
        self.ttl_nanos
    }

    /// Takes a new request from the device named `display_name` at `now`.
    pub fn begin_at(&mut self, display_name: &str, now: u64) -> (r: Result<
        PairingReceipt,
        PairingError,
    >)
        requires
            now + old(self).ttl() <= u64::MAX,
        ensures
            final(self).ttl() == old(self).ttl(),
            final(self).capacity() == old(self).capacity(),
            state_wf(final(self)@, final(self).capacity()),
            match begin_check(old(self)@, old(self).capacity(), display_name@, now) {
                Err(e) => r == Err::<PairingReceipt, PairingError>(e) && final(self)@ == (if valid_display_name(
                    display_name@,
                ) {
                    pruned(old(self)@, now)
                } else {
                    old(self)@
                }),
                Ok(p) => match r {
                    Ok(receipt) => {
                        &&& fresh_in(p, receipt.request_id@)
                        &&& well_formed_request_id(receipt.request_id@)
                        &&& well_formed_token(receipt.claim_secret@, claim_secret_prefix())
                        &&& is_verification_code(receipt.verification_code@)
                        &&& receipt.expires_in_seconds == old(self).ttl() / 1_000_000_000
                        &&& final(self)@ == admitted(
                            p,
                            RequestView {
                                id: receipt.request_id@,
                                display_name: trim(display_name@),
                                code: receipt.verification_code@,
                                claim_digest: token_digest(receipt.claim_secret@),
                                expires_at: (now + old(self).ttl()) as u64,
                                status: RequestStatus::Pending,
                            },
                        )
                    },
                    Err(e) => e == PairingError::Auth(AuthError::RandomnessUnavailable)
                        && final(self)@ == p,
                },
            },
    {
        let mut table = self.take_table();
        let r = begin_in(&mut table, display_name, now, self.ttl_nanos, self.capacity);
        self.table = table;
        r
    }

    /// The requests waiting for a decision at `now`, in order of request
    /// identifier; expired requests are finished first.
    pub fn pending_at(&mut self, now: u64) -> (r: Vec<PendingPairing>)
        ensures
            final(self)@ == pruned(old(self)@, now),
            pending_listing(final(self)@, now, r@),
            final(self).ttl() == old(self).ttl(),
            final(self).capacity() == old(self).capacity(),
            state_wf(final(self)@, final(self).capacity()),
    {
        let mut table = self.take_table();
        let r = pending_in(&mut table, now, self.capacity);
        self.table = table;
        r
    }

    /// Approves request `request_id` at `now` if `verification_code` is the
    /// code it was given.
    pub fn approve_at(&mut self, request_id: &str, verification_code: &str, now: u64) -> (r:
        Result<(), PairingError>)
        ensures
            (final(self)@, r) == approve_outcome(old(self)@, request_id@, verification_code@, now),
            final(self).ttl() == old(self).ttl(),
            final(self).capacity() == old(self).capacity(),
            state_wf(final(self)@, final(self).capacity()),
    {
        let mut table = self.take_table();
        let r = approve_in(&mut table, request_id, verification_code, now, self.capacity);
        self.table = table;
        r
    }

    /// Rejects request `request_id` at `now`.
    pub fn reject_at(&mut self, request_id: &str, now: u64) -> (r: Result<(), PairingError>)
        ensures
            (final(self)@, r) == reject_outcome(old(self)@, request_id@, now),
            final(self).ttl() == old(self).ttl(),
            final(self).capacity() == old(self).capacity(),
            state_wf(final(self)@, final(self).capacity()),
    {
        let mut table = self.take_table();
        let r = reject_in(&mut table, request_id, now, self.capacity);
        self.table = table;
        r
    }

    /// Starts the claim of request `request_id` with `claim_secret` at
    /// `now`.  On success the request is held while its credential is
    /// issued, and the display name to issue it for is returned; the caller
    /// then ends the claim with `settle_claim`.
    pub fn claim_at(&mut self, request_id: &str, claim_secret: &str, now: u64) -> (r: Result<
        String,
        PairingError,
    >)
        ensures
            ({
                let (next, answer) = claim_outcome(old(self)@, request_id@, claim_secret@, now);
                &&& final(self)@ == next
                &&& match answer {
                    Ok(name) => r matches Ok(n) && n@ == name,
                    Err(e) => r == Err::<String, PairingError>(e),
                }
            }),
            final(self).ttl() == old(self).ttl(),
            final(self).capacity() == old(self).capacity(),
            state_wf(final(self)@, final(self).capacity()),
    {
        let mut table = self.take_table();
        let r = claim_in(&mut table, request_id, claim_secret, now, self.capacity);
        self.table = table;
        r
    }

    /// Ends the claim of request `request_id`: consumed when the credential
    /// was issued, approved again when issuing failed.
    pub fn settle_claim(&mut self, request_id: &str, issued: bool)
        ensures
            final(self)@ == settle_outcome(old(self)@, request_id@, issued),
            final(self).ttl() == old(self).ttl(),
            final(self).capacity() == old(self).capacity(),
            state_wf(final(self)@, final(self).capacity()),
    {
        let mut table = self.take_table();
        settle_in(&mut table, request_id, issued, self.capacity);
        self.table = table;
    }
}

impl Default for PairingService {
    /// Requests live two minutes and at most 32 wait at once.
    fn default() -> (r: Self)
        ensures
            r@ == empty_state(),
            r.ttl() == PAIRING_TTL_NANOS,
            r.capacity() == MAX_ACTIVE_REQUESTS,
    {
        Self::new(PAIRING_TTL_NANOS, MAX_ACTIVE_REQUESTS)
    }
}


// ---------------------------------------------------------------------------
// Laws
// ---------------------------------------------------------------------------

proof fn lemma_active_request(s: PairingState, capacity: nat, i: int)
    requires
        state_wf(s, capacity),
        0 <= i < s.requests.len(),
    ensures
        replay_error(s, s.requests[i].id) is None,
        request_index(s, s.requests[i].id) == Some(i),
{
    let id = s.requests[i].id;
    tombstone_ids(s.tombstones).index_of_first_ensures(id);
    assert(request_ids(s.requests)[i] == id);
    assert forall|j: int| 0 <= j < i implies request_ids(s.requests)[j] != id by {}
    crate::text::lemma_first_index(request_ids(s.requests), id, i);
}

/// A waiting request cannot be claimed; once approved with its code, it is
/// claimed with its secret (before it expires) for the name it was asked
/// under.
pub proof fn lemma_approval_enables_claim(
    s: PairingState,
    capacity: nat,
    i: int,
    secret: Seq<char>,
    t1: u64,
    t2: u64,
)
    requires
        state_wf(s, capacity),
        0 <= i < s.requests.len(),
        s.requests[i].status == RequestStatus::Pending,
        t1 < s.requests[i].expires_at,
        t2 < s.requests[i].expires_at,
        well_formed_token(secret, claim_secret_prefix()),
        token_digest(secret) == s.requests[i].claim_digest,
    ensures
        ({
            let id = s.requests[i].id;
            let (approved, answer) = approve_outcome(s, id, s.requests[i].code, t1);
            &&& claim_outcome(s, id, secret, t2) == (s, Err::<Seq<char>, PairingError>(
                PairingError::NotApproved,
            ))
            &&& answer == Ok::<(), PairingError>(())
            &&& claim_outcome(approved, id, secret, t2).1 == Ok::<Seq<char>, PairingError>(
                s.requests[i].display_name,
            )
        }),
{
    lemma_active_request(s, capacity, i);
    let id = s.requests[i].id;
    let approved = with_status(s, i, RequestStatus::Approved);
    lemma_with_status_wf(s, i, RequestStatus::Approved, capacity);
    lemma_active_request(approved, capacity, i);
}

/// A claimed request yields one credential: while its credential is being
/// issued it cannot be claimed again, and once the credential is issued every
/// further claim, approval or rejection is answered as a replay.
pub proof fn lemma_claim_is_single_use(
    s: PairingState,
    capacity: nat,
    id: Seq<char>,
    secret: Seq<char>,
    t: u64,
    secret2: Seq<char>,
    code2: Seq<char>,
    t2: u64,
)
    requires
        state_wf(s, capacity),
        claim_outcome(s, id, secret, t).1 is Ok,
    ensures
        ({
            let held = claim_outcome(s, id, secret, t).0;
            let done = settle_outcome(held, id, true);
            &&& claim_outcome(held, id, secret2, t2).1 is Err
            &&& claim_outcome(done, id, secret2, t2) == (done, Err::<Seq<char>, PairingError>(
                PairingError::ReplayedRequest,
            ))
            &&& approve_outcome(done, id, code2, t2) == (done, Err::<(), PairingError>(
                PairingError::ReplayedRequest,
            ))
            &&& reject_outcome(done, id, t2) == (done, Err::<(), PairingError>(
                PairingError::ReplayedRequest,
            ))
        }),
{
    let i = request_index(s, id)->0;
    request_ids(s.requests).index_of_first_ensures(id);
    let held = with_status(s, i, RequestStatus::Claiming);
    lemma_with_status_wf(s, i, RequestStatus::Claiming, capacity);
    lemma_active_request(held, capacity, i);
    assert(held.requests[i].id == id);
    lemma_finish_wf(held, i, TerminalStatus::Consumed, capacity);
}

/// A rejected request is answered as rejected from then on: it cannot be
/// claimed, approved or rejected again.
pub proof fn lemma_rejected_stays_rejected(
    s: PairingState,
    capacity: nat,
    id: Seq<char>,
    t: u64,
    secret: Seq<char>,
    code: Seq<char>,
    t2: u64,
)
    requires
        state_wf(s, capacity),
        reject_outcome(s, id, t).1 == Ok::<(), PairingError>(()),
    ensures
        ({
            let done = reject_outcome(s, id, t).0;
            &&& claim_outcome(done, id, secret, t2) == (done, Err::<Seq<char>, PairingError>(
                PairingError::Rejected,
            ))
            &&& approve_outcome(done, id, code, t2) == (done, Err::<(), PairingError>(
                PairingError::Rejected,
            ))
            &&& reject_outcome(done, id, t2) == (done, Err::<(), PairingError>(
                PairingError::Rejected,
            ))
        }),
{
    let i = request_index(s, id)->0;
    request_ids(s.requests).index_of_first_ensures(id);
    lemma_finish_wf(s, i, TerminalStatus::Rejected, capacity);
}

/// A request is refused once its time to live has passed, and is answered as
/// expired from then on.
pub proof fn lemma_expired_stays_expired(
    s: PairingState,
    capacity: nat,
    i: int,
    code: Seq<char>,
    t: u64,
    secret: Seq<char>,
    t2: u64,
)
    requires
        state_wf(s, capacity),
        0 <= i < s.requests.len(),
        t >= s.requests[i].expires_at,
    ensures
        ({
            let id = s.requests[i].id;
            let (done, answer) = approve_outcome(s, id, code, t);
            &&& answer == Err::<(), PairingError>(PairingError::ExpiredRequest)
            &&& claim_outcome(s, id, secret, t).1 == Err::<Seq<char>, PairingError>(
                PairingError::ExpiredRequest,
            )
            &&& reject_outcome(s, id, t).1 == Err::<(), PairingError>(PairingError::ExpiredRequest)
            &&& claim_outcome(done, id, secret, t2) == (done, Err::<Seq<char>, PairingError>(
                PairingError::ExpiredRequest,
            ))
        }),
{
    lemma_active_request(s, capacity, i);
    lemma_finish_wf(s, i, TerminalStatus::Expired, capacity);
}

/// Rejecting a request frees its place: with a valid name, a new request is
/// then taken whatever the time.
pub proof fn lemma_rejection_frees_capacity(
    s: PairingState,
    capacity: nat,
    id: Seq<char>,
    t: u64,
    name: Seq<char>,
    t2: u64,
)
    requires
        state_wf(s, capacity),
        reject_outcome(s, id, t).1 == Ok::<(), PairingError>(()),
        valid_display_name(name),
    ensures
        begin_check(reject_outcome(s, id, t).0, capacity, name, t2) is Ok,
{
    let i = request_index(s, id)->0;
    request_ids(s.requests).index_of_first_ensures(id);
    let done = finish_request(s, i, TerminalStatus::Rejected);
    s.requests.remove_ensures(i);
    lemma_live_subset(done.requests, t2);
}

/// A request just taken is listed as waiting at every time before it
/// expires.
pub proof fn lemma_new_request_is_listed(
    p: PairingState,
    r: RequestView,
    now: u64,
    list: Seq<PendingPairing>,
)
    requires
        r.status == RequestStatus::Pending,
        now < r.expires_at,
        pending_listing(pruned(admitted(p, r), now), now, list),
    ensures
        exists|k: int| 0 <= k < list.len() && listed(list[k], r, now),
{
    let reqs = p.requests.push(r);
    assert(reqs.drop_last() =~= p.requests);
    let q = pruned(admitted(p, r), now);
    assert(q.requests == live_requests(p.requests, now).push(r));
    let j = q.requests.len() - 1;
    assert(q.requests[j] == r);
    reveal(lists_waiting);
    assert(0 <= j < q.requests.len() && q.requests[j].status == RequestStatus::Pending);
}

} // verus!
