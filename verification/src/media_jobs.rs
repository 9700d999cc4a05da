//! The ledger of background media jobs: admission within a byte quota,
//! deduplication of identical active work, cancellation, the life cycle of
//! each job and the release of its temporary output.
//!
//! The application runs the workers, the processes and the temporary
//! directories; it reports each step here and acts on the answer.
use vstd::prelude::*;

use crate::native_client::byte_len;

verus! {

/// The directory, under the work root, that the job manager owns.
pub const OWNED_WORK_DIRECTORY: &'static str = "localstream-media-jobs-v1";

/// Longest job key, in UTF-8 bytes.
pub const MAX_KEY_BYTES: usize = 512;

/// How the job manager is set up.
pub struct MediaJobConfig {
    pub work_root: std::path::PathBuf,
    pub max_concurrent: usize,
    pub max_queued: usize,
    pub temporary_byte_quota: u64,
}

/// What identifies one piece of work, so that identical requests share a
/// job while it is active.
#[derive(Debug, Clone, PartialEq, Eq, Hash)]
pub struct MediaJobKey(String);

impl View for MediaJobKey {
    type V = Seq<char>;

    closed spec fn view(&self) -> Seq<char> {
        self.0@
    }
}

impl MediaJobKey {
    /// A key of 1 to 512 UTF-8 bytes; other texts are refused.
    pub fn new(value: String) -> (r: Result<Self, MediaJobSubmitError>)
        ensures
            value@.len() == 0 || byte_len(value@) > MAX_KEY_BYTES ==> r == Err::<
                Self,
                MediaJobSubmitError,
            >(MediaJobSubmitError::InvalidKey),
            value@.len() > 0 && byte_len(value@) <= MAX_KEY_BYTES ==> (r matches Ok(
                k,
            ) && k@ == value@),
    {
        if value.as_str().is_empty() || value.as_str().len() > MAX_KEY_BYTES {
            return Err(MediaJobSubmitError::InvalidKey);
        }
        Ok(MediaJobKey(value))
    }

    /// The key's text.
    pub fn as_str(&self) -> (r: &str)
        ensures
            r@ == self@,
    {
        self.0.as_str()
    }
}

/// The identifier of a job.
#[derive(Debug, Clone, Copy, PartialEq, Eq, Hash, Structural)]
pub struct MediaJobId(pub u128);

#[derive(Debug, Clone, Copy, PartialEq, Eq, Structural)]
pub enum MediaJobState {
    Queued,
    Running,
    Completed,
    Failed,
    Cancelled,
}

#[derive(Debug, Clone, Copy, PartialEq, Eq, Structural)]
pub enum MediaJobFailureKind {
    Transform,
    TemporaryQuotaExceeded,
    TemporaryStorageUnavailable,
}

/// What may be shown of a job.
#[derive(Debug, Clone, Copy, PartialEq, Eq, Structural)]
pub struct MediaJobSnapshot {
    pub id: MediaJobId,
    pub state: MediaJobState,
    pub progress_permille: u16,
    pub failure: Option<MediaJobFailureKind>,
}

#[derive(Debug, Clone, Copy, PartialEq, Eq, Structural)]
pub enum SubmitDisposition {
    Admitted,
    Deduplicated,
}

/// The job a submission was given, and whether it was new.
#[derive(Debug, Clone, Copy, PartialEq, Eq, Structural)]
pub struct MediaJobSubmission {
    pub id: MediaJobId,
    pub disposition: SubmitDisposition,
}

#[derive(Debug, Clone, Copy, PartialEq, Eq, Structural)]
pub enum MediaJobOutputError {
    UnknownJob,
    NotReady,
    InvalidName,
    Unavailable,
}

impl MediaJobOutputError {
    /// The message shown for this error.
    pub fn message(&self) -> (r: &'static str)
        ensures
            r == (match self {
                MediaJobOutputError::UnknownJob => "the media job does not exist",
                MediaJobOutputError::NotReady => "the media job output is not ready",
                MediaJobOutputError::InvalidName => "the media job output name is invalid",
                MediaJobOutputError::Unavailable => "the media job output is unavailable",
            }),
    {
        match self {
            MediaJobOutputError::UnknownJob => "the media job does not exist",
            MediaJobOutputError::NotReady => "the media job output is not ready",
            MediaJobOutputError::InvalidName => "the media job output name is invalid",
            MediaJobOutputError::Unavailable => "the media job output is unavailable",
        }
    }
}

#[derive(Debug, Clone, Copy, PartialEq, Eq, Structural)]
pub enum MediaJobSubmitError {
    InvalidKey,
    InvalidReservation,
    QueueFull,
    TemporaryQuotaExceeded,
    Unavailable,
}

/// The message shown for `e`.
pub open spec fn submit_error_text(e: MediaJobSubmitError) -> &'static str {
    match e {
        MediaJobSubmitError::InvalidKey => "the media job key is invalid",
        MediaJobSubmitError::InvalidReservation => "the media job byte reservation is invalid",
        MediaJobSubmitError::QueueFull => "the media job queue is full",
        MediaJobSubmitError::TemporaryQuotaExceeded => "the temporary media quota is exhausted",
        MediaJobSubmitError::Unavailable => "the media job manager is unavailable",
    }
}

impl MediaJobSubmitError {
    /// The message shown for this error.
    pub fn message(&self) -> (r: &'static str)
        ensures
            r == submit_error_text(*self),
    {
        match self {
            MediaJobSubmitError::InvalidKey => "the media job key is invalid",
            MediaJobSubmitError::InvalidReservation => "the media job byte reservation is invalid",
            MediaJobSubmitError::QueueFull => "the media job queue is full",
            MediaJobSubmitError::TemporaryQuotaExceeded => "the temporary media quota is exhausted",
            MediaJobSubmitError::Unavailable => "the media job manager is unavailable",
        }
    }
}

#[derive(Debug)]
pub enum MediaJobStartError {
    InvalidConfiguration,
    TemporaryStorage(std::io::Error),
}

impl MediaJobStartError {
    /// The message shown for this error.
    pub fn message(&self) -> (r: &'static str)
        ensures
            r == (match self {
                MediaJobStartError::InvalidConfiguration => "the media job configuration is invalid",
                MediaJobStartError::TemporaryStorage(_) => "the temporary media directory is unavailable",
            }),
    {
        match self {
            MediaJobStartError::InvalidConfiguration => "the media job configuration is invalid",
            MediaJobStartError::TemporaryStorage(_) => "the temporary media directory is unavailable",
        }
    }
}

/// A media transform that did not succeed.
#[derive(Debug, Clone, Copy, PartialEq, Eq, Structural)]
pub struct JobFailure;

impl JobFailure {
    /// The message shown for this failure.
    pub fn message(&self) -> (r: &'static str)
        ensures
            r == ("the media transform failed"),
    {
        "the media transform failed"
    }
}

/// A configuration is usable when every limit is above zero.
pub fn check_config(config: &MediaJobConfig) -> (r: Result<(), MediaJobStartError>)
    ensures
        (config.max_concurrent == 0 || config.max_queued == 0 || config.temporary_byte_quota == 0)
            <==> r matches Err(MediaJobStartError::InvalidConfiguration),
        r is Ok <==> !(config.max_concurrent == 0 || config.max_queued == 0
            || config.temporary_byte_quota == 0),
{
    if config.max_concurrent == 0 || config.max_queued == 0 || config.temporary_byte_quota == 0 {
        Err(MediaJobStartError::InvalidConfiguration)
    } else {
        Ok(())
    }
}

/// What a job's work came to, before cancellation is accounted for: the
/// temporary directory could not be made, the transform failed or was
/// cancelled while it ran, its output outgrew the reservation, or its size
/// could not be measured.
pub open spec fn work_outcome_of(
    directory_created: bool,
    transform_succeeded: bool,
    cancelled_during: bool,
    output_size: Option<u64>,
    reserved_bytes: u64,
) -> Result<(), MediaJobFailureKind> {
    if !directory_created {
        Err(MediaJobFailureKind::TemporaryStorageUnavailable)
    } else if !transform_succeeded || cancelled_during {
        Err(MediaJobFailureKind::Transform)
    } else {
        match output_size {
            Some(size) => if size <= reserved_bytes {
                Ok(())
            } else {
                Err(MediaJobFailureKind::TemporaryQuotaExceeded)
            },
            None => Err(MediaJobFailureKind::TemporaryStorageUnavailable),
        }
    }
}

/// See `work_outcome_of`.
pub fn work_outcome(
    directory_created: bool,
    transform_succeeded: bool,
    cancelled_during: bool,
    output_size: Option<u64>,
    reserved_bytes: u64,
) -> (r: Result<(), MediaJobFailureKind>)
    ensures
        r == work_outcome_of(
            directory_created,
            transform_succeeded,
            cancelled_during,
            output_size,
            reserved_bytes,
        ),
{
    if !directory_created {
        Err(MediaJobFailureKind::TemporaryStorageUnavailable)
    } else if !transform_succeeded || cancelled_during {
        Err(MediaJobFailureKind::Transform)
    } else {
        match output_size {
            Some(size) => if size <= reserved_bytes {
                Ok(())
            } else {
                Err(MediaJobFailureKind::TemporaryQuotaExceeded)
            },
            None => Err(MediaJobFailureKind::TemporaryStorageUnavailable),
        }
    }
}

/// What the ledger knows of a job.
pub struct JobRecord {
    pub id: MediaJobId,
    pub key: MediaJobKey,
    pub state: MediaJobState,
    pub progress_permille: u16,
    pub failure: Option<MediaJobFailureKind>,
    pub reserved_bytes: u64,
    pub cancelled: bool,
}

pub ghost struct RecordView {
    pub id: u128,
    pub key: Seq<char>,
    pub state: MediaJobState,
    pub progress_permille: u16,
    pub failure: Option<MediaJobFailureKind>,
    pub reserved_bytes: u64,
    pub cancelled: bool,
}

impl View for JobRecord {
    type V = RecordView;

    open spec fn view(&self) -> RecordView {
        RecordView {
            id: self.id.0,
            key: self.key@,
            state: self.state,
            progress_permille: self.progress_permille,
            failure: self.failure,
            reserved_bytes: self.reserved_bytes,
            cancelled: self.cancelled,
        }
    }
}

/// The ledger as a whole: the quota, the jobs in admission order, the keys
/// of active work with their jobs, and the bytes reserved.
pub ghost struct LedgerView {
    pub quota: u64,
    pub records: Seq<RecordView>,
    pub active: Seq<(Seq<char>, u128)>,
    pub reserved_bytes: u64,
}

pub open spec fn reserved_total(records: Seq<RecordView>) -> int
    decreases records.len(),
{
    if records.len() == 0 {
        0
    } else {
        reserved_total(records.drop_last()) + records.last().reserved_bytes
    }
}

pub open spec fn is_terminal(state: MediaJobState) -> bool {
    state == MediaJobState::Completed || state == MediaJobState::Failed || state
        == MediaJobState::Cancelled
}

/// The place of job `id` among `records`, or -1.
pub open spec fn position(records: Seq<RecordView>, id: u128) -> int {
    if exists|i: int| 0 <= i < records.len() && (#[trigger] records[i]).id == id {
        choose|i: int| 0 <= i < records.len() && (#[trigger] records[i]).id == id
    } else {
        -1
    }
}

/// The place of `key` among the active keys, or -1.
pub open spec fn active_position(active: Seq<(Seq<char>, u128)>, key: Seq<char>) -> int {
    if exists|i: int| 0 <= i < active.len() && (#[trigger] active[i]).0 == key {
        choose|i: int| 0 <= i < active.len() && (#[trigger] active[i]).0 == key
    } else {
        -1
    }
}

/// The active keys without `key`.
pub open spec fn without_key(active: Seq<(Seq<char>, u128)>, key: Seq<char>) -> Seq<
    (Seq<char>, u128),
>
    decreases active.len(),
{
    if active.len() == 0 {
        Seq::empty()
    } else {
        let w = without_key(active.drop_last(), key);
        if active.last().0 == key {
            w
        } else {
            w.push(active.last())
        }
    }
}

/// The ledger is consistent: job identifiers and active keys are unique,
/// and the reserved bytes are those of the jobs held, within the quota.
pub open spec fn ledger_wf(v: LedgerView) -> bool {
    &&& forall|i: int, j: int|
        0 <= i < j < v.records.len() ==> (#[trigger] v.records[i]).id != (#[trigger] v.records[j]).id
    &&& forall|i: int, j: int|
        0 <= i < j < v.active.len() ==> (#[trigger] v.active[i]).0 != (#[trigger] v.active[j]).0
    &&& v.reserved_bytes == reserved_total(v.records)
    &&& v.reserved_bytes <= v.quota
}

/// A job's snapshot.
pub open spec fn snapshot_of(r: RecordView) -> MediaJobSnapshot {
    MediaJobSnapshot {
        id: MediaJobId(r.id),
        state: r.state,
        progress_permille: r.progress_permille,
        failure: r.failure,
    }
}

/// The ledger after job `id` is dropped: its record goes, its key stops
/// being active, and its bytes are no longer reserved.
pub open spec fn remove_spec(v: LedgerView, id: u128) -> LedgerView {
    let p = position(v.records, id);
    if p < 0 {
        v
    } else {
        LedgerView {
            records: v.records.remove(p),
            active: without_key(v.active, v.records[p].key),
            reserved_bytes: (v.reserved_bytes - v.records[p].reserved_bytes) as u64,
            ..v
        }
    }
}

/// What a submission does: a reservation of zero or above the quota is
/// refused; a key already active shares that job; a reservation that would
/// exceed the quota is refused; otherwise a queued job is admitted.
pub open spec fn submit_spec(v: LedgerView, key: Seq<char>, reserved_bytes: u64, id: u128) -> (
    LedgerView,
    Result<MediaJobSubmission, MediaJobSubmitError>,
) {
    if reserved_bytes == 0 || reserved_bytes > v.quota {
        (v, Err(MediaJobSubmitError::InvalidReservation))
    } else if active_position(v.active, key) >= 0 {
        (
            v,
            Ok(
                MediaJobSubmission {
                    id: MediaJobId(v.active[active_position(v.active, key)].1),
                    disposition: SubmitDisposition::Deduplicated,
                },
            ),
        )
    } else if v.reserved_bytes + reserved_bytes > v.quota {
        (v, Err(MediaJobSubmitError::TemporaryQuotaExceeded))
    } else if position(v.records, id) >= 0 {
        (v, Err(MediaJobSubmitError::Unavailable))
    } else {
        (
            LedgerView {
                records: v.records.push(
                    RecordView {
                        id,
                        key,
                        state: MediaJobState::Queued,
                        progress_permille: 0,
                        failure: None,
                        reserved_bytes,
                        cancelled: false,
                    },
                ),
                active: v.active.push((key, id)),
                reserved_bytes: (v.reserved_bytes + reserved_bytes) as u64,
                ..v
            },
            Ok(MediaJobSubmission { id: MediaJobId(id), disposition: SubmitDisposition::Admitted }),
        )
    }
}

/// Job `id` with its record changed to `r`.
pub open spec fn with_record(v: LedgerView, id: u128, r: RecordView) -> LedgerView {
    LedgerView { records: v.records.update(position(v.records, id), r), ..v }
}

/// Cancelling asks a queued or running job to stop; it says whether the
/// job was queued or running.
pub open spec fn cancel_spec(v: LedgerView, id: u128) -> (LedgerView, bool) {
    let p = position(v.records, id);
    if p >= 0 && (v.records[p].state == MediaJobState::Queued || v.records[p].state
        == MediaJobState::Running) {
        (with_record(v, id, RecordView { cancelled: true, ..v.records[p] }), true)
    } else {
        (v, false)
    }
}

/// A worker picks up job `id`: a cancelled job ends as cancelled without
/// running and its key stops being active; otherwise it runs.
pub open spec fn begin_spec(v: LedgerView, id: u128) -> (LedgerView, bool) {
    let p = position(v.records, id);
    if p < 0 {
        (v, false)
    } else if v.records[p].cancelled {
        (
            LedgerView {
                active: without_key(v.active, v.records[p].key),
                ..with_record(v, id, RecordView { state: MediaJobState::Cancelled, ..v.records[p] })
            },
            false,
        )
    } else {
        (with_record(v, id, RecordView { state: MediaJobState::Running, ..v.records[p] }), true)
    }
}

/// A running job reports its progress, kept below completion.
pub open spec fn progress_spec(v: LedgerView, id: u128, permille: u16) -> LedgerView {
    let p = position(v.records, id);
    if p >= 0 && v.records[p].state == MediaJobState::Running {
        with_record(
            v,
            id,
            RecordView {
                progress_permille: if permille < 999 {
                    permille
                } else {
                    999
                },
                ..v.records[p]
            },
        )
    } else {
        v
    }
}

/// The state a job ends in: cancelled if it was asked to stop, failed if
/// its work failed, completed otherwise.
pub open spec fn final_state_of(cancelled: bool, outcome: Result<(), MediaJobFailureKind>) -> (
    MediaJobState,
    Option<MediaJobFailureKind>,
) {
    if cancelled {
        (MediaJobState::Cancelled, None)
    } else {
        match outcome {
            Err(f) => (MediaJobState::Failed, Some(f)),
            Ok(()) => (MediaJobState::Completed, None),
        }
    }
}

/// A job's work has ended: its record takes its final state (a completed
/// job at full progress) and its key stops being active.
pub open spec fn finish_spec(v: LedgerView, id: u128, outcome: Result<(), MediaJobFailureKind>) -> (
    LedgerView,
    Option<MediaJobState>,
) {
    let p = position(v.records, id);
    if p < 0 {
        (v, None)
    } else {
        let r = v.records[p];
        let (state, failure) = final_state_of(r.cancelled, outcome);
        (
            LedgerView {
                active: without_key(v.active, r.key),
                ..with_record(
                    v,
                    id,
                    RecordView {
                        state,
                        failure,
                        progress_permille: if state == MediaJobState::Completed {
                            1000
                        } else {
                            r.progress_permille
                        },
                        ..r
                    },
                )
            },
            Some(state),
        )
    }
}

/// A finished job may be released: its record goes and its bytes are no
/// longer reserved.
pub open spec fn release_spec(v: LedgerView, id: u128) -> (LedgerView, bool) {
    let p = position(v.records, id);
    if p >= 0 && is_terminal(v.records[p].state) {
        (remove_spec(v, id), true)
    } else {
        (v, false)
    }
}

/// Whether the output of job `id` may be read.
pub open spec fn output_status_of(v: LedgerView, id: u128) -> Result<(), MediaJobOutputError> {
    let p = position(v.records, id);
    if p < 0 {
        Err(MediaJobOutputError::UnknownJob)
    } else if v.records[p].state != MediaJobState::Completed {
        Err(MediaJobOutputError::NotReady)
    } else {
        Ok(())
    }
}

/// The ledger of media jobs.
pub struct MediaJobLedger {
    quota: u64,
    records: Vec<JobRecord>,
    active: Vec<(MediaJobKey, MediaJobId)>,
    reserved_bytes: u64,
}

impl View for MediaJobLedger {
    type V = LedgerView;

    closed spec fn view(&self) -> LedgerView {
        LedgerView {
            quota: self.quota,
            records: self.records@.map_values(|r: JobRecord| r@),
            active: self.active@.map_values(|e: (MediaJobKey, MediaJobId)| (e.0@, e.1.0)),
            reserved_bytes: self.reserved_bytes,
        }
    }
}

proof fn lemma_total_push(s: Seq<RecordView>, r: RecordView)
    ensures
        reserved_total(s.push(r)) == reserved_total(s) + r.reserved_bytes,
{
    assert(s.push(r).drop_last() =~= s);
}

proof fn lemma_total_remove(s: Seq<RecordView>, i: int)
    requires
        0 <= i < s.len(),
    ensures
        reserved_total(s.remove(i)) == reserved_total(s) - s[i].reserved_bytes,
    decreases s.len(),
{
    if i == s.len() - 1 {
        assert(s.remove(i) =~= s.drop_last());
    } else {
        lemma_total_remove(s.drop_last(), i);
        assert(s.remove(i) =~= s.drop_last().remove(i).push(s.last()));
        lemma_total_push(s.drop_last().remove(i), s.last());
    }
}

proof fn lemma_total_update(s: Seq<RecordView>, i: int, r: RecordView)
    requires
        0 <= i < s.len(),
        r.reserved_bytes == s[i].reserved_bytes,
    ensures
        reserved_total(s.update(i, r)) == reserved_total(s),
    decreases s.len(),
{
    if i == s.len() - 1 {
        assert(s.update(i, r).drop_last() =~= s.drop_last());
    } else {
        lemma_total_update(s.drop_last(), i, r);
        assert(s.update(i, r).drop_last() =~= s.drop_last().update(i, r));
    }
}

proof fn lemma_total_bounds(s: Seq<RecordView>, i: int)
    requires
        0 <= i < s.len(),
    ensures
        0 <= s[i].reserved_bytes <= reserved_total(s),
    decreases s.len(),
{
    lemma_total_nonnegative(s.drop_last());
    if i < s.len() - 1 {
        lemma_total_bounds(s.drop_last(), i);
    }
}

proof fn lemma_total_nonnegative(s: Seq<RecordView>)
    ensures
        reserved_total(s) >= 0,
    decreases s.len(),
{
    if s.len() > 0 {
        lemma_total_nonnegative(s.drop_last());
    }
}

proof fn lemma_position(records: Seq<RecordView>, id: u128, i: int)
    requires
        0 <= i < records.len(),
        records[i].id == id,
        forall|a: int, b: int|
            0 <= a < b < records.len() ==> (#[trigger] records[a]).id != (#[trigger] records[b]).id,
    ensures
        position(records, id) == i,
{
    let p = position(records, id);
    assert(0 <= p < records.len() && records[p].id == id);
    if p != i {
        if p < i {
            assert(records[p].id != records[i].id);
        } else {
            assert(records[i].id != records[p].id);
        }
    }
}

proof fn lemma_active_position(active: Seq<(Seq<char>, u128)>, key: Seq<char>, i: int)
    requires
        0 <= i < active.len(),
        active[i].0 == key,
        forall|a: int, b: int|
            0 <= a < b < active.len() ==> (#[trigger] active[a]).0 != (#[trigger] active[b]).0,
    ensures
        active_position(active, key) == i,
{
    let p = active_position(active, key);
    assert(0 <= p < active.len() && active[p].0 == key);
    if p != i {
        if p < i {
            assert(active[p].0 != active[i].0);
        } else {
            assert(active[i].0 != active[p].0);
        }
    }
}

impl MediaJobLedger {
    /// The ledger is consistent (see `ledger_wf`).
    pub open spec fn wf(&self) -> bool {
        ledger_wf(self@)
    }

    /// An empty ledger for jobs within `quota` bytes in all.
    pub fn new(quota: u64) -> (r: Self)
        ensures
            r@ == (LedgerView {
                quota,
                records: Seq::empty(),
                active: Seq::empty(),
                reserved_bytes: 0,
            }),
            r.wf(),
    {
        let r = MediaJobLedger { quota, records: Vec::new(), active: Vec::new(), reserved_bytes: 0 };
        assert(r@.records =~= Seq::<RecordView>::empty());
        assert(r@.active =~= Seq::<(Seq<char>, u128)>::empty());
        r
    }

    /// The place of job `id` in the ledger.
    fn find(&self, id: MediaJobId) -> (r: Option<usize>)
        requires
            self.wf(),
        ensures
            match r {
                Some(i) => i < self@.records.len() && self@.records[i as int].id == id.0 && position(
                    self@.records,
                    id.0,
                ) == i,
                None => position(self@.records, id.0) == -1,
            },
    {
        let mut i: usize = 0;
        while i < self.records.len()
            invariant
                i <= self.records.len(),
                self@.records == self.records@.map_values(|r: JobRecord| r@),
                ledger_wf(self@),
                forall|k: int| 0 <= k < i ==> (#[trigger] self@.records[k]).id != id.0,
            decreases self.records.len() - i,
        {
            if self.records[i].id.0 == id.0 {
                proof {
                    lemma_position(self@.records, id.0, i as int);
                }
                return Some(i);
            }
            i += 1;
        }
        None
    }

    /// The place of `key` among the active keys.
    fn find_active(&self, key: &MediaJobKey) -> (r: Option<usize>)
        requires
            self.wf(),
        ensures
            match r {
                Some(i) => i < self@.active.len() && self@.active[i as int].0 == key@
                    && active_position(self@.active, key@) == i,
                None => active_position(self@.active, key@) == -1,
            },
    {
        let mut i: usize = 0;
        while i < self.active.len()
            invariant
                i <= self.active.len(),
                self@.active == self.active@.map_values(|e: (MediaJobKey, MediaJobId)| (e.0@, e.1.0)),
                ledger_wf(self@),
                forall|k: int| 0 <= k < i ==> (#[trigger] self@.active[k]).0 != key@,
            decreases self.active.len() - i,
        {
            if crate::text::str_eq(self.active[i].0.as_str(), key.as_str()) {
                proof {
                    lemma_active_position(self@.active, key@, i as int);
                }
                return Some(i);
            }
            i += 1;
        }
        None
    }
}

proof fn lemma_without_key(active: Seq<(Seq<char>, u128)>, key: Seq<char>)
    ensures
        forall|i: int|
            0 <= i < without_key(active, key).len() ==> exists|k: int|
                0 <= k < active.len() && active[k] == #[trigger] without_key(active, key)[i],
        forall|i: int|
            0 <= i < without_key(active, key).len() ==> (#[trigger] without_key(active, key)[i]).0
                != key,
    decreases active.len(),
{
    if active.len() > 0 {
        let rest = active.drop_last();
        lemma_without_key(rest, key);
        let wr = without_key(rest, key);
        let w = without_key(active, key);
        assert forall|i: int| 0 <= i < w.len() implies exists|k: int|
            0 <= k < active.len() && active[k] == #[trigger] w[i] by {
            if i < wr.len() {
                let k = choose|k: int| 0 <= k < rest.len() && rest[k] == wr[i];
                assert(active[k] == rest[k]);
            } else {
                assert(active[active.len() - 1] == w[i]);
            }
        }
    }
}

proof fn lemma_without_key_distinct(active: Seq<(Seq<char>, u128)>, key: Seq<char>)
    requires
        forall|a: int, b: int|
            0 <= a < b < active.len() ==> (#[trigger] active[a]).0 != (#[trigger] active[b]).0,
    ensures
        forall|a: int, b: int|
            0 <= a < b < without_key(active, key).len() ==> (#[trigger] without_key(active, key)[a]).0
                != (#[trigger] without_key(active, key)[b]).0,
    decreases active.len(),
{
    if active.len() > 0 {
        let rest = active.drop_last();
        assert forall|a: int, b: int| 0 <= a < b < rest.len() implies (#[trigger] rest[a]).0
            != (#[trigger] rest[b]).0 by {
            assert(rest[a] == active[a] && rest[b] == active[b]);
        }
        lemma_without_key_distinct(rest, key);
        lemma_without_key(rest, key);
        let wr = without_key(rest, key);
        let w = without_key(active, key);
        if active.last().0 != key {
            assert forall|a: int, b: int| 0 <= a < b < w.len() implies (#[trigger] w[a]).0 != (
            #[trigger] w[b]).0 by {
                if b == w.len() - 1 {
                    assert(w[a] == wr[a]);
                    let k = choose|k: int| 0 <= k < rest.len() && rest[k] == wr[a];
                    assert(active[k] == rest[k]);
                    assert(active[k].0 != active[active.len() - 1].0);
                } else {
                    assert(w[a] == wr[a] && w[b] == wr[b]);
                }
            }
        } else {
            assert(w == wr);
        }
    }
}

impl MediaJobLedger {
    /// Changes the record at `i`.
    fn put(&mut self, i: usize, r: JobRecord) -> (old_record: JobRecord)
        requires
            i < old(self).records@.len(),
        ensures
            final(self).records@ == old(self).records@.update(i as int, r),
            final(self)@.records == old(self)@.records.update(i as int, r@),
            final(self).quota == old(self).quota,
            final(self).active == old(self).active,
            final(self).reserved_bytes == old(self).reserved_bytes,
            old_record == old(self).records@[i as int],
    {
        let old_record = self.records.remove(i);
        self.records.insert(i, r);
        proof {
            assert(self.records@ =~= old(self).records@.update(i as int, r));
            assert(self@.records =~= old(self)@.records.update(i as int, r@));
        }
        old_record
    }

    /// Stops `key` from being active.
    fn drop_key(&mut self, key: &MediaJobKey)
        requires
            old(self).wf(),
        ensures
            final(self)@ == (LedgerView { active: without_key(old(self)@.active, key@), ..old(self)@ }),
            final(self).records == old(self).records,
            final(self).wf(),
    {
        let ghost before = self@;
        let mut source: Vec<(MediaJobKey, MediaJobId)> = Vec::new();
        std::mem::swap(&mut source, &mut self.active);
        let ghost src = source@.map_values(|e: (MediaJobKey, MediaJobId)| (e.0@, e.1.0));
        assert(src == before.active);
        let mut kept: Vec<(MediaJobKey, MediaJobId)> = Vec::new();
        let ghost mut taken: int = 0;
        proof {
            assert(src.take(0) =~= Seq::<(Seq<char>, u128)>::empty());
            assert(source@.map_values(|e: (MediaJobKey, MediaJobId)| (e.0@, e.1.0)) =~= src.skip(0));
        }
        while source.len() > 0
            invariant
                0 <= taken <= src.len(),
                source@.len() == src.len() - taken,
                source@.map_values(|e: (MediaJobKey, MediaJobId)| (e.0@, e.1.0)) == src.skip(taken),
                kept@.map_values(|e: (MediaJobKey, MediaJobId)| (e.0@, e.1.0)) == without_key(
                    src.take(taken),
                    key@,
                ),
            decreases source.len(),
        {
            let ghost before_source = source@;
            let entry = source.remove(0);
            proof {
                assert(before_source.map_values(|e: (MediaJobKey, MediaJobId)| (e.0@, e.1.0))[0]
                    == (entry.0@, entry.1.0));
                assert(source@ =~= before_source.drop_first());
                let sm = source@.map_values(|e: (MediaJobKey, MediaJobId)| (e.0@, e.1.0));
                assert forall|i: int| 0 <= i < source@.len() implies #[trigger] sm[i] == src.skip(
                    taken + 1,
                )[i] by {
                    assert(source@[i] == before_source[i + 1]);
                    assert(before_source.map_values(|e: (MediaJobKey, MediaJobId)| (e.0@, e.1.0))[i
                        + 1] == src.skip(taken)[i + 1]);
                }
                assert(src.skip(taken)[0] == (entry.0@, entry.1.0));
                assert(source@.map_values(|e: (MediaJobKey, MediaJobId)| (e.0@, e.1.0)) =~= src.skip(
                    taken + 1,
                ));
                assert(src.take(taken + 1).drop_last() =~= src.take(taken));
                assert(src.take(taken + 1).last() == (entry.0@, entry.1.0));
            }
            if !crate::text::str_eq(entry.0.as_str(), key.as_str()) {
                let ghost k = kept@;
                kept.push(entry);
                proof {
                    assert(kept@.map_values(|e: (MediaJobKey, MediaJobId)| (e.0@, e.1.0)) =~= k.map_values(
                        |e: (MediaJobKey, MediaJobId)| (e.0@, e.1.0),
                    ).push((entry.0@, entry.1.0)));
                }
            }
            proof {
                taken = taken + 1;
            }
        }
        proof {
            assert(src.take(taken) =~= src);
            lemma_without_key_distinct(src, key@);
        }
        self.active = kept;
    }

    /// Submits work under `key` reserving `reserved_bytes`, with `id` for a
    /// new job (see `submit_spec`).
    pub fn submit_with_id(&mut self, key: MediaJobKey, reserved_bytes: u64, id: MediaJobId) -> (r:
        Result<MediaJobSubmission, MediaJobSubmitError>)
        requires
            old(self).wf(),
        ensures
            final(self).wf(),
            (final(self)@, r) == submit_spec(old(self)@, key@, reserved_bytes, id.0),
    {
        if reserved_bytes == 0 || reserved_bytes > self.quota {
            return Err(MediaJobSubmitError::InvalidReservation);
        }
        if let Some(i) = self.find_active(&key) {
            return Ok(
                MediaJobSubmission { id: self.active[i].1, disposition: SubmitDisposition::Deduplicated },
            );
        }
        if reserved_bytes > self.quota - self.reserved_bytes {
            return Err(MediaJobSubmitError::TemporaryQuotaExceeded);
        }
        if self.find(id).is_some() {
            return Err(MediaJobSubmitError::Unavailable);
        }
        let ghost v = self@;
        let ghost kv = key@;
        let record = JobRecord {
            id,
            key: MediaJobKey(key.0.clone()),
            state: MediaJobState::Queued,
            progress_permille: 0,
            failure: None,
            reserved_bytes,
            cancelled: false,
        };
        let ghost rv = record@;
        self.records.push(record);
        self.active.push((key, id));
        self.reserved_bytes = self.reserved_bytes + reserved_bytes;
        proof {
            assert(self@.records =~= v.records.push(rv));
            assert(self@.active =~= v.active.push((kv, id.0)));
            lemma_total_push(v.records, rv);
            let recs = self@.records;
            assert forall|a: int, b: int| 0 <= a < b < recs.len() implies (#[trigger] recs[a]).id
                != (#[trigger] recs[b]).id by {
                if b == recs.len() - 1 {
                    assert(recs[a] == v.records[a]);
                    assert(v.records[a].id != id.0);
                }
            }
            let act = self@.active;
            assert forall|a: int, b: int| 0 <= a < b < act.len() implies (#[trigger] act[a]).0
                != (#[trigger] act[b]).0 by {
                if b == act.len() - 1 {
                    assert(act[a] == v.active[a]);
                    assert(v.active[a].0 != kv);
                }
            }
        }
        Ok(MediaJobSubmission { id, disposition: SubmitDisposition::Admitted })
    }
}

proof fn lemma_update_wf(v: LedgerView, i: int, r: RecordView)
    requires
        ledger_wf(v),
        0 <= i < v.records.len(),
        r.id == v.records[i].id,
        r.key == v.records[i].key,
        r.reserved_bytes == v.records[i].reserved_bytes,
    ensures
        ledger_wf(LedgerView { records: v.records.update(i, r), ..v }),
{
    lemma_total_update(v.records, i, r);
    let recs = v.records.update(i, r);
    assert forall|a: int, b: int| 0 <= a < b < recs.len() implies (#[trigger] recs[a]).id != (
    #[trigger] recs[b]).id by {
        assert(recs[a].id == v.records[a].id && recs[b].id == v.records[b].id);
    }
}

impl MediaJobLedger {
    /// Changes the state-related fields of the record at `i`.
    fn set_record(
        &mut self,
        i: usize,
        state: MediaJobState,
        progress_permille: u16,
        failure: Option<MediaJobFailureKind>,
        cancelled: bool,
    )
        requires
            old(self).wf(),
            i < old(self)@.records.len(),
        ensures
            final(self).wf(),
            final(self)@ == (LedgerView {
                records: old(self)@.records.update(
                    i as int,
                    RecordView {
                        state,
                        progress_permille,
                        failure,
                        cancelled,
                        ..old(self)@.records[i as int]
                    },
                ),
                ..old(self)@
            }),
    {
        proof {
            lemma_update_wf(
                self@,
                i as int,
                RecordView { state, progress_permille, failure, cancelled, ..self@.records[i as int] },
            );
        }
        let placeholder = JobRecord {
            id: MediaJobId(0),
            key: MediaJobKey(String::new()),
            state,
            progress_permille,
            failure,
            reserved_bytes: 0,
            cancelled,
        };
        let ghost v = self@;
        let old_record = self.put(i, placeholder);
        let record = JobRecord {
            id: old_record.id,
            key: old_record.key,
            state,
            progress_permille,
            failure,
            reserved_bytes: old_record.reserved_bytes,
            cancelled,
        };
        self.put(i, record);
        proof {
            assert(self@.records =~= v.records.update(
                i as int,
                RecordView { state, progress_permille, failure, cancelled, ..v.records[i as int] },
            ));
        }
    }

    /// Drops job `id` (see `remove_spec`): how the application withdraws a
    /// job that its queue could not take.
    pub fn remove(&mut self, id: MediaJobId)
        requires
            old(self).wf(),
        ensures
            final(self).wf(),
            final(self)@ == remove_spec(old(self)@, id.0),
    {
        let i = match self.find(id) {
            Some(i) => i,
            None => return ,
        };
        let ghost v = self@;
        let record = self.records.remove(i);
        proof {
            assert(self@.records =~= v.records.remove(i as int));
            lemma_total_remove(v.records, i as int);
            lemma_total_bounds(v.records, i as int);
            let recs = self@.records;
            assert forall|a: int, b: int| 0 <= a < b < recs.len() implies (#[trigger] recs[a]).id
                != (#[trigger] recs[b]).id by {
                let a0 = if a < i { a } else { a + 1 };
                let b0 = if b < i { b } else { b + 1 };
                assert(recs[a] == v.records[a0] && recs[b] == v.records[b0]);
            }
        }
        self.reserved_bytes = self.reserved_bytes - record.reserved_bytes;
        proof {
            assert(record@ == v.records[i as int]);
            assert(self@.active == v.active);
            assert(self@.records == v.records.remove(i as int));
            assert(self.wf());
        }
        self.drop_key(&record.key);
    }

    /// The snapshot of job `id`, if the ledger holds it.
    pub fn snapshot(&self, id: MediaJobId) -> (r: Option<MediaJobSnapshot>)
        requires
            self.wf(),
        ensures
            r == (if position(self@.records, id.0) >= 0 {
                Some(snapshot_of(self@.records[position(self@.records, id.0)]))
            } else {
                None
            }),
    {
        match self.find(id) {
            Some(i) => {
                let record = &self.records[i];
                Some(
                    MediaJobSnapshot {
                        id: record.id,
                        state: record.state,
                        progress_permille: record.progress_permille,
                        failure: record.failure,
                    },
                )
            },
            None => None,
        }
    }

    /// Asks job `id` to stop (see `cancel_spec`).
    pub fn cancel(&mut self, id: MediaJobId) -> (r: bool)
        requires
            old(self).wf(),
        ensures
            final(self).wf(),
            (final(self)@, r) == cancel_spec(old(self)@, id.0),
    {
        let i = match self.find(id) {
            Some(i) => i,
            None => return false,
        };
        let state = self.records[i].state;
        if state == MediaJobState::Queued || state == MediaJobState::Running {
            let progress = self.records[i].progress_permille;
            let failure = self.records[i].failure;
            self.set_record(i, state, progress, failure, true);
            true
        } else {
            false
        }
    }

    /// A worker picks up job `id` (see `begin_spec`); it runs the work only
    /// when this says so.
    pub fn begin(&mut self, id: MediaJobId) -> (r: bool)
        requires
            old(self).wf(),
        ensures
            final(self).wf(),
            (final(self)@, r) == begin_spec(old(self)@, id.0),
    {
        let i = match self.find(id) {
            Some(i) => i,
            None => return false,
        };
        let progress = self.records[i].progress_permille;
        let failure = self.records[i].failure;
        let ghost v = self@;
        if self.records[i].cancelled {
            self.set_record(i, MediaJobState::Cancelled, progress, failure, true);
            assert(self@.records[i as int] == self.records@[i as int]@);
            let key = MediaJobKey(self.records[i].key.0.clone());
            assert(key@ == v.records[i as int].key);
            self.drop_key(&key);
            assert(self@.records == with_record(v, id.0, RecordView { state: MediaJobState::Cancelled, ..v.records[i as int] }).records);
            false
        } else {
            self.set_record(i, MediaJobState::Running, progress, failure, false);
            true
        }
    }

    /// Job `id` reports its progress (see `progress_spec`).
    pub fn set_permille(&mut self, id: MediaJobId, progress: u16)
        requires
            old(self).wf(),
        ensures
            final(self).wf(),
            final(self)@ == progress_spec(old(self)@, id.0, progress),
    {
        let i = match self.find(id) {
            Some(i) => i,
            None => return ,
        };
        if self.records[i].state == MediaJobState::Running {
            let kept = if progress < 999 {
                progress
            } else {
                999
            };
            let failure = self.records[i].failure;
            let cancelled = self.records[i].cancelled;
            self.set_record(i, MediaJobState::Running, kept, failure, cancelled);
        }
    }

    /// Job `id`'s work has ended with `outcome` (see `finish_spec`); the
    /// application removes the job's directory unless it completed.
    pub fn finish(&mut self, id: MediaJobId, outcome: Result<(), MediaJobFailureKind>) -> (r:
        Option<MediaJobState>)
        requires
            old(self).wf(),
        ensures
            final(self).wf(),
            (final(self)@, r) == finish_spec(old(self)@, id.0, outcome),
    {
        let i = match self.find(id) {
            Some(i) => i,
            None => return None,
        };
        let cancelled = self.records[i].cancelled;
        let (state, failure) = if cancelled {
            (MediaJobState::Cancelled, None)
        } else {
            match outcome {
                Err(f) => (MediaJobState::Failed, Some(f)),
                Ok(()) => (MediaJobState::Completed, None),
            }
        };
        let progress = if state == MediaJobState::Completed {
            1000
        } else {
            self.records[i].progress_permille
        };
        let ghost v = self@;
        self.set_record(i, state, progress, failure, cancelled);
        assert(self@.records[i as int] == self.records@[i as int]@);
        let key = MediaJobKey(self.records[i].key.0.clone());
        assert(key@ == v.records[i as int].key);
        self.drop_key(&key);
        Some(state)
    }

    /// Releases a finished job (see `release_spec`); the application then
    /// removes its directory.
    pub fn release(&mut self, id: MediaJobId) -> (r: bool)
        requires
            old(self).wf(),
        ensures
            final(self).wf(),
            (final(self)@, r) == release_spec(old(self)@, id.0),
    {
        let i = match self.find(id) {
            Some(i) => i,
            None => return false,
        };
        let state = self.records[i].state;
        if state == MediaJobState::Completed || state == MediaJobState::Failed || state
            == MediaJobState::Cancelled {
            self.remove(id);
            true
        } else {
            false
        }
    }

    /// Whether the output of job `id` may be read.
    pub fn output_status(&self, id: MediaJobId) -> (r: Result<(), MediaJobOutputError>)
        requires
            self.wf(),
        ensures
            r == output_status_of(self@, id.0),
    {
        match self.find(id) {
            Some(i) => if self.records[i].state == MediaJobState::Completed {
                Ok(())
            } else {
                Err(MediaJobOutputError::NotReady)
            },
            None => Err(MediaJobOutputError::UnknownJob),
        }
    }
}

/// How many random identifiers a submission draws before it gives up on
/// finding one that no job holds.
pub const JOB_ID_DRAWS: usize = 8;

/// Whether a submission of `key` reserving `reserved_bytes` would admit a
/// new job: the reservation is valid, no job for `key` is active, and the
/// quota has room.
pub open spec fn admits_new_job(v: LedgerView, key: Seq<char>, reserved_bytes: u64) -> bool {
    &&& 0 < reserved_bytes <= v.quota
    &&& active_position(v.active, key) < 0
    &&& v.reserved_bytes + reserved_bytes <= v.quota
}

impl MediaJobLedger {
    /// A random identifier that no job holds: a version-4 UUID of 16 bytes
    /// from the system's random source, drawn again while it is taken, at
    /// most `JOB_ID_DRAWS` times.  `None` when the random source fails or no
    /// draw was free.
    fn fresh_job_id(&self) -> (r: Option<MediaJobId>)
        requires
            self.wf(),
        ensures
            r matches Some(id) ==> position(self@.records, id.0) == -1,
    {
        let mut draws: usize = 0;
        while draws < JOB_ID_DRAWS
            invariant
                self.wf(),
            decreases JOB_ID_DRAWS - draws,
        {
            let bytes = match crate::token::random_bytes(16) {
                Ok(bytes) => bytes,
                Err(_) => return None,
            };
            let id = MediaJobId(crate::token::uuid_value_from_random(bytes.as_slice()));
            if self.find(id).is_none() {
                return Some(id);
            }
            draws += 1;
        }
        None
    }

    /// Submits work under `key` reserving `reserved_bytes` (see
    /// `submit_spec`).  A new job gets a random identifier that no job
    /// holds; when none can be drawn the submission is `Unavailable` and
    /// nothing changes.  Every other outcome does not depend on the
    /// identifier.
    pub fn submit(&mut self, key: MediaJobKey, reserved_bytes: u64) -> (r: Result<
        MediaJobSubmission,
        MediaJobSubmitError,
    >)
        requires
            old(self).wf(),
        ensures
            final(self).wf(),
            !admits_new_job(old(self)@, key@, reserved_bytes) ==> (final(self)@, r) == submit_spec(
                old(self)@,
                key@,
                reserved_bytes,
                0,
            ),
            admits_new_job(old(self)@, key@, reserved_bytes) ==> (exists|id: u128|
                position(old(self)@.records, id) == -1 && (final(self)@, r) == submit_spec(
                    old(self)@,
                    key@,
                    reserved_bytes,
                    id,
                )) || (final(self)@ == old(self)@ && r == Err::<
                MediaJobSubmission,
                MediaJobSubmitError,
            >(MediaJobSubmitError::Unavailable)),
    {
        if reserved_bytes == 0 || reserved_bytes > self.quota || self.find_active(&key).is_some()
            || reserved_bytes > self.quota - self.reserved_bytes {
            return self.submit_with_id(key, reserved_bytes, MediaJobId(0));
        }
        match self.fresh_job_id() {
            Some(id) => {
                let r = self.submit_with_id(key, reserved_bytes, id);
                assert((self@, r) == submit_spec(old(self)@, key@, reserved_bytes, id.0));
                r
            },
            None => Err(MediaJobSubmitError::Unavailable),
        }
    }
}

/// Identical work shares one job while it is active: submitting a key that
/// is active answers with that key's job and changes nothing.
pub proof fn lemma_active_key_is_shared(v: LedgerView, key: Seq<char>, reserved_bytes: u64, id: u128)
    requires
        ledger_wf(v),
        0 < reserved_bytes <= v.quota,
        active_position(v.active, key) >= 0,
    ensures
        submit_spec(v, key, reserved_bytes, id).0 == v,
        submit_spec(v, key, reserved_bytes, id).1 == Ok::<MediaJobSubmission, MediaJobSubmitError>(
            MediaJobSubmission {
                id: MediaJobId(v.active[active_position(v.active, key)].1),
                disposition: SubmitDisposition::Deduplicated,
            },
        ),
{
}

/// An admitted job is queued with its bytes reserved, and its key becomes
/// active: a second identical submission shares it.
pub proof fn lemma_admitted_then_shared(
    v: LedgerView,
    key: Seq<char>,
    reserved_bytes: u64,
    id: u128,
    other_id: u128,
)
    requires
        ledger_wf(v),
        submit_spec(v, key, reserved_bytes, id).1 matches Ok(s) && s.disposition
            == SubmitDisposition::Admitted,
    ensures
        ({
            let w = submit_spec(v, key, reserved_bytes, id).0;
            &&& w.reserved_bytes == v.reserved_bytes + reserved_bytes
            &&& snapshot_of(w.records[position(w.records, id)]) == (MediaJobSnapshot {
                id: MediaJobId(id),
                state: MediaJobState::Queued,
                progress_permille: 0,
                failure: None,
            })
            &&& submit_spec(w, key, reserved_bytes, other_id).1
                == Ok::<MediaJobSubmission, MediaJobSubmitError>(
                MediaJobSubmission {
                    id: MediaJobId(id),
                    disposition: SubmitDisposition::Deduplicated,
                },
            )
        }),
{
    let w = submit_spec(v, key, reserved_bytes, id).0;
    lemma_total_push(
        v.records,
        RecordView {
            id,
            key,
            state: MediaJobState::Queued,
            progress_permille: 0,
            failure: None,
            reserved_bytes,
            cancelled: false,
        },
    );
    assert(position(v.records, id) < 0);
    assert forall|a: int, b: int| 0 <= a < b < w.records.len() implies (#[trigger] w.records[a]).id
        != (#[trigger] w.records[b]).id by {
        if b == w.records.len() - 1 {
            assert(w.records[a] == v.records[a]);
        }
    }
    lemma_position(w.records, id, w.records.len() - 1);
    assert(active_position(v.active, key) < 0);
    assert forall|a: int, b: int| 0 <= a < b < w.active.len() implies (#[trigger] w.active[a]).0
        != (#[trigger] w.active[b]).0 by {
        if b == w.active.len() - 1 {
            assert(w.active[a] == v.active[a]);
        }
    }
    lemma_active_position(w.active, key, w.active.len() - 1);
}

/// A job cancelled before a worker picks it up never runs: it ends as
/// cancelled and its key stops being active.
pub proof fn lemma_cancelled_job_never_runs(v: LedgerView, id: u128)
    requires
        ledger_wf(v),
        cancel_spec(v, id).1,
    ensures
        !begin_spec(cancel_spec(v, id).0, id).1,
        ({
            let w = begin_spec(cancel_spec(v, id).0, id).0;
            w.records[position(w.records, id)].state == MediaJobState::Cancelled
        }),
{
    let p = position(v.records, id);
    let c = cancel_spec(v, id).0;
    lemma_update_wf(v, p, RecordView { cancelled: true, ..v.records[p] });
    lemma_position(c.records, id, p);
    let b = begin_spec(c, id).0;
    assert(b.records == c.records.update(p, RecordView { state: MediaJobState::Cancelled, ..c.records[p] }));
    lemma_update_wf(c, p, RecordView { state: MediaJobState::Cancelled, ..c.records[p] });
    lemma_position(b.records, id, p);
}

/// A job that ends without being cancelled or failing is completed at full
/// progress; one asked to stop ends as cancelled, whatever its work did.
pub proof fn lemma_finish_outcome(v: LedgerView, id: u128, outcome: Result<(), MediaJobFailureKind>)
    requires
        ledger_wf(v),
        position(v.records, id) >= 0,
    ensures
        ({
            let r = v.records[position(v.records, id)];
            let (w, state) = finish_spec(v, id, outcome);
            &&& r.cancelled ==> state == Some(MediaJobState::Cancelled)
            &&& !r.cancelled && outcome is Ok ==> state == Some(MediaJobState::Completed)
                && w.records[position(w.records, id)].progress_permille == 1000
            &&& !r.cancelled && outcome is Err ==> state == Some(MediaJobState::Failed)
            &&& active_position(w.active, r.key) < 0
        }),
{
    let p = position(v.records, id);
    let r = v.records[p];
    let (w, state) = finish_spec(v, id, outcome);
    let (st, failure) = final_state_of(r.cancelled, outcome);
    let nr = RecordView {
        state: st,
        failure,
        progress_permille: if st == MediaJobState::Completed {
            1000
        } else {
            r.progress_permille
        },
        ..r
    };
    lemma_update_wf(v, p, nr);
    lemma_position(w.records, id, p);
    lemma_without_key(v.active, r.key);
    if active_position(w.active, r.key) >= 0 {
        let q = active_position(w.active, r.key);
        assert(w.active[q].0 == r.key);
    }
}

/// Releasing a finished job removes it and frees its reserved bytes; a job
/// still queued or running cannot be released.
pub proof fn lemma_release_frees_reservation(v: LedgerView, id: u128)
    requires
        ledger_wf(v),
        position(v.records, id) >= 0,
    ensures
        ({
            let r = v.records[position(v.records, id)];
            let (w, released) = release_spec(v, id);
            &&& released == is_terminal(r.state)
            &&& released ==> w.reserved_bytes == v.reserved_bytes - r.reserved_bytes && position(
                w.records,
                id,
            ) < 0
            &&& !released ==> w == v
        }),
{
    let p = position(v.records, id);
    let (w, released) = release_spec(v, id);
    lemma_total_bounds(v.records, p);
    if released {
        if position(w.records, id) >= 0 {
            let q = position(w.records, id);
            let q0 = if q < p { q } else { q + 1 };
            assert(w.records[q] == v.records[q0]);
            if q0 < p {
                assert(v.records[q0].id != v.records[p].id);
            } else {
                assert(v.records[p].id != v.records[q0].id);
            }
        }
    }
}

/// A running job's reported progress stays below completion.
pub proof fn lemma_progress_below_completion(v: LedgerView, id: u128, permille: u16)
    requires
        ledger_wf(v),
        position(v.records, id) >= 0,
        v.records[position(v.records, id)].state == MediaJobState::Running,
    ensures
        ({
            let w = progress_spec(v, id, permille);
            w.records[position(w.records, id)].progress_permille <= 999
        }),
{
    let p = position(v.records, id);
    let w = progress_spec(v, id, permille);
    lemma_update_wf(
        v,
        p,
        RecordView {
            progress_permille: if permille < 999 {
                permille
            } else {
                999
            },
            ..v.records[p]
        },
    );
    lemma_position(w.records, id, p);
}

/// How `Path::components` reads a name on this platform: how many
/// components it has, and whether the first is a normal one (not `.`, `..`,
/// a root or a prefix).  A function of the name alone.
pub uninterp spec fn component_shape(name: Seq<char>) -> (usize, bool);

/// A name that is exactly one normal path component.
pub open spec fn single_normal_component(name: Seq<char>) -> bool {
    component_shape(name).0 == 1 && component_shape(name).1
}

/// `Path::components` of `name`: the count, and whether the first is
/// `Component::Normal`.
#[verifier::external_body]
fn path_component_shape(name: &str) -> (r: (usize, bool))
    ensures
        r == component_shape(name@),
{
    let path = std::path::Path::new(name);
    (
        path.components().count(),
        matches!(path.components().next(), Some(std::path::Component::Normal(_))),
    )
}

impl MediaJobLedger {
    /// Whether output `name` of job `id` may be opened: the name must be one
    /// plain file name, and the job must have completed.
    pub fn check_output_request(&self, id: MediaJobId, name: &str) -> (r: Result<
        (),
        MediaJobOutputError,
    >)
        requires
            self.wf(),
        ensures
            !single_normal_component(name@) ==> r == Err::<(), MediaJobOutputError>(
                MediaJobOutputError::InvalidName,
            ),
            single_normal_component(name@) ==> r == output_status_of(self@, id.0),
    {
        let (count, first_normal) = path_component_shape(name);
        if count != 1 || !first_normal {
            return Err(MediaJobOutputError::InvalidName);
        }
        self.output_status(id)
    }
}

impl MediaJobLedger {
    /// The bytes reserved for job `id`, if the ledger holds it.
    pub fn reserved_bytes_of(&self, id: MediaJobId) -> (r: Option<u64>)
        requires
            self.wf(),
        ensures
            r == (if position(self@.records, id.0) >= 0 {
                Some(self@.records[position(self@.records, id.0)].reserved_bytes)
            } else {
                None
            }),
    {
        match self.find(id) {
            Some(i) => Some(self.records[i].reserved_bytes),
            None => None,
        }
    }
}

} // verus!
