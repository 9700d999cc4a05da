//! What the library database hands back, as plain values, and the names
//! under which values are stored in it.
use vstd::prelude::*;

use crate::media::ProbeStatus;
use crate::text::str_eq;

verus! {

#[derive(Debug, Clone, Copy, PartialEq, Eq, Structural)]
pub enum DatabaseError {
    Unavailable,
    InvalidText,
}

/// The message shown for `e`.
pub open spec fn database_error_text(e: DatabaseError) -> &'static str {
    match e {
        DatabaseError::Unavailable => "the LocalStream database is unavailable",
        DatabaseError::InvalidText => "the LocalStream database contains invalid text data",
    }
}

impl DatabaseError {
    /// The message shown for this error.
    pub fn message(&self) -> (r: &'static str)
        ensures
            r == database_error_text(*self),
    {
        match self {
            DatabaseError::Unavailable => "the LocalStream database is unavailable",
            DatabaseError::InvalidText => "the LocalStream database contains invalid text data",
        }
    }
}

/// A stored trusted peer.
#[derive(Debug, Clone)]
pub struct TrustedPeerRecord {
    pub id: String,
    pub display_name: String,
    pub capability: String,
    pub created_at: i64,
    pub revoked: bool,
}

/// A stored browser session with the peer it belongs to.
#[derive(Debug, Clone)]
pub struct BrowserSessionRecord {
    pub peer_id: String,
    pub display_name: String,
    pub capability: String,
    pub expires_at: i64,
    pub session_revoked: bool,
    pub peer_revoked: bool,
}

/// The stored name of a probe status.
pub open spec fn probe_status_text(status: ProbeStatus) -> Seq<char> {
    match status {
        ProbeStatus::Available => seq!['a', 'v', 'a', 'i', 'l', 'a', 'b', 'l', 'e'],
        ProbeStatus::NotProbed => seq!['n', 'o', 't', '_', 'p', 'r', 'o', 'b', 'e', 'd'],
        ProbeStatus::Unavailable => seq![
            'u',
            'n',
            'a',
            'v',
            'a',
            'i',
            'l',
            'a',
            'b',
            'l',
            'e',
        ],
    }
}

/// The probe status stored under `value`, if any.
pub open spec fn probe_status_named(value: Seq<char>) -> Option<ProbeStatus> {
    if value == probe_status_text(ProbeStatus::Available) {
        Some(ProbeStatus::Available)
    } else if value == probe_status_text(ProbeStatus::NotProbed) {
        Some(ProbeStatus::NotProbed)
    } else if value == probe_status_text(ProbeStatus::Unavailable) {
        Some(ProbeStatus::Unavailable)
    } else {
        None
    }
}

/// The name under which `status` is stored.
pub fn probe_status_name(status: ProbeStatus) -> (name: &'static str)
    ensures
        name@ == probe_status_text(status),
{
    proof {
        reveal_strlit("available");
        reveal_strlit("not_probed");
        reveal_strlit("unavailable");
    }
    match status {
        ProbeStatus::Available => "available",
        ProbeStatus::NotProbed => "not_probed",
        ProbeStatus::Unavailable => "unavailable",
    }
}

/// The probe status stored under `value`.
pub fn parse_probe_status(value: &str) -> (r: Option<ProbeStatus>)
    ensures
        r == probe_status_named(value@),
{
    proof {
        reveal_strlit("available");
        reveal_strlit("not_probed");
        reveal_strlit("unavailable");
        assert("available"@ == probe_status_text(ProbeStatus::Available));
        assert("not_probed"@ == probe_status_text(ProbeStatus::NotProbed));
        assert("unavailable"@ == probe_status_text(ProbeStatus::Unavailable));
    }
    if str_eq(value, "available") {
        Some(ProbeStatus::Available)
    } else if str_eq(value, "not_probed") {
        Some(ProbeStatus::NotProbed)
    } else if str_eq(value, "unavailable") {
        Some(ProbeStatus::Unavailable)
    } else {
        None
    }
}

/// Every probe status is read back as itself from the name it is stored
/// under.
pub proof fn lemma_probe_status_round_trip(status: ProbeStatus)
    ensures
        probe_status_named(probe_status_text(status)) == Some(status),
{
    let a = probe_status_text(ProbeStatus::Available);
    let n = probe_status_text(ProbeStatus::NotProbed);
    let u = probe_status_text(ProbeStatus::Unavailable);
    assert(a != n) by {
        assert(a.len() != n.len());
    }
    assert(a != u) by {
        assert(a[0] != u[0]);
    }
    assert(n != u) by {
        assert(n.len() != u.len());
    }
}

/// The schema version the database is brought to.
pub const SCHEMA_VERSION: i64 = 5;

/// One change of the database schema.
#[derive(Debug, Clone, Copy, PartialEq, Eq, Structural)]
pub enum MigrationStep {
    /// Creates every table of the current schema (version 5).
    CreateCurrentSchema,
    /// Adds trusted peers and browser sessions (to version 3).
    AddPeersAndSessions,
    /// Adds browser sessions (to version 3).
    AddSessions,
    /// Adds probed metadata and the track table (to version 4).
    AddTrackMetadata,
    /// Adds audio preferences (to version 5).
    AddAudioPreferences,
}

/// The version a step leaves the schema at.
pub open spec fn version_after(step: MigrationStep) -> i64 {
    match step {
        MigrationStep::CreateCurrentSchema => 5,
        MigrationStep::AddPeersAndSessions => 3,
        MigrationStep::AddSessions => 3,
        MigrationStep::AddTrackMetadata => 4,
        MigrationStep::AddAudioPreferences => 5,
    }
}

/// The steps that bring a schema of `version` to the current one; a
/// version this library does not know (a newer one among them) is refused
/// rather than downgraded.
pub open spec fn migration_plan_of(version: i64) -> Option<Seq<MigrationStep>> {
    if version == 0 {
        Some(seq![MigrationStep::CreateCurrentSchema])
    } else if version == 1 {
        Some(
            seq![
                MigrationStep::AddPeersAndSessions,
                MigrationStep::AddTrackMetadata,
                MigrationStep::AddAudioPreferences,
            ],
        )
    } else if version == 2 {
        Some(
            seq![
                MigrationStep::AddSessions,
                MigrationStep::AddTrackMetadata,
                MigrationStep::AddAudioPreferences,
            ],
        )
    } else if version == 3 {
        Some(seq![MigrationStep::AddTrackMetadata, MigrationStep::AddAudioPreferences])
    } else if version == 4 {
        Some(seq![MigrationStep::AddAudioPreferences])
    } else if version == SCHEMA_VERSION {
        Some(Seq::empty())
    } else {
        None
    }
}

/// The migration steps for a stored schema `version` (see
/// `migration_plan_of`).
pub fn migration_plan(version: i64) -> (r: Result<Vec<MigrationStep>, DatabaseError>)
    ensures
        match migration_plan_of(version) {
            Some(steps) => (r matches Ok(v) && v@ == steps),
            None => r == Err::<Vec<MigrationStep>, DatabaseError>(DatabaseError::Unavailable),
        },
{
    let steps = if version == 0 {
        vec![MigrationStep::CreateCurrentSchema]
    } else if version == 1 {
        vec![
            MigrationStep::AddPeersAndSessions,
            MigrationStep::AddTrackMetadata,
            MigrationStep::AddAudioPreferences,
        ]
    } else if version == 2 {
        vec![
            MigrationStep::AddSessions,
            MigrationStep::AddTrackMetadata,
            MigrationStep::AddAudioPreferences,
        ]
    } else if version == 3 {
        vec![MigrationStep::AddTrackMetadata, MigrationStep::AddAudioPreferences]
    } else if version == 4 {
        vec![MigrationStep::AddAudioPreferences]
    } else if version == SCHEMA_VERSION {
        Vec::new()
    } else {
        return Err(DatabaseError::Unavailable);
    };
    assert(steps@ =~= migration_plan_of(version)->0);
    Ok(steps)
}

/// Every known schema version is brought to the current one: its last
/// step (if any) leaves the schema at version 5, and each step moves the
/// version forward.
pub proof fn lemma_migration_reaches_current(version: i64)
    requires
        migration_plan_of(version) is Some,
    ensures
        ({
            let steps = migration_plan_of(version)->0;
            &&& steps.len() == 0 <==> version == SCHEMA_VERSION
            &&& steps.len() > 0 ==> version_after(steps.last()) == SCHEMA_VERSION
            &&& forall|i: int|
                0 <= i < steps.len() ==> version < #[trigger] version_after(steps[i])
            &&& forall|i: int, j: int|
                0 <= i < j < steps.len() ==> version_after(#[trigger] steps[i]) < version_after(
                    #[trigger] steps[j],
                )
        }),
{
}

/// The identifier under which a library is stored: the version-5 UUID of
/// its root path's text in the URL namespace.
pub fn library_id(root_text: &str) -> (id: String)
    ensures
        id@ == crate::media::media_id_of(root_text@),
{
    crate::token::uuid_v5(crate::media::NAMESPACE_URL, root_text.as_bytes())
}

} // verus!
