use localstream_core::database::{
    library_id, migration_plan, parse_probe_status, probe_status_name, DatabaseError,
    MigrationStep, SCHEMA_VERSION,
};
use localstream_core::media::ProbeStatus;

#[test]
fn migrates_a_new_database_to_the_current_version() {
    assert_eq!(migration_plan(0), Ok(vec![MigrationStep::CreateCurrentSchema]));
    assert_eq!(SCHEMA_VERSION, 5);
}

#[test]
fn rejects_a_database_from_a_newer_schema() {
    assert_eq!(migration_plan(SCHEMA_VERSION + 1), Err(DatabaseError::Unavailable));
    assert_eq!(migration_plan(-1), Err(DatabaseError::Unavailable));
}

#[test]
fn older_schemas_are_brought_forward_step_by_step() {
    assert_eq!(
        migration_plan(1),
        Ok(vec![
            MigrationStep::AddPeersAndSessions,
            MigrationStep::AddTrackMetadata,
            MigrationStep::AddAudioPreferences
        ])
    );
    assert_eq!(
        migration_plan(2),
        Ok(vec![
            MigrationStep::AddSessions,
            MigrationStep::AddTrackMetadata,
            MigrationStep::AddAudioPreferences
        ])
    );
    assert_eq!(migration_plan(4), Ok(vec![MigrationStep::AddAudioPreferences]));
    assert_eq!(migration_plan(5), Ok(Vec::new()));
}

#[test]
fn library_ids_are_stable_uuids_of_the_root() {
    let first = library_id("/library/Videos");
    assert_eq!(first, library_id("/library/Videos"));
    assert_ne!(first, library_id("/library/Other"));
    assert_eq!(first.len(), 36);
    for status in [ProbeStatus::Available, ProbeStatus::NotProbed, ProbeStatus::Unavailable] {
        assert_eq!(parse_probe_status(probe_status_name(status)), Some(status));
    }
}
