use std::path::PathBuf;

use localstream_core::media::{
    library_name_of, scan_approved_directory, scan_approved_directory_records,
    supported_extension, DirectoryListing, LibraryScanError, ScanEntry, ScannedFile,
};

fn file(path: &str, stem: &str, extension: &str, size: Option<u64>) -> ScanEntry {
    ScanEntry::File(ScannedFile {
        path: PathBuf::from(path),
        path_text: path.to_owned(),
        extension: Some(extension.to_owned()),
        stem: Some(stem.to_owned()),
        size_bytes: size,
    })
}

fn listing(entries: Vec<ScanEntry>) -> DirectoryListing {
    DirectoryListing {
        exists: true,
        is_directory: true,
        canonical: Some((PathBuf::from("/library/Videos"), Some("Videos".to_owned()))),
        entries,
    }
}

#[test]
fn discovers_supported_videos_recursively_without_paths() {
    let scan = scan_approved_directory(listing(vec![
        ScanEntry::NotFile,
        file("/library/Videos/Movie.MP4", "Movie", "MP4", Some(5)),
        ScanEntry::NotFile,
        file("/library/Videos/Season 1/Episode.mkv", "Episode", "mkv", Some(7)),
        file("/library/Videos/notes.txt", "notes", "txt", Some(9)),
    ]))
    .expect("scan should succeed");

    assert_eq!(scan.library_name, "Videos");
    assert_eq!(scan.items.len(), 2);
    assert_eq!(scan.items[0].title, "Episode");
    assert_eq!(scan.items[0].extension, "mkv");
    assert_eq!(scan.items[1].title, "Movie");
    assert_eq!(scan.items[1].extension, "mp4");
    assert_eq!(scan.items[1].size_bytes, 5);
    assert!(scan.items.iter().all(|item| !item.id.contains('\\')));
    assert!(scan.items.iter().all(|item| !item.id.contains('/')));
    assert_eq!(scan.skipped_entries, 0);
}

#[test]
fn produces_stable_opaque_identifiers() {
    let first = scan_approved_directory(listing(vec![file("/library/Videos/Movie.mp4", "Movie", "mp4", Some(5))]))
        .expect("first scan should succeed");
    let second = scan_approved_directory(listing(vec![file("/library/Videos/Movie.mp4", "Movie", "mp4", Some(5))]))
        .expect("second scan should succeed");
    assert_eq!(first.items[0].id, second.items[0].id);
    assert_ne!(first.items[0].id, "Movie.mp4");
    assert_eq!(first.items[0].id.len(), 36);
}

#[test]
fn rejects_a_file_as_an_approved_library() {
    let error = scan_approved_directory(DirectoryListing {
        exists: true,
        is_directory: false,
        canonical: None,
        entries: Vec::new(),
    })
    .expect_err("file must be rejected");
    assert!(matches!(error, LibraryScanError::NotDirectory));
}

#[test]
fn refuses_missing_and_unresolvable_directories() {
    let missing = DirectoryListing { exists: false, is_directory: false, canonical: None, entries: Vec::new() };
    assert_eq!(scan_approved_directory(missing).err(), Some(LibraryScanError::MissingDirectory));
    let unresolved = DirectoryListing { exists: true, is_directory: true, canonical: None, entries: Vec::new() };
    assert_eq!(scan_approved_directory(unresolved).err(), Some(LibraryScanError::InaccessibleDirectory));
}

#[test]
fn counts_skipped_entries_and_sorts_case_insensitively() {
    let mut untitled = file("/library/Videos/.mkv", "", "mkv", Some(1));
    if let ScanEntry::File(f) = &mut untitled {
        f.stem = None;
    }
    let records = scan_approved_directory_records(listing(vec![
        ScanEntry::Unreadable,
        file("/library/Videos/b.webm", "b", "webm", Some(3)),
        file("/library/Videos/A.mov", "A", "mov", Some(2)),
        file("/library/Videos/unknown.mkv", "unknown", "mkv", None),
        file("/library/Videos/readme.md", "readme", "md", None),
        untitled,
    ]))
    .expect("scan should succeed");
    assert_eq!(records.skipped_entries, 2);
    assert_eq!(records.root_path, PathBuf::from("/library/Videos"));
    let titles: Vec<&str> = records.items.iter().map(|m| m.item.title.as_str()).collect();
    assert_eq!(titles, ["A", "b", "Untitled video"]);
    assert_eq!(records.items[0].path, PathBuf::from("/library/Videos/A.mov"));
    assert!(records.items.iter().all(|m| m.track_mappings.is_empty()));
    let scan = records.public_view();
    assert_eq!(scan.items.len(), 3);
    assert_eq!(scan.items[2].title, "Untitled video");
}

#[test]
fn names_libraries_and_extensions() {
    assert_eq!(library_name_of(Some("Videos")), "Videos");
    assert_eq!(library_name_of(Some("")), "Media library");
    assert_eq!(library_name_of(None), "Media library");
    assert_eq!(supported_extension(Some("WebM")), Some("webm".to_owned()));
    assert_eq!(supported_extension(Some("avi")), None);
    assert_eq!(supported_extension(None), None);
}
