//! The media catalog model: items of an approved library, their probed
//! metadata and the user's track choices, and the scan that turns the
//! entries of an approved directory into a sorted catalog.
use vstd::multiset::Multiset;
use vstd::prelude::*;

use crate::probe::TrackMapping;
use crate::text::{str_eq, text_less, text_less_exec};
use crate::token::{uuid_v5, uuid_v5_text};

verus! {

/// One playable item of the approved library.
#[derive(Debug, Clone, PartialEq, Eq)]
pub struct MediaItem {
    pub id: String,
    pub title: String,
    pub extension: String,
    pub size_bytes: u64,
    pub metadata: Option<MediaMetadata>,
    pub probe_status: ProbeStatus,
    pub selected_audio_track_id: Option<String>,
    pub subtitle_mode: SubtitleMode,
    pub selected_subtitle_track_id: Option<String>,
}

/// Whether the media tool could describe an item.
#[derive(Debug, Clone, Copy, PartialEq, Eq, Structural)]
pub enum ProbeStatus {
    Available,
    NotProbed,
    Unavailable,
}

impl Default for ProbeStatus {
    fn default() -> (r: Self)
        ensures
            r == ProbeStatus::NotProbed,
    {
        ProbeStatus::NotProbed
    }
}

/// What probing learned about the streams of an item.
#[derive(Debug, Clone, PartialEq, Eq)]
pub struct MediaMetadata {
    pub container: String,
    pub duration_millis: Option<u64>,
    pub video: Option<VideoTrack>,
    pub audio_tracks: Vec<AudioTrack>,
    pub subtitle_tracks: Vec<SubtitleTrack>,
}

#[derive(Debug, Clone, PartialEq, Eq)]
pub struct VideoTrack {
    pub id: String,
    pub codec: String,
    pub width: Option<u32>,
    pub height: Option<u32>,
}

#[derive(Debug, Clone, PartialEq, Eq)]
pub struct AudioTrack {
    pub id: String,
    pub codec: String,
    pub channels: Option<u16>,
    pub language: Option<String>,
    pub title: Option<String>,
    pub is_default: bool,
}

#[derive(Debug, Clone, PartialEq, Eq)]
pub struct SubtitleTrack {
    pub id: String,
    pub codec: String,
    pub language: Option<String>,
    pub title: Option<String>,
    pub is_default: bool,
    pub is_forced: bool,
    pub kind: SubtitleKind,
}

/// How a subtitle stream is drawn.
#[derive(Debug, Clone, Copy, PartialEq, Eq, Structural)]
pub enum SubtitleKind {
    Text,
    Bitmap,
    Unknown,
}

/// The user's subtitle choice for an item.
#[derive(Debug, Clone, Copy, PartialEq, Eq, Structural)]
pub enum SubtitleMode {
    Automatic,
    Off,
    Track,
}

impl Default for SubtitleMode {
    fn default() -> (r: Self)
        ensures
            r == SubtitleMode::Automatic,
    {
        SubtitleMode::Automatic
    }
}

/// The public view of a scanned library: names and sizes, never paths.
#[derive(Debug, Clone, PartialEq, Eq)]
pub struct LibraryScan {
    pub library_name: String,
    pub items: Vec<MediaItem>,
    pub skipped_entries: usize,
}

/// Why an approved directory could not be scanned.
#[derive(Debug, Clone, Copy, PartialEq, Eq, Structural)]
pub enum LibraryScanError {
    MissingDirectory,
    NotDirectory,
    InaccessibleDirectory,
}

/// The message shown for `e`.
pub open spec fn scan_error_text(e: LibraryScanError) -> &'static str {
    match e {
        LibraryScanError::MissingDirectory => "the approved library does not exist",
        LibraryScanError::NotDirectory => "the approved library is not a directory",
        LibraryScanError::InaccessibleDirectory => "the approved library could not be accessed",
    }
}

impl LibraryScanError {
    /// The message shown for this error.
    pub fn message(&self) -> (r: &'static str)
        ensures
            r == scan_error_text(*self),
    {
        match self {
            LibraryScanError::MissingDirectory => "the approved library does not exist",
            LibraryScanError::NotDirectory => "the approved library is not a directory",
            LibraryScanError::InaccessibleDirectory => "the approved library could not be accessed",
        }
    }
}

} // verus!

verus! {

broadcast use vstd::string::group_string_axioms;

// ---------------------------------------------------------------------------
// Scanning an approved directory
// ---------------------------------------------------------------------------

#[verifier::external_type_specification]
#[verifier::external_body]
pub struct ExPathBuf(std::path::PathBuf);

/// The URL namespace of version-5 UUIDs (`6ba7b811-9dad-11d1-80b4-00c04fd430c8`).
pub const NAMESPACE_URL: u128 = 0x6ba7b811_9dad_11d1_80b4_00c04fd430c8;

/// The file extensions of playable videos, in lowercase.
pub open spec fn video_extensions() -> Seq<Seq<char>> {
    seq![
        seq!['m', '4', 'v'],
        seq!['m', 'k', 'v'],
        seq!['m', 'o', 'v'],
        seq!['m', 'p', '4'],
        seq!['w', 'e', 'b', 'm'],
    ]
}

/// A regular file met while walking an approved directory.
pub struct ScannedFile {
    pub path: std::path::PathBuf,
    /// The path as text, invalid sequences replaced.
    pub path_text: String,
    /// The extension, when there is one and it is valid text.
    pub extension: Option<String>,
    /// The file name without its extension, when it is valid text.
    pub stem: Option<String>,
    /// The size, when the file's metadata could be read.
    pub size_bytes: Option<u64>,
}

/// An entry met while walking an approved directory.
pub enum ScanEntry {
    /// The walk could not read the entry.
    Unreadable,
    /// A directory, a link or another entry that is not a regular file.
    NotFile,
    File(ScannedFile),
}

/// An item of a scanned library with where it lives and how its tracks map
/// to source streams.
pub struct ScannedMedia {
    pub item: MediaItem,
    pub path: std::path::PathBuf,
    pub track_mappings: Vec<TrackMapping>,
}

/// A scanned library.
pub struct ScannedLibrary {
    pub library_name: String,
    pub root_path: std::path::PathBuf,
    pub items: Vec<ScannedMedia>,
    pub skipped_entries: usize,
}

/// What `str::to_lowercase` gives for a text (a function of the text alone).
pub uninterp spec fn unicode_lowercase(s: Seq<char>) -> Seq<char>;

/// `str::to_lowercase`: the Unicode lowercase of `s`.
#[verifier::external_body]
fn to_lowercase(s: &str) -> (r: String)
    ensures
        r@ == unicode_lowercase(s@),
{
    s.to_lowercase()
}

/// The lowercase extension, when it names a playable video.
pub open spec fn supported_extension_of(extension: Option<Seq<char>>) -> Option<Seq<char>> {
    match extension {
        Some(e) => if video_extensions().contains(crate::text::ascii_lower_seq(e)) {
            Some(crate::text::ascii_lower_seq(e))
        } else {
            None
        },
        None => None,
    }
}

pub open spec fn untitled() -> Seq<char> {
    seq!['U', 'n', 't', 'i', 't', 'l', 'e', 'd', ' ', 'v', 'i', 'd', 'e', 'o']
}

/// The title of an item: its file stem, or `Untitled video`.
pub open spec fn title_of(stem: Option<Seq<char>>) -> Seq<char> {
    match stem {
        Some(s) => if s.len() > 0 {
            s
        } else {
            untitled()
        },
        None => untitled(),
    }
}

/// The opaque identifier of an item: the version-5 UUID of its path text in
/// the URL namespace.
pub open spec fn media_id_of(path_text: Seq<char>) -> Seq<char> {
    uuid_v5_text(NAMESPACE_URL, vstd::utf8::encode_utf8(path_text))
}

/// What the catalog shows of an item.
pub ghost struct ItemView {
    pub id: Seq<char>,
    pub title: Seq<char>,
    pub extension: Seq<char>,
    pub size_bytes: u64,
    /// Not probed, no metadata and no track choices yet.
    pub fresh: bool,
}

/// What a scan keeps of an item: what the catalog shows, where it lives,
/// and whether it has no track mappings yet.
pub ghost struct ScanView {
    pub item: ItemView,
    pub path: std::path::PathBuf,
    pub unmapped: bool,
}

pub open spec fn opt_view(o: Option<String>) -> Option<Seq<char>> {
    match o {
        Some(s) => Some(s@),
        None => None,
    }
}

/// The item an entry becomes, if any.
pub open spec fn entry_item(e: ScanEntry) -> Option<ScanView> {
    match e {
        ScanEntry::File(f) => match supported_extension_of(opt_view(f.extension)) {
            Some(ext) => match f.size_bytes {
                Some(size) => Some(
                    ScanView {
                        item: ItemView {
                            id: media_id_of(f.path_text@),
                            title: title_of(opt_view(f.stem)),
                            extension: ext,
                            size_bytes: size,
                            fresh: true,
                        },
                        path: f.path,
                        unmapped: true,
                    },
                ),
                None => None,
            },
            None => None,
        },
        _ => None,
    }
}

/// Whether an entry is counted as skipped: unreadable, or a video whose
/// metadata could not be read.
pub open spec fn entry_skipped(e: ScanEntry) -> bool {
    match e {
        ScanEntry::Unreadable => true,
        ScanEntry::File(f) => supported_extension_of(opt_view(f.extension)) is Some
            && f.size_bytes is None,
        ScanEntry::NotFile => false,
    }
}

/// The items of `entries`, in walk order.
pub open spec fn scanned_items(entries: Seq<ScanEntry>) -> Seq<ScanView>
    decreases entries.len(),
{
    if entries.len() == 0 {
        Seq::empty()
    } else {
        match entry_item(entries[0]) {
            Some(v) => seq![v] + scanned_items(entries.drop_first()),
            None => scanned_items(entries.drop_first()),
        }
    }
}

/// How many of `entries` are skipped.
pub open spec fn skipped_count(entries: Seq<ScanEntry>) -> nat
    decreases entries.len(),
{
    if entries.len() == 0 {
        0
    } else {
        (if entry_skipped(entries[0]) {
            1nat
        } else {
            0nat
        }) + skipped_count(entries.drop_first())
    }
}

pub open spec fn item_view(i: MediaItem) -> ItemView {
    ItemView {
        id: i.id@,
        title: i.title@,
        extension: i.extension@,
        size_bytes: i.size_bytes,
        fresh: i.metadata is None && i.probe_status == ProbeStatus::NotProbed
            && i.selected_audio_track_id is None && i.subtitle_mode == SubtitleMode::Automatic
            && i.selected_subtitle_track_id is None,
    }
}

pub open spec fn media_view(m: ScannedMedia) -> ScanView {
    ScanView { item: item_view(m.item), path: m.path, unmapped: m.track_mappings@.len() == 0 }
}

pub open spec fn media_views(items: Seq<ScannedMedia>) -> Seq<ScanView> {
    items.map_values(|m: ScannedMedia| media_view(m))
}

pub open spec fn item_views(items: Seq<ScannedMedia>) -> Seq<ItemView> {
    items.map_values(|m: ScannedMedia| item_view(m.item))
}

pub open spec fn shown(views: Seq<ScanView>) -> Seq<ItemView> {
    views.map_values(|v: ScanView| v.item)
}

/// The order of the catalog: by lowercase title, then by identifier.
pub open spec fn key_less(a: (Seq<char>, Seq<char>), b: (Seq<char>, Seq<char>)) -> bool {
    text_less(a.0, b.0) || (a.0 == b.0 && text_less(a.1, b.1))
}

pub open spec fn sort_key(v: ItemView) -> (Seq<char>, Seq<char>) {
    (unicode_lowercase(v.title), v.id)
}

/// `a` may stand before `b` in the catalog.
pub open spec fn key_le(a: ItemView, b: ItemView) -> bool {
    !key_less(sort_key(b), sort_key(a))
}

/// The items stand in catalog order.
pub open spec fn catalog_sorted(views: Seq<ItemView>) -> bool {
    forall|i: int, j: int| 0 <= i < j < views.len() ==> key_le(#[trigger] views[i], #[trigger] views[j])
}

proof fn lemma_key_order(a: (Seq<char>, Seq<char>), b: (Seq<char>, Seq<char>), c: (Seq<char>, Seq<char>))
    ensures
        key_less(a, b) ==> !key_less(b, a),
        a != b ==> key_less(a, b) || key_less(b, a),
        key_less(a, b) && key_less(b, c) ==> key_less(a, c),
{
    crate::text::lemma_text_less_asymmetric(a.0, b.0);
    crate::text::lemma_text_less_asymmetric(b.0, a.0);
    crate::text::lemma_text_less_asymmetric(a.1, b.1);
    crate::text::lemma_text_less_asymmetric(b.1, a.1);
    crate::text::lemma_text_less_asymmetric(a.0, a.0);
    crate::text::lemma_text_less_asymmetric(b.0, b.0);
    if a.0 != b.0 {
        crate::text::lemma_text_less_total(a.0, b.0);
    }
    if a.1 != b.1 {
        crate::text::lemma_text_less_total(a.1, b.1);
    }
    if text_less(a.0, b.0) && text_less(b.0, c.0) {
        crate::text::lemma_text_less_transitive(a.0, b.0, c.0);
    }
    if text_less(a.1, b.1) && text_less(b.1, c.1) {
        crate::text::lemma_text_less_transitive(a.1, b.1, c.1);
    }
    if a.0 == b.0 && a.1 == b.1 {
        assert(a == b);
    }
}

/// The catalog order is a total preorder: `key_le` is transitive and total.
proof fn lemma_key_le(a: ItemView, b: ItemView, c: ItemView)
    ensures
        key_le(a, b) && key_le(b, c) ==> key_le(a, c),
        key_le(a, b) || key_le(b, a),
{
    let (x, y, z) = (sort_key(a), sort_key(b), sort_key(c));
    lemma_key_order(x, y, z);
    lemma_key_order(y, x, z);
    lemma_key_order(x, z, y);
    lemma_key_order(z, x, y);
    lemma_key_order(y, z, x);
    lemma_key_order(z, y, x);
    lemma_key_order(x, x, x);
}

/// The lowercase extension of a playable video.
pub fn supported_extension(extension: Option<&str>) -> (r: Option<String>)
    ensures
        opt_view(r) == supported_extension_of(
            match extension {
                Some(e) => Some(e@),
                None => None,
            },
        ),
{
    let e = match extension {
        Some(e) => e,
        None => return None,
    };
    let lower = crate::lan::ascii_lowercase(e);
    proof {
        reveal_strlit("m4v");
        reveal_strlit("mkv");
        reveal_strlit("mov");
        reveal_strlit("mp4");
        reveal_strlit("webm");
        let x = video_extensions();
        assert(x[0] == "m4v"@ && x[1] == "mkv"@ && x[2] == "mov"@ && x[3] == "mp4"@ && x[4]
            == "webm"@);
    }
    let l = lower.as_str();
    if str_eq(l, "m4v") || str_eq(l, "mkv") || str_eq(l, "mov") || str_eq(l, "mp4") || str_eq(
        l,
        "webm",
    ) {
        Some(lower)
    } else {
        proof {
            let x = video_extensions();
            if x.contains(lower@) {
                let k = choose|k: int| 0 <= k < x.len() && x[k] == lower@;
            }
        }
        None
    }
}

/// The name shown for a library: its directory name, or `Media library`.
pub fn library_name_of(name: Option<&str>) -> (r: String)
    ensures
        r@ == (match name {
            Some(n) => if n@.len() > 0 {
                n@
            } else {
                seq!['M', 'e', 'd', 'i', 'a', ' ', 'l', 'i', 'b', 'r', 'a', 'r', 'y']
            },
            None => seq!['M', 'e', 'd', 'i', 'a', ' ', 'l', 'i', 'b', 'r', 'a', 'r', 'y'],
        }),
{
    proof {
        reveal_strlit("Media library");
    }
    match name {
        Some(n) => if n.unicode_len() > 0 {
            n.to_owned()
        } else {
            "Media library".to_owned()
        },
        None => "Media library".to_owned(),
    }
}

/// The item a scanned file becomes, if it is a playable video whose size
/// is known.
fn media_of(file: ScannedFile) -> (r: Result<ScannedMedia, bool>)
    ensures
        match entry_item(ScanEntry::File(file)) {
            Some(v) => r matches Ok(m) && media_view(m) == v,
            None => r == Err::<ScannedMedia, bool>(entry_skipped(ScanEntry::File(file))),
        },
{
    let ghost f = file;
    let extension = match supported_extension(match &file.extension {
        Some(e) => Some(e.as_str()),
        None => None,
    }) {
        Some(e) => e,
        None => return Err(false),
    };
    let size_bytes = match file.size_bytes {
        Some(size) => size,
        None => return Err(true),
    };
    proof {
        reveal_strlit("Untitled video");
    }
    let title = match file.stem {
        Some(stem) => if stem.as_str().unicode_len() > 0 {
            stem
        } else {
            "Untitled video".to_owned()
        },
        None => "Untitled video".to_owned(),
    };
    let id = uuid_v5(NAMESPACE_URL, file.path_text.as_str().as_bytes());
    let m = ScannedMedia {
        item: MediaItem {
            id,
            title,
            extension,
            size_bytes,
            metadata: None,
            probe_status: ProbeStatus::NotProbed,
            selected_audio_track_id: None,
            subtitle_mode: SubtitleMode::Automatic,
            selected_subtitle_track_id: None,
        },
        path: file.path,
        track_mappings: Vec::new(),
    };
    assert(m.item.title@ == title_of(opt_view(f.stem)));
    assert(m.track_mappings@.len() == 0);
    assert(m.item.extension@ == supported_extension_of(opt_view(f.extension))->0);
    assert(m.item.id@ == media_id_of(f.path_text@));
    assert(media_view(m) == entry_item(ScanEntry::File(f))->0);
    Ok(m)
}

/// Places `m`, whose lowercase title is `lower`, among `items` so that
/// they stay in catalog order.
fn insert_sorted(items: &mut Vec<ScannedMedia>, keys: &mut Vec<String>, m: ScannedMedia, lower: String)
    requires
        lower@ == unicode_lowercase(m.item.title@),
        old(keys)@.len() == old(items)@.len(),
        forall|k: int|
            0 <= k < old(keys)@.len() ==> (#[trigger] old(keys)@[k])@ == unicode_lowercase(
                old(items)@[k].item.title@,
            ),
        catalog_sorted(item_views(old(items)@)),
    ensures
        final(keys)@.len() == final(items)@.len(),
        forall|k: int|
            0 <= k < final(keys)@.len() ==> (#[trigger] final(keys)@[k])@ == unicode_lowercase(
                final(items)@[k].item.title@,
            ),
        catalog_sorted(item_views(final(items)@)),
        media_views(final(items)@).to_multiset() == media_views(old(items)@).to_multiset().insert(
            media_view(m),
        ),
        item_views(final(items)@).to_multiset() == item_views(old(items)@).to_multiset().insert(
            item_view(m.item),
        ),
{
    broadcast use vstd::seq_lib::to_multiset_insert;

    let ghost v = item_view(m.item);
    let ghost views = item_views(items@);
    let mut pos: usize = 0;
    while pos < items.len()
        invariant
            pos <= items.len(),
            keys@.len() == items@.len(),
            forall|k: int|
                0 <= k < keys@.len() ==> (#[trigger] keys@[k])@ == unicode_lowercase(
                    items@[k].item.title@,
                ),
            lower@ == unicode_lowercase(m.item.title@),
            v == item_view(m.item),
            views == item_views(items@),
            catalog_sorted(views),
            forall|k: int| 0 <= k < pos ==> key_le(#[trigger] views[k], v),
        ensures
            pos <= items.len(),
            pos < items.len() ==> key_less(sort_key(v), sort_key(views[pos as int])),
        decreases items.len() - pos,
    {
        let before = text_less_exec(lower.as_str(), keys[pos].as_str()) || (str_eq(
            lower.as_str(),
            keys[pos].as_str(),
        ) && text_less_exec(m.item.id.as_str(), items[pos].item.id.as_str()));
        assert(before == key_less(sort_key(v), sort_key(views[pos as int])));
        if before {
            break;
        }
        pos += 1;
    }
    proof {
        if pos < items.len() {
            lemma_key_order(sort_key(v), sort_key(views[pos as int]), sort_key(v));
            assert forall|k: int| pos <= k < views.len() implies key_le(v, #[trigger] views[k]) by {
                lemma_key_le(v, views[pos as int], views[k]);
                if k > pos {
                    assert(key_le(views[pos as int], views[k]));
                }
            }
        }
    }
    let ghost old_items = items@;
    let ghost mv = media_view(m);
    items.insert(pos, m);
    keys.insert(pos, lower);
    proof {
        assert(item_views(items@) =~= views.insert(pos as int, v));
        assert(media_views(items@) =~= media_views(old_items).insert(pos as int, mv));
        let nv = item_views(items@);
        assert forall|i: int, j: int| 0 <= i < j < nv.len() implies key_le(
            #[trigger] nv[i],
            #[trigger] nv[j],
        ) by {
            if j < pos {
            } else if j == pos {
            } else if i < pos {
                lemma_key_le(nv[i], v, nv[j]);
            } else if i == pos {
            } else {
            }
        }
        assert forall|k: int| 0 <= k < keys@.len() implies (#[trigger] keys@[k])@
            == unicode_lowercase(items@[k].item.title@) by {
            if k < pos {
            } else if k == pos {
            } else {
                assert(keys@[k] == old(keys)@[k - 1]);
                assert(items@[k] == old_items[k - 1]);
            }
        }
    }
}

/// What an approved directory holds, as read by the application.
pub struct DirectoryListing {
    pub exists: bool,
    pub is_directory: bool,
    /// The canonical path of the directory and its final name (when it is
    /// valid text), when the path could be resolved.
    pub canonical: Option<(std::path::PathBuf, Option<String>)>,
    /// The entries met while walking the canonical directory, links not
    /// followed.
    pub entries: Vec<ScanEntry>,
}

/// What a listing scans to: a missing path, a path that is not a directory
/// or one that cannot be resolved is refused; otherwise the library name,
/// the canonical root, and the walked entries.
pub open spec fn listing_outcome(listing: DirectoryListing) -> Result<
    (Seq<char>, std::path::PathBuf, Seq<ScanEntry>),
    LibraryScanError,
> {
    if !listing.exists {
        Err(LibraryScanError::MissingDirectory)
    } else if !listing.is_directory {
        Err(LibraryScanError::NotDirectory)
    } else {
        match listing.canonical {
            None => Err(LibraryScanError::InaccessibleDirectory),
            Some((root, name)) => Ok(
                (
                    match opt_view(name) {
                        Some(n) => if n.len() > 0 {
                            n
                        } else {
                            library_fallback()
                        },
                        None => library_fallback(),
                    },
                    root,
                    listing.entries@,
                ),
            ),
        }
    }
}

pub open spec fn library_fallback() -> Seq<char> {
    seq!['M', 'e', 'd', 'i', 'a', ' ', 'l', 'i', 'b', 'r', 'a', 'r', 'y']
}

/// Scans an approved directory into its catalog records: every regular
/// file with a video extension (`m4v`, `mkv`, `mov`, `mp4`, `webm`, in any
/// case) becomes a fresh item titled by its file stem and identified by the
/// UUID of its path, and the items are sorted by lowercase title, then by
/// identifier.  Unreadable entries and videos whose size cannot be read are
/// counted as skipped.
pub fn scan_approved_directory_records(listing: DirectoryListing) -> (r: Result<
    ScannedLibrary,
    LibraryScanError,
>)
    ensures
        match listing_outcome(listing) {
            Err(e) => r == Err::<ScannedLibrary, LibraryScanError>(e),
            Ok((name, root, entries)) => r matches Ok(lib) && lib.library_name@ == name
                && lib.root_path == root && lib.skipped_entries == skipped_count(entries)
                && media_views(lib.items@).to_multiset() == scanned_items(entries).to_multiset()
                && item_views(lib.items@).to_multiset() == shown(
                scanned_items(entries),
            ).to_multiset() && catalog_sorted(item_views(lib.items@)),
        },
{
    if !listing.exists {
        return Err(LibraryScanError::MissingDirectory);
    }
    if !listing.is_directory {
        return Err(LibraryScanError::NotDirectory);
    }
    let (root_path, name) = match listing.canonical {
        Some(c) => c,
        None => return Err(LibraryScanError::InaccessibleDirectory),
    };
    let library_name = library_name_of(
        match &name {
            Some(n) => Some(n.as_str()),
            None => None,
        },
    );
    let ghost all = listing.entries@;
    let mut entries = listing.entries;
    let mut items: Vec<ScannedMedia> = Vec::new();
    let mut keys: Vec<String> = Vec::new();
    let mut skipped: usize = 0;
    proof {
        assert(all.skip(all.len() as int) =~= Seq::<ScanEntry>::empty());
        broadcast use vstd::seq_lib::group_to_multiset_ensures;
        broadcast use vstd::multiset::group_multiset_axioms;
        assert(media_views(items@) =~= Seq::<ScanView>::empty());
        assert(item_views(items@) =~= Seq::<ItemView>::empty());
        assert(media_views(items@).to_multiset() =~= Multiset::empty());
        assert(item_views(items@).to_multiset() =~= Multiset::empty());
        assert(scanned_items(Seq::<ScanEntry>::empty()) =~= Seq::<ScanView>::empty());
        assert(shown(Seq::<ScanView>::empty()) =~= Seq::<ItemView>::empty());
    }
    assert(all.len() == entries.len());
    while entries.len() > 0
        invariant
            entries@ == all.take(entries.len() as int),
            entries.len() <= all.len(),
            keys@.len() == items@.len(),
            forall|k: int|
                0 <= k < keys@.len() ==> (#[trigger] keys@[k])@ == unicode_lowercase(
                    items@[k].item.title@,
                ),
            catalog_sorted(item_views(items@)),
            media_views(items@).to_multiset() == scanned_items(
                all.skip(entries.len() as int),
            ).to_multiset(),
            item_views(items@).to_multiset() == shown(
                scanned_items(all.skip(entries.len() as int)),
            ).to_multiset(),
            skipped == skipped_count(all.skip(entries.len() as int)),
            skipped <= all.len() - entries.len(),
            all.len() <= usize::MAX,
        decreases entries.len(),
    {
        let ghost n = entries.len() - 1;
        let entry = entries.pop().unwrap();
        proof {
            assert(all.skip(n as int).drop_first() =~= all.skip(n + 1));
            assert(all.skip(n as int)[0] == entry);
            assert(entries@ =~= all.take(n as int));
        }
        match entry {
            ScanEntry::Unreadable => {
                skipped += 1;
            },
            ScanEntry::NotFile => {},
            ScanEntry::File(file) => {
                match media_of(file) {
                    Ok(m) => {
                        let lower = to_lowercase(m.item.title.as_str());
                        let ghost v = media_view(m);
                        insert_sorted(&mut items, &mut keys, m, lower);
                        proof {
                            let rest = scanned_items(all.skip(n + 1));
                            assert(seq![v] + rest =~= rest.insert(0, v));
                            assert(shown(seq![v] + rest) =~= shown(rest).insert(0, v.item));
                            vstd::seq_lib::to_multiset_insert(rest, 0, v);
                            vstd::seq_lib::to_multiset_insert(shown(rest), 0, v.item);
                        }
                    },
                    Err(skip) => {
                        if skip {
                            skipped += 1;
                        }
                    },
                }
            },
        }
    }
    proof {
        assert(all.skip(0) =~= all);
    }
    Ok(ScannedLibrary { library_name, root_path, items, skipped_entries: skipped })
}

impl ScannedLibrary {
    /// What may be shown of the library: its name, items and skipped
    /// count, never paths.
    pub fn public_view(self) -> (r: LibraryScan)
        ensures
            r.library_name == self.library_name,
            r.skipped_entries == self.skipped_entries,
            r.items@.map_values(|i: MediaItem| item_view(i)) == item_views(self.items@),
    {
        let ghost all = self.items@;
        let mut source = self.items;
        let mut items: Vec<MediaItem> = Vec::new();
        proof {
            assert(all.skip(all.len() as int) =~= Seq::<ScannedMedia>::empty());
            assert(source@ =~= all.take(all.len() as int));
            assert(items@.map_values(|i: MediaItem| item_view(i)) =~= item_views(
                all.skip(all.len() as int),
            ).reverse());
        }
        while source.len() > 0
            invariant
                source@ == all.take(source.len() as int),
                source.len() <= all.len(),
                items@.map_values(|i: MediaItem| item_view(i)) == item_views(
                    all.skip(source.len() as int),
                ).reverse(),
            decreases source.len(),
        {
            let ghost n = source.len() - 1;
            let m = source.pop().unwrap();
            proof {
                assert(source@ =~= all.take(n as int));
                assert(m == all[n as int]);
            }
            items.push(m.item);
            proof {
                let x = item_view(all[n as int].item);
                let t = item_views(all.skip(n + 1));
                assert(item_views(all.skip(n as int)) =~= seq![x] + t);
                assert((seq![x] + t).reverse() =~= t.reverse().push(x));
                assert(items@.map_values(|i: MediaItem| item_view(i)) =~= t.reverse().push(x));
            }
        }
        let mut ordered: Vec<MediaItem> = Vec::new();
        let ghost rev = items@;
        proof {
            assert(all.skip(0) =~= all);
            assert(rev.len() == all.len()) by {
                assert(rev.map_values(|i: MediaItem| item_view(i)).len() == item_views(all).reverse().len());
            }
            assert(ordered@.map_values(|i: MediaItem| item_view(i)) =~= item_views(all).take(0));
        }
        while items.len() > 0
            invariant
                items@ == rev.take(items.len() as int),
                items.len() <= rev.len(),
                rev.len() == all.len(),
                rev.map_values(|i: MediaItem| item_view(i)) == item_views(all).reverse(),
                ordered@.map_values(|i: MediaItem| item_view(i)) == item_views(all).take(
                    rev.len() - items.len(),
                ),
            decreases items.len(),
        {
            let ghost n = items.len() - 1;
            let i = items.pop().unwrap();
            proof {
                assert(items@ =~= rev.take(n as int));
                assert(i == rev[n as int]);
                let w = rev.map_values(|i: MediaItem| item_view(i));
                assert(item_view(i) == w[n as int]);
                assert(w[n as int] == item_views(all).reverse()[n as int]);
                assert(item_views(all).reverse()[n as int] == item_views(all)[rev.len() - 1 - n]);
            }
            let ghost before = ordered@;
            ordered.push(i);
            proof {
                assert(ordered@.map_values(|i: MediaItem| item_view(i)) =~= before.map_values(
                    |i: MediaItem| item_view(i),
                ).push(item_view(rev[n as int])));
                assert(ordered@.map_values(|i: MediaItem| item_view(i)) =~= item_views(all).take(
                    rev.len() - n,
                ));
            }
        }
        proof {
            assert(all.skip(0) =~= all);
            assert(item_views(all).take(rev.len() as int) =~= item_views(all));
        }
        LibraryScan {
            library_name: self.library_name,
            items: ordered,
            skipped_entries: self.skipped_entries,
        }
    }
}

/// Scans an approved directory into what may be shown of it (see
/// `scan_approved_directory_records`).
pub fn scan_approved_directory(listing: DirectoryListing) -> (r: Result<
    LibraryScan,
    LibraryScanError,
>)
    ensures
        match listing_outcome(listing) {
            Err(e) => r == Err::<LibraryScan, LibraryScanError>(e),
            Ok((name, root, entries)) => r matches Ok(scan) && scan.library_name@ == name
                && scan.skipped_entries == skipped_count(entries) && scan.items@.map_values(
                |i: MediaItem| item_view(i),
            ).to_multiset() == shown(scanned_items(entries)).to_multiset() && catalog_sorted(
                scan.items@.map_values(|i: MediaItem| item_view(i)),
            ),
        },
{
    match scan_approved_directory_records(listing) {
        Ok(records) => Ok(records.public_view()),
        Err(e) => Err(e),
    }
}

} // verus!
