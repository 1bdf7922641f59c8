use trackfetch::deliver::plan_delivery;
use trackfetch::deliver::DeliveryAction;
use trackfetch::deliver::SinkConfig;
use trackfetch::ids::from_base62;
use trackfetch::meta::FileFormat;
use trackfetch::meta::FileId;
use trackfetch::meta::Representation;
use trackfetch::meta::Track;
use trackfetch::plan::build_work_list;
use trackfetch::plan::output_file_name;
use trackfetch::plan::PlanError;
use trackfetch::resolve::get_album;
use trackfetch::resolve::get_artists;
use trackfetch::resolve::get_track;
use trackfetch::resolve::Catalog;
use trackfetch::resolve::ResolutionError;
use trackfetch::select::select_format;
use trackfetch::TrackId;

fn tid(n: u128) -> TrackId {
    TrackId { id: n }
}

fn track(
    id: TrackId,
    name: &str,
    artists: Vec<TrackId>,
    album: TrackId,
    available: bool,
    alternatives: Vec<TrackId>,
    files: Vec<(FileFormat, Vec<u8>)>,
) -> Track {
    Track {
        id,
        name: name.to_string(),
        artists,
        album,
        available,
        alternatives,
        files: files
            .into_iter()
            .map(|(format, raw)| Representation { format, file: FileId { raw } })
            .collect(),
    }
}

#[test]
fn resolve_available_track_unchanged() {
    let id = tid(1);
    let catalog = Catalog {
        tracks: vec![(id, track(id, "Song", vec![], tid(9), true, vec![], vec![]))],
        artists: vec![],
        albums: vec![],
    };
    let got = get_track(&catalog, id).unwrap();
    assert_eq!(got.id, id);
    assert_eq!(got.name, "Song");
    assert_eq!(got.artists, vec![]);
    assert_eq!(got.album, tid(9));
    assert!(got.available);
    assert_eq!(got.alternatives, vec![]);
    assert!(got.files.is_empty());
}

#[test]
fn resolve_picks_first_available_alternative_not_a_later_one() {
    // Direct lookup unavailable; first alternative unavailable, second
    // and third available: the second must win.
    let id = tid(1);
    let a1 = tid(11);
    let a2 = tid(12);
    let a3 = tid(13);
    let catalog = Catalog {
        tracks: vec![
            (id, track(id, "Main", vec![], tid(9), false, vec![a1, a2, a3], vec![])),
            (a1, track(a1, "AltOne", vec![], tid(9), false, vec![], vec![])),
            (a2, track(a2, "AltTwo", vec![], tid(9), true, vec![], vec![])),
            (a3, track(a3, "AltThree", vec![], tid(9), true, vec![], vec![])),
        ],
        artists: vec![],
        albums: vec![],
    };
    let got = get_track(&catalog, id).unwrap();
    assert_eq!(got.name, "AltTwo");
}

#[test]
fn resolve_fails_when_no_alternative_is_available() {
    let id = tid(1);
    let a1 = tid(11);
    let catalog = Catalog {
        tracks: vec![
            (id, track(id, "Main", vec![], tid(9), false, vec![a1], vec![])),
            (a1, track(a1, "AltOne", vec![], tid(9), false, vec![], vec![])),
        ],
        artists: vec![],
        albums: vec![],
    };
    assert!(matches!(
        get_track(&catalog, id),
        Err(ResolutionError::NoAvailableAlternative)
    ));
}

#[test]
fn resolve_missing_track_is_catalog_failure() {
    let catalog = Catalog { tracks: vec![], artists: vec![], albums: vec![] };
    assert!(matches!(
        get_track(&catalog, tid(1)),
        Err(ResolutionError::CatalogUnavailable)
    ));
}

#[test]
fn artists_resolve_in_order_and_first_failure_aborts() {
    let id = tid(1);
    let ar1 = tid(21);
    let ar2 = tid(22);
    let t = track(id, "Song", vec![ar1, ar2], tid(9), true, vec![], vec![]);
    let catalog = Catalog {
        tracks: vec![],
        artists: vec![(ar2, "Second".to_string()), (ar1, "First".to_string())],
        albums: vec![],
    };
    assert_eq!(get_artists(&catalog, &t).unwrap(), vec!["First", "Second"]);

    let missing = track(id, "Song", vec![ar1, tid(99)], tid(9), true, vec![], vec![]);
    assert_eq!(get_artists(&catalog, &missing), Err(ResolutionError::CatalogUnavailable));
}

#[test]
fn album_lookup_resolves_name() {
    let id = tid(1);
    let alb = tid(31);
    let t = track(id, "Song", vec![], alb, true, vec![], vec![]);
    let catalog = Catalog {
        tracks: vec![],
        artists: vec![],
        albums: vec![(alb, "Album".to_string())],
    };
    assert_eq!(get_album(&catalog, &t).unwrap(), "Album");
}

fn song_catalog() -> (Catalog, TrackId) {
    let id = from_base62("ABC123").unwrap();
    let artist = tid(21);
    let album = tid(31);
    let catalog = Catalog {
        tracks: vec![(
            id,
            track(
                id,
                "Song",
                vec![artist],
                album,
                true,
                vec![],
                vec![(FileFormat::OggVorbis96, vec![5, 6, 7])],
            ),
        )],
        artists: vec![(artist, "Artist".to_string())],
        albums: vec![(album, "Album".to_string())],
    };
    (catalog, id)
}

#[test]
fn end_to_end_plan_select_and_route() {
    // One link line; the catalog offers only the lowest tier. The plan
    // holds one item, selection falls back to that tier, and the file
    // sink gets the canonical sanitized path.
    let (catalog, id) = song_catalog();
    let links = vec!["spotify:track:ABC123".to_string()];
    let items = build_work_list(&catalog, &links, &vec![]).unwrap();
    assert_eq!(items.len(), 1);
    let item = &items[0];
    assert_eq!(item.song_id, id);
    assert_eq!(item.track.name, "Song");
    assert_eq!(item.artists, vec!["Artist"]);
    assert_eq!(item.album, "Album");

    let file = select_format(&item.track.files).unwrap();
    assert_eq!(file.raw, vec![5, 6, 7]);

    let action = plan_delivery(&SinkConfig::File, item);
    match action {
        DeliveryAction::WriteFile { path } => {
            assert_eq!(path, "output/Artist - Song [0000000000000000ABC123].ogg");
        }
        DeliveryAction::RunHelper { .. } => panic!("file sink must write a file"),
    }
}

#[test]
fn second_run_with_existing_file_plans_nothing() {
    // The file written by the first run makes the second plan empty.
    let (catalog, id) = song_catalog();
    let links = vec!["spotify:track:ABC123".to_string()];
    let first = build_work_list(&catalog, &links, &vec![]).unwrap();
    assert_eq!(first.len(), 1);
    let written = output_file_name(&first[0].artists, &first[0].track.name, id);
    assert_eq!(written, "Artist - Song [0000000000000000ABC123].ogg");
    let second = build_work_list(&catalog, &links, &vec![written]).unwrap();
    assert_eq!(second.len(), 0);
}

#[test]
fn duplicate_links_are_both_planned_before_any_file_exists() {
    // Existence is judged once, at plan time: two lines naming the
    // same track are both queued when the file is not there yet.
    let (catalog, _) = song_catalog();
    let links = vec![
        "spotify:track:ABC123".to_string(),
        "spotify:track:ABC123".to_string(),
    ];
    let items = build_work_list(&catalog, &links, &vec![]).unwrap();
    assert_eq!(items.len(), 2);
}

#[test]
fn malformed_link_aborts_the_whole_batch() {
    let (catalog, _) = song_catalog();
    let links = vec![
        "spotify:track:ABC123".to_string(),
        "not a link".to_string(),
    ];
    assert!(matches!(
        build_work_list(&catalog, &links, &vec![]),
        Err(PlanError::Extraction)
    ));
}

#[test]
fn unresolvable_link_aborts_the_whole_batch() {
    let (catalog, _) = song_catalog();
    let links = vec!["spotify:track:zZ9".to_string()];
    assert!(matches!(
        build_work_list(&catalog, &links, &vec![]),
        Err(PlanError::Resolution(ResolutionError::CatalogUnavailable))
    ));
}

#[test]
fn sanitizer_removes_illegal_path_characters() {
    // A slash in a name must not survive into the file name; this
    // fails if sanitization handed its input back unchanged.
    let artists = vec!["AC/DC".to_string()];
    let name = output_file_name(&artists, "Back: In *Black?", tid(0));
    assert_eq!(name, "ACDC - Back In Black [0000000000000000000000].ogg");
}

#[test]
fn sanitizer_truncates_very_long_names() {
    // The sanitizer caps a file name at 255 bytes; a name that long is
    // cut before the formula's tail.
    let artists = vec!["a".repeat(300)];
    let name = output_file_name(&artists, "t", tid(0));
    assert_eq!(name, "a".repeat(255));
}
