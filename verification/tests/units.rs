use trackfetch::deliver::classify_helper_exit;
use trackfetch::deliver::helper_args;
use trackfetch::deliver::output_path;
use trackfetch::deliver::DeliveryError;
use trackfetch::engine::fetch_payload;
use trackfetch::engine::strip_container_header;
use trackfetch::engine::FetchError;
use trackfetch::engine::AUDIO_CONTAINER_HEADER_LEN;
use trackfetch::meta::FileFormat;
use trackfetch::meta::FileId;
use trackfetch::meta::Representation;
use trackfetch::meta::Track;
use trackfetch::plan::TrackInfo;
use trackfetch::resolve::resolve_start;
use trackfetch::resolve::resolve_step;
use trackfetch::resolve::Resolution;
use trackfetch::resolve::ResolutionError;
use trackfetch::select::preferred_formats;
use trackfetch::select::select_format;
use trackfetch::select::SelectionError;
use trackfetch::TrackId;

fn rep(format: FileFormat, raw: Vec<u8>) -> Representation {
    Representation { format, file: FileId { raw } }
}

#[test]
fn selection_prefers_the_highest_tier_in_any_order() {
    let orders: Vec<Vec<Representation>> = vec![
        vec![
            rep(FileFormat::OggVorbis320, vec![3]),
            rep(FileFormat::OggVorbis160, vec![2]),
            rep(FileFormat::OggVorbis96, vec![1]),
        ],
        vec![
            rep(FileFormat::OggVorbis96, vec![1]),
            rep(FileFormat::OggVorbis160, vec![2]),
            rep(FileFormat::OggVorbis320, vec![3]),
        ],
        vec![
            rep(FileFormat::Mp3_320, vec![9]),
            rep(FileFormat::OggVorbis320, vec![3]),
        ],
    ];
    for files in orders {
        assert_eq!(select_format(&files).unwrap().raw, vec![3]);
    }
}

#[test]
fn selection_falls_through_the_preference_order() {
    let files = vec![
        rep(FileFormat::OggVorbis96, vec![1]),
        rep(FileFormat::OggVorbis160, vec![2]),
    ];
    assert_eq!(select_format(&files).unwrap().raw, vec![2]);

    let only_low = vec![rep(FileFormat::OggVorbis96, vec![1])];
    assert_eq!(select_format(&only_low).unwrap().raw, vec![1]);
}

#[test]
fn selection_fails_without_a_preferred_tier() {
    let files = vec![rep(FileFormat::Mp3_320, vec![9]), rep(FileFormat::Aac160, vec![8])];
    assert!(matches!(select_format(&files), Err(SelectionError::NoCompatibleFormat)));
    assert!(matches!(select_format(&vec![]), Err(SelectionError::NoCompatibleFormat)));
}

#[test]
fn preference_order_is_highest_first() {
    assert_eq!(
        preferred_formats(),
        vec![FileFormat::OggVorbis320, FileFormat::OggVorbis160, FileFormat::OggVorbis96]
    );
}

#[test]
fn header_strip_keeps_the_payload() {
    let mut buffer = vec![0u8; AUDIO_CONTAINER_HEADER_LEN];
    buffer.extend_from_slice(b"OggS payload");
    assert_eq!(strip_container_header(buffer), b"OggS payload");
}

#[test]
fn fetch_fails_on_streams_shorter_than_the_header() {
    let key = [0u8; 16];
    let short = vec![0u8; AUDIO_CONTAINER_HEADER_LEN - 1];
    assert!(matches!(fetch_payload(&key, &short), Err(FetchError::ShortContainer)));
}

#[test]
fn fetch_decrypts_before_stripping() {
    // 200 zero bytes decrypt to the AES-CTR keystream; the payload is
    // the part after the header, and it is not the zero bytes the
    // stream held, so decryption really ran.
    let key = [0u8; 16];
    let encrypted = vec![0u8; 200];
    let payload = fetch_payload(&key, &encrypted).unwrap();
    assert_eq!(payload.len(), 200 - AUDIO_CONTAINER_HEADER_LEN);
    assert_ne!(payload, vec![0u8; 200 - AUDIO_CONTAINER_HEADER_LEN]);
}

#[test]
fn fetch_of_exactly_one_header_yields_an_empty_payload() {
    let key = [7u8; 16];
    let encrypted = vec![1u8; AUDIO_CONTAINER_HEADER_LEN];
    assert_eq!(fetch_payload(&key, &encrypted).unwrap(), Vec::<u8>::new());
}

fn sample_item() -> TrackInfo {
    let id = TrackId { id: 33536566819u128 };
    TrackInfo {
        track: Track {
            id,
            name: "Song".to_string(),
            artists: vec![TrackId { id: 21 }],
            album: TrackId { id: 31 },
            available: true,
            alternatives: vec![],
            files: vec![],
        },
        song_id: id,
        artists: vec!["Artist".to_string(), "Guest".to_string()],
        album: "Album".to_string(),
    }
}

#[test]
fn helper_arguments_are_identifier_title_album_artists() {
    let args = helper_args(&sample_item());
    assert_eq!(
        args,
        vec!["0000000000000000ABC123", "Song", "Album", "Artist", "Guest"]
    );
}

#[test]
fn output_paths_live_under_the_output_directory() {
    assert_eq!(output_path("a.ogg"), "output/a.ogg");
}

#[test]
fn helper_exit_zero_is_success_and_anything_else_fails() {
    assert!(classify_helper_exit(Some(0)).is_ok());
    assert!(matches!(classify_helper_exit(Some(1)), Err(DeliveryError::HelperFailed)));
    assert!(matches!(classify_helper_exit(Some(-9)), Err(DeliveryError::HelperFailed)));
    assert!(matches!(classify_helper_exit(None), Err(DeliveryError::HelperFailed)));
}

#[test]
fn resolution_machine_settles_on_catalog_failure() {
    let state = resolve_start(TrackId { id: 5 });
    assert_eq!(state.pending_query(), Some(TrackId { id: 5 }));
    let settled = resolve_step(state, None);
    assert_eq!(settled.pending_query(), None);
    match settled {
        Resolution::Settled { result } => {
            assert!(matches!(result, Err(ResolutionError::CatalogUnavailable)));
        }
        Resolution::Pending { .. } => panic!("a failed lookup must settle the call"),
    }
}

#[test]
fn resolution_machine_probes_alternatives_in_order() {
    let id = TrackId { id: 5 };
    let a1 = TrackId { id: 6 };
    let a2 = TrackId { id: 7 };
    let unavailable = |tid: TrackId, alts: Vec<TrackId>| Track {
        id: tid,
        name: "t".to_string(),
        artists: vec![],
        album: TrackId { id: 0 },
        available: false,
        alternatives: alts,
        files: vec![],
    };
    let state = resolve_start(id);
    let state = resolve_step(state, Some(unavailable(id, vec![a1, a2])));
    assert_eq!(state.pending_query(), Some(a1));
    let state = resolve_step(state, Some(unavailable(a1, vec![])));
    assert_eq!(state.pending_query(), Some(a2));
    let state = resolve_step(state, Some(unavailable(a2, vec![])));
    match state {
        Resolution::Settled { result } => {
            assert!(matches!(result, Err(ResolutionError::NoAvailableAlternative)));
        }
        Resolution::Pending { .. } => panic!("exhausted alternatives must settle the call"),
    }
}
