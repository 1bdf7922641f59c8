use trackfetch::ids::from_base62;
use trackfetch::ids::to_base62;
use trackfetch::link::extract_song_id;
use trackfetch::TrackId;

#[test]
fn decode_simple_token() {
    // ABC123 in base62: A=36, B=37, C=38, 1=1, 2=2, 3=3.
    let id = from_base62("ABC123").unwrap();
    assert_eq!(id.id, 33536566819u128);
}

#[test]
fn decode_empty_token_is_zero() {
    let id = from_base62("").unwrap();
    assert_eq!(id.id, 0);
}

#[test]
fn decode_rejects_non_alphanumeric() {
    assert!(from_base62("AB C").is_err());
    assert!(from_base62("abc-def").is_err());
    assert!(from_base62("abc_def").is_err());
}

#[test]
fn decode_rejects_values_over_128_bits() {
    // Twenty-two `z` digits denote 62^22 - 1, which exceeds u128::MAX.
    assert!(from_base62("zzzzzzzzzzzzzzzzzzzzzz").is_err());
}

#[test]
fn encode_zero_is_all_zero_digits() {
    let s = to_base62(TrackId { id: 0 });
    assert_eq!(s, "0000000000000000000000");
}

#[test]
fn encode_pads_to_22_digits() {
    let s = to_base62(TrackId { id: 33536566819u128 });
    assert_eq!(s, "0000000000000000ABC123");
}

#[test]
fn encode_decode_round_trip() {
    for id in [0u128, 1, 61, 62, 33536566819, u128::MAX - 1, u128::MAX] {
        let s = to_base62(TrackId { id });
        assert_eq!(s.len(), 22);
        assert_eq!(from_base62(&s).unwrap().id, id);
    }
}

#[test]
fn extract_uri_form() {
    let id = extract_song_id("spotify:track:ABC123").unwrap();
    assert_eq!(id.id, 33536566819u128);
}

#[test]
fn extract_link_form() {
    let id = extract_song_id("https://open.spotify.com/track/ABC123?si=xyz-9").unwrap();
    assert_eq!(id.id, 33536566819u128);
}

#[test]
fn extract_uri_form_wins_over_link_form() {
    // Both forms occur; the URI pattern is tried first over the whole
    // string, so its token wins even though it stands later.
    let id = extract_song_id("open.spotify.com/track/zz and spotify:track:ABC123").unwrap();
    assert_eq!(id.id, 33536566819u128);
}

#[test]
fn extract_skips_prefix_without_token() {
    // The first occurrence of the literal is not followed by an
    // alphanumeric character; the match is the later occurrence.
    let id = extract_song_id("spotify:track:?spotify:track:ABC123").unwrap();
    assert_eq!(id.id, 33536566819u128);
}

#[test]
fn extract_fails_on_unrecognized_lines() {
    assert!(extract_song_id("").is_err());
    assert!(extract_song_id("spotify:album:ABC123").is_err());
    assert!(extract_song_id("spotify:track:").is_err());
    assert!(extract_song_id("spotify:track:!!x y").is_err());
    assert!(extract_song_id("open.spotify.com/playlist/ABC123").is_err());
}

#[test]
fn extract_agrees_with_reference_patterns() {
    let uri = regex::Regex::new(r"spotify:track:([[:alnum:]]+)").unwrap();
    let url = regex::Regex::new(r"open\.spotify\.com/track/([[:alnum:]]+)").unwrap();
    let links = [
        "spotify:track:ABC123",
        "  spotify:track:7ouMYWpwJ422jRcDASZB7P extra",
        "https://open.spotify.com/track/4uLU6hMCjMI75M1A2tKUQC?si=abc",
        "open.spotify.com/track/zz and spotify:track:ABC123",
        "spotify:track:?spotify:track:ABC123",
        "xspotify:track:abc",
        "spotify:track:",
        "spotify:track:!!x",
        "nothing here",
        "spotify:track:zzzzzzzzzzzzzzzzzzzzzz",
    ];
    for link in links {
        let token = uri
            .captures(link)
            .or_else(|| url.captures(link))
            .map(|c| c.get(1).unwrap().as_str().to_string());
        let expected = match token {
            None => None,
            Some(t) => from_base62(&t).ok(),
        };
        let got = extract_song_id(link).ok();
        assert_eq!(got, expected, "disagreement on {:?}", link);
    }
}

#[test]
fn extract_does_not_fall_through_after_a_failed_decode() {
    // The URI form matches first; its token fails to decode, and the
    // later link form is not consulted.
    let line = "spotify:track:zzzzzzzzzzzzzzzzzzzzzz open.spotify.com/track/ABC123";
    assert!(extract_song_id(line).is_err());
}

#[test]
fn extract_token_stops_at_the_first_non_alphanumeric() {
    let id = extract_song_id("spotify:track:ABC123?si=zz").unwrap();
    assert_eq!(id.id, 33536566819u128);
}
