//! Extraction of a track identifier from a free-form link line.
//!
//! Two textual forms are recognized, first-match-wins: a URI-style
//! reference `spotify:track:<token>` and a web-link form
//! `open.spotify.com/track/<token>`. A form matches at the leftmost
//! position where its literal prefix is followed by at least one
//! alphanumeric character; the token is the maximal alphanumeric run
//! after the prefix. The token is then decoded by the base62 codec;
//! if neither form matches, or the token fails to decode, extraction
//! fails.

use vstd::prelude::*;

use crate::ids;
use crate::ids::SpotifyIdError;
use crate::ids::TrackId;

verus! {

/// Literal prefix of the URI-style reference.
pub open spec fn uri_prefix() -> Seq<char> {
    "spotify:track:"@
}

/// Literal prefix of the web-link form.
pub open spec fn url_prefix() -> Seq<char> {
    "open.spotify.com/track/"@
}

/// The pattern with prefix `lit` matches `s` at position `i`: the literal
/// occurs there and is followed by at least one alphanumeric character.
pub open spec fn match_at(s: Seq<char>, lit: Seq<char>, i: int) -> bool {
    &&& 0 <= i
    &&& i + lit.len() < s.len()
    &&& s.subrange(i, i + lit.len()) == lit
    &&& ids::is_digit_char(s[i + lit.len()])
}

/// The pattern with prefix `lit` matches somewhere in `s`.
pub open spec fn pattern_matches(s: Seq<char>, lit: Seq<char>) -> bool {
    exists|i: int| match_at(s, lit, i)
}

/// Position of the leftmost match at or after `i`, if any.
pub open spec fn first_match_from(s: Seq<char>, lit: Seq<char>, i: int) -> Option<int>
    decreases s.len() - i,
{
    if i < 0 || i >= s.len() {
        None
    } else if match_at(s, lit, i) {
        Some(i)
    } else {
        first_match_from(s, lit, i + 1)
    }
}

/// Position of the leftmost match of the pattern in `s`, if any.
pub open spec fn first_match(s: Seq<char>, lit: Seq<char>) -> Option<int> {
    first_match_from(s, lit, 0)
}

/// End of the alphanumeric run that starts at `j`: the first position at
/// or after `j` holding no alphanumeric character, or the end of `s`.
pub open spec fn token_end(s: Seq<char>, j: int) -> int
    decreases s.len() - j,
{
    if j < 0 {
        0
    } else if j >= s.len() {
        s.len() as int
    } else if !ids::is_digit_char(s[j]) {
        j
    } else {
        token_end(s, j + 1)
    }
}

/// The token captured by the pattern with prefix `lit`: the maximal
/// alphanumeric run after the leftmost occurrence of the prefix.
pub open spec fn captured_token(s: Seq<char>, lit: Seq<char>) -> Seq<char> {
    match first_match(s, lit) {
        Some(i) => s.subrange(i + lit.len(), token_end(s, i + lit.len())),
        None => Seq::empty(),
    }
}

/// What extraction returns on `s`: the decoded value of the captured
/// token of the first form that matches, and nothing when no form
/// matches or the token fails to decode.
pub open spec fn extract_spec(s: Seq<char>) -> Option<int> {
    if pattern_matches(s, uri_prefix()) {
        ids::base62_decode(captured_token(s, uri_prefix()))
    } else if pattern_matches(s, url_prefix()) {
        ids::base62_decode(captured_token(s, url_prefix()))
    } else {
        None
    }
}

/// The leftmost-match search finds a match exactly when one exists, and
/// never skips an earlier one.
pub proof fn lemma_first_match_from(s: Seq<char>, lit: Seq<char>, i: int)
    requires
        0 <= i,
    ensures
        first_match_from(s, lit, i) is None ==> forall|j: int| i <= j ==> !match_at(s, lit, j),
        first_match_from(s, lit, i) matches Some(k) ==> i <= k && match_at(s, lit, k) && (forall|
            j: int,
        | i <= j < k ==> !match_at(s, lit, j)),
    decreases s.len() - i,
{
    if i >= s.len() {
        assert forall|j: int| i <= j implies !match_at(s, lit, j) by {
            assert(j + lit.len() >= s.len());
        }
    } else if match_at(s, lit, i) {
    } else {
        lemma_first_match_from(s, lit, i + 1);
    }
}

/// A leftmost match of the pattern is a match: the pattern matches `s`
/// exactly when some position matches it.
pub proof fn lemma_first_match_exists(s: Seq<char>, lit: Seq<char>)
    ensures
        pattern_matches(s, lit) <==> first_match(s, lit) is Some,
{
    lemma_first_match_from(s, lit, 0);
    if pattern_matches(s, lit) {
        let i = choose|i: int| match_at(s, lit, i);
        assert(match_at(s, lit, i));
        if first_match_from(s, lit, 0) is None {
            assert(!match_at(s, lit, i));
        }
    }
}

/// Alphanumeric test, as the token grammar counts it.
fn is_alnum_char(c: char) -> (b: bool)
    ensures
        b == ids::is_digit_char(c),
{
    ('0' <= c && c <= '9') || ('a' <= c && c <= 'z') || ('A' <= c && c <= 'Z')
}

/// Whether the position `e` of `s` holds an alphanumeric character.
fn is_alnum_at(s: &str, e: usize, slen: usize) -> (b: bool)
    requires
        slen == s@.len(),
        e <= slen,
    ensures
        b == (e < s@.len() && ids::is_digit_char(s@[e as int])),
{
    if e < slen {
        is_alnum_char(s.get_char(e))
    } else {
        false
    }
}

/// Whether the pattern with prefix `lit` matches `s` at position `i`.
fn match_literal_at(s: &str, lit: &str, i: usize, slen: usize, llen: usize) -> (b: bool)
    requires
        slen == s@.len(),
        llen == lit@.len(),
        i <= slen,
    ensures
        b == match_at(s@, lit@, i as int),
{
    if slen - i <= llen {
        assert(i + lit@.len() >= s@.len());
        return false;
    }
    let mut j: usize = 0;
    while j < llen
        invariant
            0 <= j <= llen,
            slen == s@.len(),
            llen == lit@.len(),
            i + llen < slen,
            forall|k: int| 0 <= k < j ==> s@[i + k] == lit@[k],
        decreases llen - j,
    {
        let cs = s.get_char(i + j);
        let cl = lit.get_char(j);
        if cs != cl {
            proof {
                if s@.subrange(i as int, i + lit@.len()) == lit@ {
                    assert(s@.subrange(i as int, i + lit@.len())[j as int] == s@[i + j]);
                }
            }
            return false;
        }
        j = j + 1;
    }
    proof {
        assert(s@.subrange(i as int, i + lit@.len()) =~= lit@);
    }
    let c = s.get_char(i + llen);
    is_alnum_char(c)
}

/// Find the leftmost match of the pattern with prefix `lit` in `s` and
/// the bounds of its captured token.
fn find_token(s: &str, lit: &str) -> (r: Option<(usize, usize)>)
    ensures
        match r {
            Some(bounds) => {
                &&& first_match(s@, lit@) == Some(bounds.0 - lit@.len())
                &&& lit@.len() <= bounds.0 <= bounds.1 <= s@.len()
                &&& bounds.1 == token_end(s@, bounds.0 as int)
            },
            None => first_match(s@, lit@) is None,
        },
{
    let slen = s.unicode_len();
    let llen = lit.unicode_len();
    let mut i: usize = 0;
    while i < slen
        invariant
            0 <= i <= slen,
            slen == s@.len(),
            llen == lit@.len(),
            first_match_from(s@, lit@, 0) == first_match_from(s@, lit@, i as int),
        decreases slen - i,
    {
        if match_literal_at(s, lit, i, slen, llen) {
            let t0 = i + llen;
            let mut e: usize = t0;
            while is_alnum_at(s, e, slen)
                invariant
                    t0 <= e <= slen,
                    slen == s@.len(),
                    token_end(s@, t0 as int) == token_end(s@, e as int),
                decreases slen - e,
            {
                e = e + 1;
            }
            return Some((t0, e));
        }
        i = i + 1;
    }
    None
}

/// Extract the track identifier from one link line, as `extract_spec`
/// says: the base62 value of the captured token of the first recognized
/// form, and an error when no form matches or the token fails to decode.
pub fn extract_song_id(link: &str) -> (r: Result<TrackId, SpotifyIdError>)
    ensures
        match r {
            Ok(t) => extract_spec(link@) == Some(t.id as int),
            Err(_) => extract_spec(link@) is None,
        },
{
    let uri = "spotify:track:";
    let url = "open.spotify.com/track/";
    proof {
        lemma_first_match_exists(link@, uri@);
        lemma_first_match_exists(link@, url@);
    }
    match find_token(link, uri) {
        Some((t0, t1)) => {
            let tok = link.substring_char(t0, t1);
            assert(tok@ == captured_token(link@, uri_prefix()));
            ids::from_base62(tok)
        },
        None => {
            match find_token(link, url) {
                Some((t0, t1)) => {
                    let tok = link.substring_char(t0, t1);
                    assert(tok@ == captured_token(link@, url_prefix()));
                    ids::from_base62(tok)
                },
                None => Err(SpotifyIdError),
            }
        },
    }
}

} // verus!
