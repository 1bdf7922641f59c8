//! Track resolution with the availability-fallback chain.
//!
//! Resolution asks the catalog for a track's metadata; an available track
//! is returned unchanged, and an unavailable one is replaced by the first
//! available entry of its alternatives sequence, probed in order. The
//! catalog itself is remote, so the chain is a state machine: the caller
//! performs each lookup and feeds the answer back, and the machine holds
//! every decision. `get_track` runs the machine against a catalog
//! snapshot held in memory, which is how the policy is stated and tested.

use vstd::prelude::*;

use crate::ids::TrackId;
use crate::meta::Track;
use crate::meta::TrackView;

verus! {

/// Why a resolution call failed.
#[derive(Clone, Copy, PartialEq, Eq, Structural, Debug)]
pub enum ResolutionError {
    /// A catalog lookup itself failed; fatal, no retry.
    CatalogUnavailable,
    /// The track is unavailable and no alternative is available.
    NoAvailableAlternative,
}

/// A catalog snapshot: the metadata surface the pipeline reads, held as
/// plain association lists from identifier to entry.
pub struct Catalog {
    pub tracks: Vec<(TrackId, Track)>,
    pub artists: Vec<(TrackId, String)>,
    pub albums: Vec<(TrackId, String)>,
}

/// Mathematical view of a catalog snapshot.
#[verifier::ext_equal]
pub struct CatalogView {
    pub tracks: Seq<(TrackId, TrackView)>,
    pub artists: Seq<(TrackId, Seq<char>)>,
    pub albums: Seq<(TrackId, Seq<char>)>,
}

impl View for Catalog {
    type V = CatalogView;

    open spec fn view(&self) -> CatalogView {
        CatalogView {
            tracks: self.tracks@.map_values(|p: (TrackId, Track)| (p.0, p.1@)),
            artists: self.artists@.map_values(|p: (TrackId, String)| (p.0, p.1@)),
            albums: self.albums@.map_values(|p: (TrackId, String)| (p.0, p.1@)),
        }
    }
}

/// First entry under `id` in an association list, if any.
pub open spec fn assoc_lookup<T>(entries: Seq<(TrackId, T)>, id: TrackId) -> Option<T>
    decreases entries.len(),
{
    if entries.len() == 0 {
        None
    } else if entries[0].0 == id {
        Some(entries[0].1)
    } else {
        assoc_lookup(entries.drop_first(), id)
    }
}

/// The track metadata the catalog holds under `id`, if any.
pub open spec fn lookup_track(c: CatalogView, id: TrackId) -> Option<TrackView> {
    assoc_lookup(c.tracks, id)
}

/// The artist display name the catalog holds under `id`, if any.
pub open spec fn lookup_artist(c: CatalogView, id: TrackId) -> Option<Seq<char>> {
    assoc_lookup(c.artists, id)
}

/// The album display name the catalog holds under `id`, if any.
pub open spec fn lookup_album(c: CatalogView, id: TrackId) -> Option<Seq<char>> {
    assoc_lookup(c.albums, id)
}

/// The first available entry of an alternatives sequence, probed in
/// order; a failed lookup is fatal, and an exhausted sequence means no
/// alternative is available.
pub open spec fn first_available(c: CatalogView, alts: Seq<TrackId>) -> Result<
    TrackView,
    ResolutionError,
>
    decreases alts.len(),
{
    if alts.len() == 0 {
        Err(ResolutionError::NoAvailableAlternative)
    } else {
        match lookup_track(c, alts[0]) {
            None => Err(ResolutionError::CatalogUnavailable),
            Some(t) => if t.available {
                Ok(t)
            } else {
                first_available(c, alts.drop_first())
            },
        }
    }
}

/// What resolution returns for `id` under catalog `c`: the track itself
/// when available, else the first available alternative.
pub open spec fn resolve_spec(c: CatalogView, id: TrackId) -> Result<TrackView, ResolutionError> {
    match lookup_track(c, id) {
        None => Err(ResolutionError::CatalogUnavailable),
        Some(t) => if t.available {
            Ok(t)
        } else {
            first_available(c, t.alternatives)
        },
    }
}

/// State of one resolution call between two catalog lookups.
pub enum Resolution {
    /// A lookup of `query` is owed to the machine. Before the first
    /// answer `probing` is false and `query` is the requested track;
    /// afterwards the machine probes `alts`, and `query` is the
    /// alternative at `next - 1`.
    Pending { query: TrackId, alts: Vec<TrackId>, next: usize, probing: bool },
    /// The call is decided.
    Settled { result: Result<Track, ResolutionError> },
}

impl Resolution {
    /// The lookup the machine asks for next, if it is not yet settled.
    pub fn pending_query(&self) -> (r: Option<TrackId>)
        ensures
            match r {
                Some(q) => self matches Resolution::Pending { query, .. } && q == query,
                None => self matches Resolution::Settled { .. },
            },
    {
        match self {
            Resolution::Pending { query, .. } => Some(*query),
            Resolution::Settled { .. } => None,
        }
    }
}

/// Begin resolving `id`: the machine first asks for `id` itself.
pub fn resolve_start(id: TrackId) -> (r: Resolution)
    ensures
        r matches Resolution::Pending { query, alts, next, probing } && query == id && alts@
            =~= Seq::<TrackId>::empty() && next == 0usize && probing == false,
{
    Resolution::Pending { query: id, alts: Vec::new(), next: 0, probing: false }
}

/// Feed the machine the answer to its pending lookup: the track found,
/// or `None` for a failed lookup. An available answer settles the call;
/// an unavailable first answer starts probing its alternatives in
/// order; an unavailable probe moves to the next alternative; and an
/// exhausted alternatives sequence settles the call with failure.
pub fn resolve_step(state: Resolution, response: Option<Track>) -> (r: Resolution)
    requires
        state matches Resolution::Pending { .. },
    ensures
        (match state {
            Resolution::Settled { .. } => false,
            Resolution::Pending { query, alts, next, probing } => match response {
                None => r == (Resolution::Settled {
                    result: Err::<Track, _>(ResolutionError::CatalogUnavailable),
                }),
                Some(t) => if t.available {
                    r == (Resolution::Settled { result: Ok::<_, ResolutionError>(t) })
                } else if !probing {
                    if t.alternatives@.len() > 0 {
                        r matches Resolution::Pending {
                            query: q2,
                            alts: a2,
                            next: n2,
                            probing: p2,
                        } && q2 == t.alternatives@[0] && a2@ == t.alternatives@ && n2 == 1usize
                            && p2 == true
                    } else {
                        r == (Resolution::Settled {
                            result: Err::<Track, _>(ResolutionError::NoAvailableAlternative),
                        })
                    }
                } else {
                    if next < alts@.len() {
                        r matches Resolution::Pending {
                            query: q2,
                            alts: a2,
                            next: n2,
                            probing: p2,
                        } && q2 == alts@[next as int] && a2@ == alts@ && n2 == next + 1 && p2
                            == true
                    } else {
                        r == (Resolution::Settled {
                            result: Err::<Track, _>(ResolutionError::NoAvailableAlternative),
                        })
                    }
                },
            },
        }),
{
    match state {
        Resolution::Pending { query: _, alts, next, probing } => match response {
            None => Resolution::Settled {
                result: Err(ResolutionError::CatalogUnavailable),
            },
            Some(t) => {
                if t.available {
                    Resolution::Settled { result: Ok(t) }
                } else if !probing {
                    if t.alternatives.len() > 0 {
                        let q2 = t.alternatives[0];
                        Resolution::Pending { query: q2, alts: t.alternatives, next: 1, probing: true }
                    } else {
                        Resolution::Settled {
                            result: Err(ResolutionError::NoAvailableAlternative),
                        }
                    }
                } else {
                    if next < alts.len() {
                        let q2 = alts[next];
                        Resolution::Pending { query: q2, alts, next: next + 1, probing: true }
                    } else {
                        Resolution::Settled {
                            result: Err(ResolutionError::NoAvailableAlternative),
                        }
                    }
                }
            },
        },
        Resolution::Settled { result } => Resolution::Settled { result },
    }
}

/// Look `id` up in the snapshot, cloning the entry found.
pub fn lookup_track_exec(catalog: &Catalog, id: TrackId) -> (r: Option<Track>)
    ensures
        match r {
            Some(t) => lookup_track(catalog@, id) == Some(t@),
            None => lookup_track(catalog@, id) is None,
        },
{
    proof {
        assert(catalog@.tracks.skip(0) =~= catalog@.tracks);
    }
    let mut i: usize = 0;
    while i < catalog.tracks.len()
        invariant
            0 <= i <= catalog.tracks.len(),
            assoc_lookup(catalog@.tracks, id) == assoc_lookup(
                catalog@.tracks.skip(i as int),
                id,
            ),
        decreases catalog.tracks.len() - i,
    {
        proof {
            assert(catalog@.tracks.skip(i as int)[0] == catalog@.tracks[i as int]);
            assert(catalog@.tracks.skip(i as int).drop_first() =~= catalog@.tracks.skip(i + 1));
        }
        if catalog.tracks[i].0 == id {
            return Some(catalog.tracks[i].1.clone());
        }
        i = i + 1;
    }
    proof {
        assert(catalog@.tracks.skip(catalog.tracks@.len() as int) =~= Seq::<
            (TrackId, TrackView),
        >::empty());
    }
    None
}

/// Invariant of the resolution driver: what the machine state says about
/// the final answer for `song_id` under catalog `c`.
spec fn driver_inv(state: Resolution, c: CatalogView, song_id: TrackId) -> bool {
    match state {
        Resolution::Pending { query, alts, next, probing } => {
            if !probing {
                query == song_id
            } else {
                &&& 1 <= next <= alts@.len()
                &&& query == alts@[next - 1]
                &&& resolve_spec(c, song_id) == first_available(c, alts@.skip(next - 1))
            }
        },
        Resolution::Settled { result } => match result {
            Ok(t) => resolve_spec(c, song_id) == Ok::<TrackView, ResolutionError>(t@),
            Err(e) => resolve_spec(c, song_id) == Err::<TrackView, ResolutionError>(e),
        },
    }
}

/// Resolve `song_id` against the snapshot by driving the machine: the
/// result is exactly what `resolve_spec` says for this catalog.
pub fn get_track(catalog: &Catalog, song_id: TrackId) -> (r: Result<Track, ResolutionError>)
    ensures
        match r {
            Ok(t) => resolve_spec(catalog@, song_id) == Ok::<TrackView, ResolutionError>(t@),
            Err(e) => resolve_spec(catalog@, song_id) == Err::<TrackView, ResolutionError>(e),
        },
{
    let mut state = resolve_start(song_id);
    loop
        invariant
            driver_inv(state, catalog@, song_id),
        decreases (match state {
            Resolution::Pending { probing, .. } => if !probing {
                1int
            } else {
                0int
            },
            Resolution::Settled { .. } => 0int,
        }), (match state {
            Resolution::Pending { alts, next, probing, .. } => if !probing {
                0int
            } else {
                alts@.len() - next + 1
            },
            Resolution::Settled { .. } => 0int,
        }),
    {
        match state.pending_query() {
            None => {
                match state {
                    Resolution::Settled { result } => {
                        return result;
                    },
                    Resolution::Pending { .. } => {
                        // pending_query returned None, so the state is settled
                        vstd::pervasive::unreached()
                    },
                }
            },
            Some(q) => {
                let ghost pre = state;
                let response = lookup_track_exec(catalog, q);
                proof {
                    assert(first_available(catalog@, Seq::<TrackId>::empty()) == Err::<
                        TrackView,
                        ResolutionError,
                    >(ResolutionError::NoAvailableAlternative));
                    match &response {
                        Some(t) => {
                            assert(t.alternatives@.skip(0) =~= t.alternatives@);
                        },
                        None => {},
                    }
                    match pre {
                        Resolution::Pending { query, alts, next, probing } => {
                            if probing {
                                assert(alts@.skip(next - 1)[0] == alts@[next - 1]);
                                assert(alts@.skip(next - 1).drop_first() =~= alts@.skip(
                                    next as int,
                                ));
                                if next == alts@.len() {
                                    assert(alts@.skip(next as int) =~= Seq::<TrackId>::empty());
                                }
                            }
                        },
                        Resolution::Settled { .. } => {},
                    }
                }
                state = resolve_step(state, response);
            },
        }
    }
}

/// An available track resolves to itself.
pub proof fn lemma_resolve_available(c: CatalogView, id: TrackId)
    requires
        lookup_track(c, id) matches Some(t) && t.available,
    ensures
        resolve_spec(c, id) == Ok::<TrackView, ResolutionError>(lookup_track(c, id).unwrap()),
{
}

/// Probing picks the first available alternative: when every alternative
/// before `i` looks up as unavailable and the one at `i` is available,
/// the chain returns the one at `i`, never a later one.
pub proof fn lemma_first_available_picks(c: CatalogView, alts: Seq<TrackId>, i: int)
    requires
        0 <= i < alts.len(),
        forall|j: int| 0 <= j < i ==> (lookup_track(c, #[trigger] alts[j]) matches Some(t)
            && !t.available),
        lookup_track(c, alts[i]) matches Some(t) && t.available,
    ensures
        first_available(c, alts) == Ok::<TrackView, ResolutionError>(
            lookup_track(c, alts[i]).unwrap(),
        ),
    decreases i,
{
    if i > 0 {
        assert(lookup_track(c, alts[0]) matches Some(t) && !t.available);
        assert(alts.drop_first()[i - 1] == alts[i]);
        assert forall|j: int| 0 <= j < i - 1 implies lookup_track(
            c,
            #[trigger] alts.drop_first()[j],
        ) matches Some(t) && !t.available by {
            assert(alts.drop_first()[j] == alts[j + 1]);
        }
        lemma_first_available_picks(c, alts.drop_first(), i - 1);
    }
}

/// When every alternative looks up as unavailable, the chain fails with
/// no available alternative.
pub proof fn lemma_first_available_none(c: CatalogView, alts: Seq<TrackId>)
    requires
        forall|j: int| 0 <= j < alts.len() ==> (lookup_track(c, #[trigger] alts[j]) matches Some(
            t,
        ) && !t.available),
    ensures
        first_available(c, alts) == Err::<TrackView, ResolutionError>(
            ResolutionError::NoAvailableAlternative,
        ),
    decreases alts.len(),
{
    if alts.len() > 0 {
        assert(lookup_track(c, alts[0]) matches Some(t) && !t.available);
        assert forall|j: int| 0 <= j < alts.drop_first().len() implies lookup_track(
            c,
            #[trigger] alts.drop_first()[j],
        ) matches Some(t) && !t.available by {
            assert(alts.drop_first()[j] == alts[j + 1]);
        }
        lemma_first_available_none(c, alts.drop_first());
    }
}

/// An unavailable track resolves to the first available alternative in
/// its alternatives sequence, never a later one even if that one is
/// also available.
pub proof fn lemma_resolve_picks_first_alternative(c: CatalogView, id: TrackId, i: int)
    requires
        lookup_track(c, id) matches Some(t) && !t.available,
        0 <= i < lookup_track(c, id).unwrap().alternatives.len(),
        forall|j: int| 0 <= j < i ==> (lookup_track(
            c,
            #[trigger] lookup_track(c, id).unwrap().alternatives[j],
        ) matches Some(t) && !t.available),
        lookup_track(c, lookup_track(c, id).unwrap().alternatives[i]) matches Some(t)
            && t.available,
    ensures
        resolve_spec(c, id) == Ok::<TrackView, ResolutionError>(
            lookup_track(c, lookup_track(c, id).unwrap().alternatives[i]).unwrap(),
        ),
{
    lemma_first_available_picks(c, lookup_track(c, id).unwrap().alternatives, i);
}

/// An unavailable track with no available alternative fails to resolve.
pub proof fn lemma_resolve_no_alternative(c: CatalogView, id: TrackId)
    requires
        lookup_track(c, id) matches Some(t) && !t.available,
        forall|j: int| 0 <= j < lookup_track(c, id).unwrap().alternatives.len() ==> (lookup_track(
            c,
            #[trigger] lookup_track(c, id).unwrap().alternatives[j],
        ) matches Some(t) && !t.available),
    ensures
        resolve_spec(c, id) == Err::<TrackView, ResolutionError>(
            ResolutionError::NoAvailableAlternative,
        ),
{
    lemma_first_available_none(c, lookup_track(c, id).unwrap().alternatives);
}

/// Look every artist of the track up, in order; the first failure aborts
/// the whole call.
pub open spec fn artists_spec(c: CatalogView, ids: Seq<TrackId>) -> Result<
    Seq<Seq<char>>,
    ResolutionError,
>
    decreases ids.len(),
{
    if ids.len() == 0 {
        Ok(Seq::empty())
    } else {
        match artists_spec(c, ids.drop_last()) {
            Err(e) => Err(e),
            Ok(pre) => match lookup_artist(c, ids.last()) {
                None => Err(ResolutionError::CatalogUnavailable),
                Some(n) => Ok(pre.push(n)),
            },
        }
    }
}

/// View of a vector of display names.
pub open spec fn strings_view(v: Seq<String>) -> Seq<Seq<char>> {
    v.map_values(|s: String| s@)
}

/// Look `id` up in an association list of display names.
fn assoc_lookup_exec(entries: &Vec<(TrackId, String)>, id: TrackId) -> (r: Option<String>)
    ensures
        match r {
            Some(s) => assoc_lookup(
                entries@.map_values(|p: (TrackId, String)| (p.0, p.1@)),
                id,
            ) == Some(s@),
            None => assoc_lookup(entries@.map_values(|p: (TrackId, String)| (p.0, p.1@)), id)
                is None,
        },
{
    let ghost view = entries@.map_values(|p: (TrackId, String)| (p.0, p.1@));
    proof {
        assert(view.skip(0) =~= view);
    }
    let mut i: usize = 0;
    while i < entries.len()
        invariant
            0 <= i <= entries.len(),
            view == entries@.map_values(|p: (TrackId, String)| (p.0, p.1@)),
            assoc_lookup(view, id) == assoc_lookup(view.skip(i as int), id),
        decreases entries.len() - i,
    {
        proof {
            assert(view.skip(i as int)[0] == view[i as int]);
            assert(view.skip(i as int).drop_first() =~= view.skip(i + 1));
        }
        if entries[i].0 == id {
            return Some(entries[i].1.clone());
        }
        i = i + 1;
    }
    proof {
        assert(view.skip(view.len() as int) =~= Seq::<(TrackId, Seq<char>)>::empty());
    }
    None
}

/// Resolve the display names of the track's artists, in order; the
/// first failed lookup aborts the whole call.
pub fn get_artists(catalog: &Catalog, track: &Track) -> (r: Result<Vec<String>, ResolutionError>)
    ensures
        match r {
            Ok(names) => artists_spec(catalog@, track@.artists) == Ok::<_, ResolutionError>(
                strings_view(names@),
            ),
            Err(e) => artists_spec(catalog@, track@.artists) == Err::<Seq<Seq<char>>, _>(e),
        },
{
    let mut names: Vec<String> = Vec::new();
    proof {
        assert(track@.artists.take(0) =~= Seq::<TrackId>::empty());
        assert(strings_view(names@) =~= Seq::<Seq<char>>::empty());
    }
    let mut i: usize = 0;
    while i < track.artists.len()
        invariant
            0 <= i <= track.artists.len(),
            artists_spec(catalog@, track@.artists.take(i as int)) == Ok::<_, ResolutionError>(
                strings_view(names@),
            ),
        decreases track.artists.len() - i,
    {
        proof {
            assert(track@.artists.take(i + 1).drop_last() =~= track@.artists.take(i as int));
            assert(track@.artists.take(i + 1).last() == track@.artists[i as int]);
        }
        match assoc_lookup_exec(&catalog.artists, track.artists[i]) {
            None => {
                proof {
                    lemma_artists_spec_err_extends(catalog@, track@.artists, i + 1);
                }
                return Err(ResolutionError::CatalogUnavailable);
            },
            Some(name) => {
                let ghost pre_names = names@;
                names.push(name);
                proof {
                    assert(strings_view(names@) =~= strings_view(pre_names).push(
                        names@.last()@,
                    ));
                }
            },
        }
        i = i + 1;
    }
    proof {
        assert(track@.artists.take(track.artists@.len() as int) =~= track@.artists);
    }
    Ok(names)
}

/// Once a prefix of the artist sequence fails to resolve, the whole
/// sequence fails the same way.
proof fn lemma_artists_spec_err_extends(c: CatalogView, ids: Seq<TrackId>, j: int)
    requires
        0 <= j <= ids.len(),
        artists_spec(c, ids.take(j)) matches Err(_),
    ensures
        artists_spec(c, ids) == artists_spec(c, ids.take(j)),
    decreases ids.len() - j,
{
    if j == ids.len() {
        assert(ids.take(j) =~= ids);
    } else {
        assert(ids.take(j + 1).drop_last() =~= ids.take(j));
        lemma_artists_spec_err_extends(c, ids, j + 1);
    }
}

/// Resolve the display name of the track's album.
pub fn get_album(catalog: &Catalog, track: &Track) -> (r: Result<String, ResolutionError>)
    ensures
        match r {
            Ok(name) => lookup_album(catalog@, track.album) == Some(name@),
            Err(_) => lookup_album(catalog@, track.album) is None,
        },
{
    match assoc_lookup_exec(&catalog.albums, track.album) {
        Some(name) => Ok(name),
        None => Err(ResolutionError::CatalogUnavailable),
    }
}

} // verus!
