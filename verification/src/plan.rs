//! The work-list builder: from link lines to a plan of downloads.
//!
//! Each line is parsed into an identifier and resolved against the
//! catalog, the canonical output file name is computed, and a work item
//! is queued unless a file of that name already exists. A line that
//! fails to parse or to resolve aborts the whole batch. The identifier
//! is always embedded in the file name, so same-named tracks get
//! distinct files.

use vstd::prelude::*;

use crate::ids;
use crate::ids::TrackId;
use crate::link;
use crate::meta::Track;
use crate::meta::TrackView;
use crate::resolve;
use crate::resolve::Catalog;
use crate::resolve::CatalogView;
use crate::resolve::ResolutionError;
use crate::resolve::strings_view;

verus! {

/// Why building the work list failed.
#[derive(Clone, Copy, PartialEq, Eq, Structural, Debug)]
pub enum PlanError {
    /// A link line matched no recognized form or its token failed to
    /// decode.
    Extraction,
    /// Resolution of a parsed identifier failed.
    Resolution(ResolutionError),
}

/// What the file-name sanitizer returns. Relied on below in
/// `windows_compatible_file_name`.
pub uninterp spec fn sanitized_of(s: Seq<char>) -> Seq<char>;

/// Relies on `sanitize_filename::sanitize_with_options` with fixed
/// options (Windows-reserved names handled, truncation on, illegal
/// characters removed): the result is a function of the input string
/// alone.
#[verifier::external_body]
fn windows_compatible_file_name(input: &str) -> (r: String)
    ensures
        r@ == sanitized_of(input@),
{
    sanitize_filename::sanitize_with_options(
        input,
        sanitize_filename::Options { windows: true, truncate: true, replacement: "" },
    )
}

/// The parts joined with the separator between each two, in order.
pub open spec fn join_with(parts: Seq<Seq<char>>, sep: Seq<char>) -> Seq<char>
    decreases parts.len(),
{
    if parts.len() == 0 {
        Seq::empty()
    } else if parts.len() == 1 {
        parts[0]
    } else {
        join_with(parts.drop_last(), sep) + sep + parts.last()
    }
}

/// Join display names with `", "`, as the file-name formula asks.
fn join_artists(parts: &Vec<String>) -> (r: String)
    ensures
        r@ == join_with(strings_view(parts@), ", "@),
{
    let mut out = String::new();
    let mut i: usize = 0;
    proof {
        assert(strings_view(parts@.take(0)) =~= Seq::<Seq<char>>::empty());
    }
    while i < parts.len()
        invariant
            0 <= i <= parts.len(),
            out@ == join_with(strings_view(parts@.take(i as int)), ", "@),
        decreases parts.len() - i,
    {
        proof {
            assert(strings_view(parts@.take(i + 1)).drop_last() =~= strings_view(
                parts@.take(i as int),
            ));
            assert(strings_view(parts@.take(i + 1)).last() == parts@[i as int]@);
        }
        if i > 0 {
            out.append(", ");
        }
        out.append(parts[i].as_str());
        i = i + 1;
    }
    proof {
        assert(parts@.take(parts@.len() as int) =~= parts@);
    }
    out
}

/// The canonical output file name:
/// `<artists joined by ", "> - <title> [<identifier>].ogg`, sanitized.
pub open spec fn file_name_spec(artists: Seq<Seq<char>>, title: Seq<char>, id: TrackId) -> Seq<
    char,
> {
    sanitized_of(
        join_with(artists, ", "@) + " - "@ + title + " ["@ + ids::base62_encode(id.id as int)
            + "].ogg"@,
    )
}

/// Compute the canonical output file name for one track.
pub fn output_file_name(artists: &Vec<String>, title: &str, id: TrackId) -> (r: String)
    ensures
        r@ == file_name_spec(strings_view(artists@), title@, id),
{
    let mut s = join_artists(artists);
    s.append(" - ");
    s.append(title);
    s.append(" [");
    let code = ids::to_base62(id);
    s.append(code.as_str());
    s.append("].ogg");
    windows_compatible_file_name(s.as_str())
}

/// One planned unit of work: a resolved track, the identifier it was
/// requested under, and its resolved artist and album names.
pub struct TrackInfo {
    pub track: Track,
    pub song_id: TrackId,
    pub artists: Vec<String>,
    pub album: String,
}

/// Mathematical view of one work item.
#[verifier::ext_equal]
pub struct TrackInfoView {
    pub track: TrackView,
    pub song_id: TrackId,
    pub artists: Seq<Seq<char>>,
    pub album: Seq<char>,
}

impl View for TrackInfo {
    type V = TrackInfoView;

    open spec fn view(&self) -> TrackInfoView {
        TrackInfoView {
            track: self.track@,
            song_id: self.song_id,
            artists: strings_view(self.artists@),
            album: self.album@,
        }
    }
}

/// View of a vector of work items.
pub open spec fn items_view(items: Seq<TrackInfo>) -> Seq<TrackInfoView> {
    items.map_values(|t: TrackInfo| t@)
}

/// The work item one link line denotes under catalog `c`: extraction,
/// resolution with fallback, artist and album lookup.
pub open spec fn build_item(c: CatalogView, link: Seq<char>) -> Result<TrackInfoView, PlanError> {
    match link::extract_spec(link) {
        None => Err(PlanError::Extraction),
        Some(n) => {
            let id = TrackId { id: n as u128 };
            match resolve::resolve_spec(c, id) {
                Err(e) => Err(PlanError::Resolution(e)),
                Ok(t) => match resolve::artists_spec(c, t.artists) {
                    Err(e) => Err(PlanError::Resolution(e)),
                    Ok(names) => match resolve::lookup_album(c, t.album) {
                        None => Err(
                            PlanError::Resolution(ResolutionError::CatalogUnavailable),
                        ),
                        Some(alb) => Ok(
                            TrackInfoView { track: t, song_id: id, artists: names, album: alb },
                        ),
                    },
                },
            }
        },
    }
}

/// The output file name of one work item.
pub open spec fn item_file_name(iv: TrackInfoView) -> Seq<char> {
    file_name_spec(iv.artists, iv.track.name, iv.song_id)
}

/// The plan the whole link list denotes: items in input order, minus
/// those whose output file already exists; the first failing line
/// aborts the batch.
pub open spec fn plan_spec(
    c: CatalogView,
    links: Seq<Seq<char>>,
    existing: Seq<Seq<char>>,
) -> Result<Seq<TrackInfoView>, PlanError>
    decreases links.len(),
{
    if links.len() == 0 {
        Ok(Seq::empty())
    } else {
        match plan_spec(c, links.drop_last(), existing) {
            Err(e) => Err(e),
            Ok(items) => match build_item(c, links.last()) {
                Err(e) => Err(e),
                Ok(iv) => if existing.contains(item_file_name(iv)) {
                    Ok(items)
                } else {
                    Ok(items.push(iv))
                },
            },
        }
    }
}

/// Once a prefix of the link list fails, the whole list fails the same
/// way.
proof fn lemma_plan_err_extends(
    c: CatalogView,
    links: Seq<Seq<char>>,
    existing: Seq<Seq<char>>,
    j: int,
)
    requires
        0 <= j <= links.len(),
        plan_spec(c, links.take(j), existing) matches Err(_),
    ensures
        plan_spec(c, links, existing) == plan_spec(c, links.take(j), existing),
    decreases links.len() - j,
{
    if j == links.len() {
        assert(links.take(j) =~= links);
    } else {
        assert(links.take(j + 1).drop_last() =~= links.take(j));
        lemma_plan_err_extends(c, links, existing, j + 1);
    }
}

/// Whether a file of this name is already present.
fn contains_name(existing: &Vec<String>, name: &String) -> (b: bool)
    ensures
        b == strings_view(existing@).contains(name@),
{
    let mut i: usize = 0;
    while i < existing.len()
        invariant
            0 <= i <= existing.len(),
            forall|j: int| 0 <= j < i ==> existing@[j]@ != name@,
        decreases existing.len() - i,
    {
        if existing[i] == *name {
            proof {
                assert(strings_view(existing@)[i as int] == name@);
            }
            return true;
        }
        i = i + 1;
    }
    proof {
        assert forall|j: int| 0 <= j < strings_view(existing@).len() implies strings_view(
            existing@,
        )[j] != name@ by {
            assert(strings_view(existing@)[j] == existing@[j]@);
        }
    }
    false
}

/// Build the work list, as `plan_spec` says: one item per link
/// line in order, skipping lines whose output file is already present
/// in `existing`, and aborting the whole batch on the first line that
/// fails to parse or to resolve.
///
/// `existing` is the set of file names present in the output directory
/// when planning starts; existence is judged once, at plan time.
pub fn build_work_list(catalog: &Catalog, links: &Vec<String>, existing: &Vec<String>) -> (r:
    Result<Vec<TrackInfo>, PlanError>)
    ensures
        match r {
            Ok(items) => plan_spec(catalog@, strings_view(links@), strings_view(existing@)) == Ok::<
                _,
                PlanError,
            >(items_view(items@)),
            Err(e) => plan_spec(catalog@, strings_view(links@), strings_view(existing@)) == Err::<
                Seq<TrackInfoView>,
                _,
            >(e),
        },
{
    let ghost lv = strings_view(links@);
    let ghost ev = strings_view(existing@);
    let mut items: Vec<TrackInfo> = Vec::new();
    let mut i: usize = 0;
    proof {
        assert(lv.take(0) =~= Seq::<Seq<char>>::empty());
        assert(items_view(items@) =~= Seq::<TrackInfoView>::empty());
    }
    while i < links.len()
        invariant
            0 <= i <= links.len(),
            lv == strings_view(links@),
            ev == strings_view(existing@),
            plan_spec(catalog@, lv.take(i as int), ev) == Ok::<_, PlanError>(items_view(items@)),
        decreases links.len() - i,
    {
        proof {
            assert(lv.take(i + 1).drop_last() =~= lv.take(i as int));
            assert(lv.take(i + 1).last() == links@[i as int]@);
        }
        let song_id = match link::extract_song_id(links[i].as_str()) {
            Ok(id) => id,
            Err(_) => {
                proof {
                    lemma_plan_err_extends(catalog@, lv, ev, i + 1);
                }
                return Err(PlanError::Extraction);
            },
        };
        let track = match resolve::get_track(catalog, song_id) {
            Ok(t) => t,
            Err(e) => {
                proof {
                    lemma_plan_err_extends(catalog@, lv, ev, i + 1);
                }
                return Err(PlanError::Resolution(e));
            },
        };
        let artist_names = match resolve::get_artists(catalog, &track) {
            Ok(names) => names,
            Err(e) => {
                proof {
                    lemma_plan_err_extends(catalog@, lv, ev, i + 1);
                }
                return Err(PlanError::Resolution(e));
            },
        };
        let album = match resolve::get_album(catalog, &track) {
            Ok(name) => name,
            Err(_) => {
                proof {
                    lemma_plan_err_extends(catalog@, lv, ev, i + 1);
                }
                return Err(PlanError::Resolution(ResolutionError::CatalogUnavailable));
            },
        };
        let fname = output_file_name(&artist_names, track.name.as_str(), song_id);
        if !contains_name(existing, &fname) {
            let ghost pre_items = items@;
            items.push(TrackInfo { track, song_id, artists: artist_names, album });
            proof {
                assert(items_view(items@) =~= items_view(pre_items).push(items@.last()@));
            }
        }
        i = i + 1;
    }
    proof {
        assert(lv.take(links@.len() as int) =~= lv);
    }
    Ok(items)
}

/// Replanning the same link list against a directory that already holds
/// every file of the first plan (and everything it held before) queues
/// nothing: the second run is empty.
pub proof fn lemma_second_run_empty(
    c: CatalogView,
    links: Seq<Seq<char>>,
    ex1: Seq<Seq<char>>,
    ex2: Seq<Seq<char>>,
    items: Seq<TrackInfoView>,
)
    requires
        plan_spec(c, links, ex1) == Ok::<_, PlanError>(items),
        forall|k: int| 0 <= k < items.len() ==> ex2.contains(item_file_name(#[trigger] items[k])),
        forall|f: Seq<char>| ex1.contains(f) ==> ex2.contains(f),
    ensures
        plan_spec(c, links, ex2) == Ok::<_, PlanError>(Seq::<TrackInfoView>::empty()),
    decreases links.len(),
{
    if links.len() > 0 {
        match plan_spec(c, links.drop_last(), ex1) {
            Err(_) => {
                assert(false);
            },
            Ok(pre_items) => {
                match build_item(c, links.last()) {
                    Err(_) => {
                        assert(false);
                    },
                    Ok(iv) => {
                        if ex1.contains(item_file_name(iv)) {
                            assert(items == pre_items);
                        } else {
                            assert(items == pre_items.push(iv));
                            assert(items[items.len() - 1] == iv);
                            assert(ex2.contains(item_file_name(iv)));
                        }
                        assert forall|k: int| 0 <= k < pre_items.len() implies ex2.contains(
                            item_file_name(#[trigger] pre_items[k]),
                        ) by {
                            assert(pre_items[k] == items[k]);
                        }
                        lemma_second_run_empty(c, links.drop_last(), ex1, ex2, pre_items);
                    },
                }
            },
        }
    }
}

} // verus!
