//! Quality-tier format selection.
//!
//! A track's representations form a mapping from format tag to file
//! reference. The selector consults a fixed preference list, highest
//! quality first, and returns the file of the first tier present; when
//! none of the preferred tiers exists, selection fails. The policy is a
//! static ordered list, not configurable per call.

use vstd::prelude::*;

use crate::meta::FileFormat;
use crate::meta::FileId;
use crate::meta::Representation;
use crate::meta::reps_view;

verus! {

/// Why selection failed.
#[derive(Clone, Copy, PartialEq, Eq, Structural, Debug)]
pub enum SelectionError {
    /// None of the preferred tiers is present in the mapping.
    NoCompatibleFormat,
}

/// The file reference under format `f`, if any: the first pair with that
/// tag.
pub open spec fn lookup_format(fs: Seq<(FileFormat, Seq<u8>)>, f: FileFormat) -> Option<Seq<u8>>
    decreases fs.len(),
{
    if fs.len() == 0 {
        None
    } else if fs[0].0 == f {
        Some(fs[0].1)
    } else {
        lookup_format(fs.drop_first(), f)
    }
}

/// The fixed preference order, highest quality first.
pub open spec fn quality_preference() -> Seq<FileFormat> {
    seq![FileFormat::OggVorbis320, FileFormat::OggVorbis160, FileFormat::OggVorbis96]
}

/// The file of the first preferred tier present in the mapping.
pub open spec fn select_from(fs: Seq<(FileFormat, Seq<u8>)>, prefs: Seq<FileFormat>) -> Option<
    Seq<u8>,
>
    decreases prefs.len(),
{
    if prefs.len() == 0 {
        None
    } else {
        match lookup_format(fs, prefs[0]) {
            Some(v) => Some(v),
            None => select_from(fs, prefs.drop_first()),
        }
    }
}

/// What selection returns over the mapping `fs`.
pub open spec fn select_spec(fs: Seq<(FileFormat, Seq<u8>)>) -> Option<Seq<u8>> {
    select_from(fs, quality_preference())
}

/// The preference list as a value, for callers that inspect the policy.
pub fn preferred_formats() -> (r: Vec<FileFormat>)
    ensures
        r@ == quality_preference(),
{
    let mut v: Vec<FileFormat> = Vec::new();
    v.push(FileFormat::OggVorbis320);
    v.push(FileFormat::OggVorbis160);
    v.push(FileFormat::OggVorbis96);
    proof {
        assert(v@ =~= quality_preference());
    }
    v
}

/// Find the representation under format `f`, cloning its file reference.
fn lookup_format_exec(files: &Vec<Representation>, f: FileFormat) -> (r: Option<FileId>)
    ensures
        match r {
            Some(id) => lookup_format(reps_view(files@), f) == Some(id@),
            None => lookup_format(reps_view(files@), f) is None,
        },
{
    let ghost view = reps_view(files@);
    proof {
        assert(view.skip(0) =~= view);
    }
    let mut i: usize = 0;
    while i < files.len()
        invariant
            0 <= i <= files.len(),
            view == reps_view(files@),
            lookup_format(view, f) == lookup_format(view.skip(i as int), f),
        decreases files.len() - i,
    {
        proof {
            assert(view.skip(i as int)[0] == view[i as int]);
            assert(view.skip(i as int).drop_first() =~= view.skip(i + 1));
        }
        if files[i].format == f {
            return Some(files[i].file.clone());
        }
        i = i + 1;
    }
    proof {
        assert(view.skip(view.len() as int) =~= Seq::<(FileFormat, Seq<u8>)>::empty());
    }
    None
}

/// Select the representation to fetch, as `select_spec` says:
/// the file of the highest preferred tier present, and failure exactly
/// when none of the preferred tiers is in the mapping.
pub fn select_format(files: &Vec<Representation>) -> (r: Result<FileId, SelectionError>)
    ensures
        match r {
            Ok(fid) => select_spec(reps_view(files@)) == Some(fid@),
            Err(e) => select_spec(reps_view(files@)) is None && e
                == SelectionError::NoCompatibleFormat,
        },
{
    let prefs = preferred_formats();
    let ghost fv = reps_view(files@);
    proof {
        assert(prefs@.skip(0) =~= prefs@);
    }
    let mut i: usize = 0;
    while i < prefs.len()
        invariant
            0 <= i <= prefs.len(),
            fv == reps_view(files@),
            prefs@ == quality_preference(),
            select_spec(fv) == select_from(fv, prefs@.skip(i as int)),
        decreases prefs.len() - i,
    {
        proof {
            assert(prefs@.skip(i as int)[0] == prefs@[i as int]);
            assert(prefs@.skip(i as int).drop_first() =~= prefs@.skip(i + 1));
        }
        match lookup_format_exec(files, prefs[i]) {
            Some(fid) => {
                return Ok(fid);
            },
            None => {},
        }
        i = i + 1;
    }
    proof {
        assert(prefs@.skip(prefs@.len() as int) =~= Seq::<FileFormat>::empty());
    }
    Err(SelectionError::NoCompatibleFormat)
}

/// The mapping's format tags are unique keys.
pub open spec fn formats_unique(fs: Seq<(FileFormat, Seq<u8>)>) -> bool {
    forall|i: int, j: int| 0 <= i < j < fs.len() ==> fs[i].0 != fs[j].0
}

/// A successful lookup names a pair of the mapping.
proof fn lemma_lookup_some_contains(fs: Seq<(FileFormat, Seq<u8>)>, f: FileFormat)
    requires
        lookup_format(fs, f) matches Some(_),
    ensures
        fs.contains((f, lookup_format(fs, f).unwrap())),
    decreases fs.len(),
{
    if fs.len() > 0 {
        if fs[0].0 == f {
            assert(fs[0] == (f, lookup_format(fs, f).unwrap()));
        } else {
            lemma_lookup_some_contains(fs.drop_first(), f);
            let v = lookup_format(fs.drop_first(), f).unwrap();
            let k = choose|k: int| 0 <= k < fs.drop_first().len() && fs.drop_first()[k] == (f, v);
            assert(fs[k + 1] == (f, v));
        }
    }
}

/// Under unique keys, a pair of the mapping is what lookup returns.
proof fn lemma_contains_lookup(fs: Seq<(FileFormat, Seq<u8>)>, f: FileFormat, v: Seq<u8>)
    requires
        formats_unique(fs),
        fs.contains((f, v)),
    ensures
        lookup_format(fs, f) == Some(v),
    decreases fs.len(),
{
    let k = choose|k: int| 0 <= k < fs.len() && fs[k] == (f, v);
    if fs[0].0 == f {
        if k != 0 {
            assert(fs[0].0 == fs[k].0);
        }
        assert(fs[0] == (f, v));
    } else {
        assert(fs[k] == (f, v) && k != 0);
        assert(fs.drop_first()[k - 1] == (f, v));
        assert(fs.drop_first().contains((f, v)));
        lemma_contains_lookup(fs.drop_first(), f, v);
    }
}

/// A failed lookup means no pair of the mapping has that key.
proof fn lemma_lookup_none(fs: Seq<(FileFormat, Seq<u8>)>, f: FileFormat)
    requires
        lookup_format(fs, f) is None,
    ensures
        forall|j: int| 0 <= j < fs.len() ==> fs[j].0 != f,
    decreases fs.len(),
{
    if fs.len() > 0 {
        lemma_lookup_none(fs.drop_first(), f);
        assert forall|j: int| 0 <= j < fs.len() implies fs[j].0 != f by {
            if j > 0 {
                assert(fs.drop_first()[j - 1] == fs[j]);
            }
        }
    }
}

/// Two mappings with unique keys and the same pairs agree on every
/// lookup.
proof fn lemma_lookup_same_pairs(
    fs1: Seq<(FileFormat, Seq<u8>)>,
    fs2: Seq<(FileFormat, Seq<u8>)>,
    f: FileFormat,
)
    requires
        formats_unique(fs1),
        formats_unique(fs2),
        forall|p: (FileFormat, Seq<u8>)| fs1.contains(p) <==> fs2.contains(p),
    ensures
        lookup_format(fs1, f) == lookup_format(fs2, f),
{
    match lookup_format(fs1, f) {
        Some(v) => {
            lemma_lookup_some_contains(fs1, f);
            assert(fs2.contains((f, v)));
            lemma_contains_lookup(fs2, f, v);
        },
        None => {
            lemma_lookup_none(fs1, f);
            match lookup_format(fs2, f) {
                Some(w) => {
                    lemma_lookup_some_contains(fs2, f);
                    assert(fs1.contains((f, w)));
                    let k = choose|k: int| 0 <= k < fs1.len() && fs1[k] == (f, w);
                    assert(fs1[k].0 == f);
                },
                None => {},
            }
        },
    }
}

/// Selection does not depend on the mapping's insertion order: two
/// mappings with unique keys holding the same pairs select the same
/// file, and fail together exactly when no preferred tier is present.
pub proof fn lemma_select_insertion_order(
    fs1: Seq<(FileFormat, Seq<u8>)>,
    fs2: Seq<(FileFormat, Seq<u8>)>,
)
    requires
        formats_unique(fs1),
        formats_unique(fs2),
        forall|p: (FileFormat, Seq<u8>)| fs1.contains(p) <==> fs2.contains(p),
    ensures
        select_spec(fs1) == select_spec(fs2),
{
    lemma_select_from_agrees(fs1, fs2, quality_preference());
}

/// Two mappings that agree on every lookup select alike, whatever the
/// preference list.
proof fn lemma_select_from_agrees(
    fs1: Seq<(FileFormat, Seq<u8>)>,
    fs2: Seq<(FileFormat, Seq<u8>)>,
    prefs: Seq<FileFormat>,
)
    requires
        formats_unique(fs1),
        formats_unique(fs2),
        forall|p: (FileFormat, Seq<u8>)| fs1.contains(p) <==> fs2.contains(p),
    ensures
        select_from(fs1, prefs) == select_from(fs2, prefs),
    decreases prefs.len(),
{
    if prefs.len() > 0 {
        lemma_lookup_same_pairs(fs1, fs2, prefs[0]);
        lemma_select_from_agrees(fs1, fs2, prefs.drop_first());
    }
}

/// The highest tier wins whenever it is present, whatever else the
/// mapping holds.
pub proof fn lemma_select_prefers_highest(fs: Seq<(FileFormat, Seq<u8>)>)
    requires
        lookup_format(fs, FileFormat::OggVorbis320) matches Some(_),
    ensures
        select_spec(fs) == lookup_format(fs, FileFormat::OggVorbis320),
{
}

/// Selection fails exactly when none of the three preferred tiers is
/// present in the mapping.
pub proof fn lemma_select_fails_iff_no_tier(fs: Seq<(FileFormat, Seq<u8>)>)
    ensures
        select_spec(fs) is None <==> {
            &&& lookup_format(fs, FileFormat::OggVorbis320) is None
            &&& lookup_format(fs, FileFormat::OggVorbis160) is None
            &&& lookup_format(fs, FileFormat::OggVorbis96) is None
        },
{
    let p = quality_preference();
    assert(p.drop_first() =~= seq![FileFormat::OggVorbis160, FileFormat::OggVorbis96]);
    assert(p.drop_first().drop_first() =~= seq![FileFormat::OggVorbis96]);
    assert(p.drop_first().drop_first().drop_first() =~= Seq::<FileFormat>::empty());
    assert(select_from(fs, p.drop_first().drop_first().drop_first()) is None);
    assert(select_from(fs, p.drop_first().drop_first()) is None <==> lookup_format(
        fs,
        FileFormat::OggVorbis96,
    ) is None);
    assert(select_from(fs, p.drop_first()) is None <==> {
        &&& lookup_format(fs, FileFormat::OggVorbis160) is None
        &&& lookup_format(fs, FileFormat::OggVorbis96) is None
    });
}

} // verus!
