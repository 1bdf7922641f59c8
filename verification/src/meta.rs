//! Track metadata as the pipeline sees it: a track's display name, its
//! artist and album identifiers, its availability, the alternatives offered
//! when it is unavailable, and its encoded representations keyed by format.
//!
//! Every type has a mathematical view, and the contracts of the library
//! speak over those views.

use vstd::prelude::*;

use crate::ids::TrackId;

verus! {

/// Quality/format tag of one encoded representation of a track's audio.
#[derive(Clone, Copy, PartialEq, Eq, Structural, Debug)]
pub enum FileFormat {
    OggVorbis320,
    OggVorbis160,
    OggVorbis96,
    Mp3_320,
    Mp3_160,
    Aac320,
    Aac160,
}

/// Opaque reference to one encoded file in the transport store.
#[derive(Debug)]
pub struct FileId {
    pub raw: Vec<u8>,
}

impl View for FileId {
    type V = Seq<u8>;

    open spec fn view(&self) -> Seq<u8> {
        self.raw@
    }
}

/// One encoded representation: a format tag and the file it names.
#[derive(Debug)]
pub struct Representation {
    pub format: FileFormat,
    pub file: FileId,
}

impl View for Representation {
    type V = (FileFormat, Seq<u8>);

    open spec fn view(&self) -> (FileFormat, Seq<u8>) {
        (self.format, self.file@)
    }
}

/// View of a representation list: the format/file pairs in order.
pub open spec fn reps_view(reps: Seq<Representation>) -> Seq<(FileFormat, Seq<u8>)> {
    reps.map_values(|r: Representation| r@)
}

/// Mathematical view of one track's metadata.
#[verifier::ext_equal]
pub struct TrackView {
    pub id: TrackId,
    pub name: Seq<char>,
    pub artists: Seq<TrackId>,
    pub album: TrackId,
    pub available: bool,
    pub alternatives: Seq<TrackId>,
    pub files: Seq<(FileFormat, Seq<u8>)>,
}

/// Metadata of one track, as one resolution call returns it.
#[derive(Debug)]
pub struct Track {
    pub id: TrackId,
    pub name: String,
    pub artists: Vec<TrackId>,
    pub album: TrackId,
    pub available: bool,
    pub alternatives: Vec<TrackId>,
    pub files: Vec<Representation>,
}

impl View for Track {
    type V = TrackView;

    open spec fn view(&self) -> TrackView {
        TrackView {
            id: self.id,
            name: self.name@,
            artists: self.artists@,
            album: self.album,
            available: self.available,
            alternatives: self.alternatives@,
            files: reps_view(self.files@),
        }
    }
}

/// Copy a vector of plainly copyable values, element by element.
pub fn copy_vec<T: Copy>(v: &Vec<T>) -> (r: Vec<T>)
    ensures
        r@ == v@,
{
    let mut out: Vec<T> = Vec::new();
    let mut i: usize = 0;
    while i < v.len()
        invariant
            0 <= i <= v.len(),
            out@ == v@.take(i as int),
        decreases v.len() - i,
    {
        out.push(v[i]);
        proof {
            assert(out@ =~= v@.take(i + 1));
        }
        i = i + 1;
    }
    proof {
        assert(v@.take(v@.len() as int) =~= v@);
    }
    out
}

impl Clone for FileId {
    /// A clone names the same file.
    fn clone(&self) -> (r: Self)
        ensures
            r@ == self@,
    {
        FileId { raw: copy_vec(&self.raw) }
    }
}

impl Clone for Representation {
    /// A clone keeps the format tag and the file reference.
    fn clone(&self) -> (r: Self)
        ensures
            r@ == self@,
    {
        Representation { format: self.format, file: self.file.clone() }
    }
}

impl Clone for Track {
    /// A clone of track metadata has the same view.
    fn clone(&self) -> (r: Self)
        ensures
            r@ == self@,
    {
        let mut files: Vec<Representation> = Vec::new();
        let mut i: usize = 0;
        while i < self.files.len()
            invariant
                0 <= i <= self.files.len(),
                files@.len() == i,
                forall|j: int| 0 <= j < i ==> files@[j]@ == self.files@[j]@,
            decreases self.files.len() - i,
        {
            files.push(self.files[i].clone());
            i = i + 1;
        }
        let r = Track {
            id: self.id,
            name: self.name.clone(),
            artists: copy_vec(&self.artists),
            album: self.album,
            available: self.available,
            alternatives: copy_vec(&self.alternatives),
            files,
        };
        proof {
            assert(reps_view(r.files@) =~= reps_view(self.files@));
            assert(r@ =~= self@);
        }
        r
    }
}

} // verus!
