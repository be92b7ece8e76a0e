//! The flat song record produced by indexing, and the library's error kinds.
use vstd::prelude::*;

verus! {

/// One audio file's tag data. Created once per file during indexing,
/// immutable thereafter. A missing duration is `None`; the other fields
/// carry the defaults applied at extraction time ("Unknown", 0).
#[derive(Clone, Debug)]
pub struct Song {
    pub artist: String,
    pub album: String,
    pub title: String,
    pub path: String,
    /// Whole seconds of playing time, if the file reported one.
    pub duration: Option<u64>,
    pub track: u32,
    pub year: u32,
    pub genre: String,
}

/// The mathematical value of a `Song`: its text fields as character
/// sequences and its numbers as they stand.
pub struct SongData {
    pub artist: Seq<char>,
    pub album: Seq<char>,
    pub title: Seq<char>,
    pub path: Seq<char>,
    pub duration: Option<u64>,
    pub track: u32,
    pub year: u32,
    pub genre: Seq<char>,
}

impl View for Song {
    type V = SongData;

    open spec fn view(&self) -> SongData {
        SongData {
            artist: self.artist@,
            album: self.album@,
            title: self.title@,
            path: self.path@,
            duration: self.duration,
            track: self.track,
            year: self.year,
            genre: self.genre@,
        }
    }
}

/// The views of a sequence of songs, in order.
pub open spec fn songs_view(songs: Seq<Song>) -> Seq<SongData> {
    Seq::new(songs.len(), |i: int| songs[i]@)
}

/// What can go wrong around the core: each failure of the surrounding
/// shell maps to exactly one of these kinds.
#[derive(Clone, Copy, Debug, PartialEq, Eq, Structural)]
pub enum LibraryError {
    /// The configuration file is missing or unreadable.
    ConfigUnavailable,
    /// The music directory could not be enumerated.
    ScanFailure,
    /// One file's tags could not be parsed; only that file is excluded.
    TagReadFailure,
    /// The cache did not decode; recovered by a fresh scan.
    CacheCorrupt,
    /// The cache could not be written; in-memory data is kept.
    CacheWriteFailure,
    /// A selected file could not be decoded or played.
    PlaybackFailure,
}

} // verus!
