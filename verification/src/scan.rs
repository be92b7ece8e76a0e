//! The pure parts of library indexing: which files count as audio, how
//! the file list is split across the fixed worker pool, and how missing
//! tags default. The directory walk and the tag reads themselves are I/O
//! and live with the shell.
use vstd::prelude::*;

use crate::song::Song;

verus! {

/// `s` ends in `suf`.
pub open spec fn seq_ends_with(s: Seq<char>, suf: Seq<char>) -> bool {
    suf.len() <= s.len() && s.skip(s.len() - suf.len()) == suf
}

/// A path the indexer takes: one of the three recognized audio
/// extensions.
pub open spec fn is_audio_path_spec(s: Seq<char>) -> bool {
    ||| seq_ends_with(s, ".flac"@)
    ||| seq_ends_with(s, ".mp3"@)
    ||| seq_ends_with(s, ".wav"@)
}

/// Whether `s` ends in `suffix`, by characters.
pub fn str_ends_with(s: &str, suffix: &str) -> (r: bool)
    ensures
        r == seq_ends_with(s@, suffix@),
{
    let n = s.unicode_len();
    let m = suffix.unicode_len();
    if m > n {
        return false;
    }
    let mut i: usize = 0;
    while i < m
        invariant
            i <= m,
            m <= n,
            n == s@.len(),
            m == suffix@.len(),
            forall|j: int| 0 <= j < i ==> s@[n - m + j] == suffix@[j],
        decreases m - i,
    {
        let cs = s.get_char(n - m + i);
        let cx = suffix.get_char(i);
        if cs as u32 != cx as u32 {
            proof {
                vstd::utf8::char_u32_cast(cs, cs as u32);
                vstd::utf8::char_u32_cast(cx, cx as u32);
                assert(s@.skip(n - m as int)[i as int] != suffix@[i as int]);
            }
            return false;
        }
        proof {
            vstd::utf8::char_u32_cast(cs, cs as u32);
            vstd::utf8::char_u32_cast(cx, cx as u32);
        }
        i += 1;
    }
    proof {
        assert(s@.skip(n - m as int) =~= suffix@);
    }
    true
}

/// Whether the indexer takes this file.
pub fn is_audio_path(path: &str) -> (r: bool)
    ensures
        r == is_audio_path_spec(path@),
{
    if str_ends_with(path, ".flac") {
        return true;
    }
    if str_ends_with(path, ".mp3") {
        return true;
    }
    str_ends_with(path, ".wav")
}

/// The chunks laid end to end, in chunk order.
pub open spec fn chunks_concat(chunks: Seq<Vec<String>>) -> Seq<String>
    decreases chunks.len(),
{
    if chunks.len() == 0 {
        Seq::empty()
    } else {
        chunks_concat(chunks.drop_last()) + chunks.last()@
    }
}

/// Split the file list into `workers` contiguous, disjoint chunks that
/// together cover every file exactly once: laid end to end, the chunks
/// are the input list. The first `len % workers` chunks take one extra
/// file, so no remainder is ever dropped.
pub fn partition_chunks(paths: &Vec<String>, workers: usize) -> (r: Vec<Vec<String>>)
    requires
        workers >= 1,
    ensures
        r@.len() == workers,
        chunks_concat(r@) == paths@,
        forall|i: int|
            0 <= i < workers ==> (#[trigger] r@[i])@.len() == paths@.len() as int / (
            workers as int) + (
            if i < paths@.len() as int % (workers as int) {
                1int
            } else {
                0int
            }),
{
    let n = paths.len();
    let base = n / workers;
    let rem = n % workers;
    let mut r: Vec<Vec<String>> = Vec::new();
    let mut j: usize = 0;
    let mut i: usize = 0;
    while i < workers
        invariant
            i <= workers,
            workers >= 1,
            n == paths@.len(),
            base == n as int / workers as int,
            rem == n as int % workers as int,
            r@.len() == i,
            chunks_concat(r@) == paths@.subrange(0, j as int),
            j as int == base as int * i as int + (if i <= rem {
                i as int
            } else {
                rem as int
            }),
            j <= n,
            forall|i0: int|
                0 <= i0 < i ==> (#[trigger] r@[i0])@.len() == base as int + (if i0 < rem as int {
                    1int
                } else {
                    0int
                }),
        decreases workers - i,
    {
        proof {
            vstd::arithmetic::div_mod::lemma_fundamental_div_mod(n as int, workers as int);
            vstd::arithmetic::div_mod::lemma_mod_division_less_than_divisor(
                n as int,
                workers as int,
            );
            assert(n as int == workers as int * base as int + rem as int);
            assert(base as int + 1 <= n as int || rem == 0) by (nonlinear_arith)
                requires
                    workers >= 1,
                    base >= 0,
                    n as int == workers as int * base as int + rem as int,
                    0 <= rem < workers,
            ;
        }
        let size = if i < rem {
            base + 1
        } else {
            base
        };
        proof {
            assert(j + size <= n) by (nonlinear_arith)
                requires
                    workers >= 1,
                    i < workers,
                    n as int == workers as int * base as int + rem as int,
                    0 <= rem < workers,
                    size as int == base as int + (if i < rem {
                        1int
                    } else {
                        0int
                    }),
                    j as int == base as int * i as int + (if i <= rem {
                        i as int
                    } else {
                        rem as int
                    }),
            ;
        }
        let mut chunk: Vec<String> = Vec::new();
        let mut t: usize = 0;
        while t < size
            invariant
                t <= size,
                j + size <= n,
                n == paths@.len(),
                chunk@.len() == t,
                chunk@ =~= paths@.subrange(j as int, j + t),
            decreases size - t,
        {
            chunk.push(paths[j + t].clone());
            proof {
                assert(chunk@ =~= paths@.subrange(j as int, j + t + 1));
            }
            t += 1;
        }
        let ghost old_r = r@;
        let ghost old_j = j as int;
        r.push(chunk);
        j = j + size;
        proof {
            assert(r@.drop_last() =~= old_r);
            assert(chunks_concat(r@) == chunks_concat(old_r) + r@.last()@);
            assert(chunks_concat(r@) =~= paths@.subrange(0, j as int));
            assert(forall|i0: int| 0 <= i0 < i ==> r@[i0] == old_r[i0]);
            assert(j as int == base as int * (i as int + 1) + (if i + 1 <= rem {
                i as int + 1
            } else {
                rem as int
            })) by (nonlinear_arith)
                requires
                    0 <= rem,
                    0 <= i,
                    size as int == base as int + (if i < rem {
                        1int
                    } else {
                        0int
                    }),
                    old_j == base as int * i as int + (if i <= rem {
                        i as int
                    } else {
                        rem as int
                    }),
                    j as int == old_j + size as int,
            ;
        }
        i += 1;
    }
    proof {
        // After the last chunk, everything has been handed out.
        vstd::arithmetic::div_mod::lemma_fundamental_div_mod(n as int, workers as int);
        vstd::arithmetic::div_mod::lemma_mod_division_less_than_divisor(n as int, workers as int);
        assert(j as int == n as int) by (nonlinear_arith)
            requires
                workers >= 1,
                n as int == workers as int * base as int + rem as int,
                0 <= rem < workers,
                j as int == base as int * workers as int + (if workers as int <= rem as int {
                    workers as int
                } else {
                    rem as int
                }),
        ;
        assert(paths@.subrange(0, n as int) =~= paths@);
    }
    r
}

/// Build a song from what the tag reader found, applying the defaults:
/// absent text fields become "Unknown", absent numbers zero, an absent
/// duration stays absent.
pub fn song_from_tags(
    path: String,
    artist: Option<String>,
    album: Option<String>,
    title: Option<String>,
    genre: Option<String>,
    duration: Option<u64>,
    track: Option<u32>,
    year: Option<u32>,
) -> (s: Song)
    ensures
        s.path == path,
        s.duration == duration,
        s@.artist == (match artist {
            Some(a) => a@,
            None => "Unknown"@,
        }),
        s@.album == (match album {
            Some(a) => a@,
            None => "Unknown"@,
        }),
        s@.title == (match title {
            Some(t) => t@,
            None => "Unknown"@,
        }),
        s@.genre == (match genre {
            Some(g) => g@,
            None => "Unknown"@,
        }),
        s.track == (match track {
            Some(t) => t,
            None => 0u32,
        }),
        s.year == (match year {
            Some(y) => y,
            None => 0u32,
        }),
{
    let artist_v = match artist {
        Some(a) => a,
        None => String::from_str("Unknown"),
    };
    let album_v = match album {
        Some(a) => a,
        None => String::from_str("Unknown"),
    };
    let title_v = match title {
        Some(t) => t,
        None => String::from_str("Unknown"),
    };
    let genre_v = match genre {
        Some(g) => g,
        None => String::from_str("Unknown"),
    };
    let track_v = match track {
        Some(t) => t,
        None => 0,
    };
    let year_v = match year {
        Some(y) => y,
        None => 0,
    };
    Song {
        artist: artist_v,
        album: album_v,
        title: title_v,
        path,
        duration,
        track: track_v,
        year: year_v,
        genre: genre_v,
    }
}

} // verus!
