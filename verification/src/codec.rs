//! The binary cache of the song collection: a length-prefixed encoding
//! written next to the configuration, read back on the next start. The
//! encoder and decoder are inverses: what `save_cache` writes,
//! `load_cache` returns unchanged, and `load_cache` accepts nothing but
//! exact encodings.
use vstd::prelude::*;
use vstd::bytes::{
    spec_u32_to_le_bytes, spec_u64_to_le_bytes, lemma_auto_spec_u32_to_from_le_bytes,
    lemma_auto_spec_u64_to_from_le_bytes, u32_from_le_bytes, u32_to_le_bytes, u64_from_le_bytes,
    u64_to_le_bytes,
};
use vstd::slice::slice_subrange;
use vstd::string::StringSliceAdditionalSpecFns;
use vstd::utf8::{encode_utf8, encode_utf8_decode_utf8, encode_utf8_valid_utf8, valid_utf8};

use crate::song::{Song, SongData, songs_view};

verus! {

/// A string whose UTF-8 form fits the cache's 64-bit length prefix.
pub open spec fn encodable_str(s: Seq<char>) -> bool {
    encode_utf8(s).len() <= u64::MAX
}

/// A song every one of whose text fields fits its length prefix.
pub open spec fn encodable_song(d: SongData) -> bool {
    &&& encodable_str(d.artist)
    &&& encodable_str(d.album)
    &&& encodable_str(d.title)
    &&& encodable_str(d.path)
    &&& encodable_str(d.genre)
}

/// A collection the cache format can carry at all: the count fits its
/// prefix and every song is encodable. Every collection that exists in
/// memory is.
pub open spec fn encodable(v: Seq<SongData>) -> bool {
    &&& v.len() <= u64::MAX
    &&& forall|i: int| 0 <= i < v.len() ==> encodable_song(#[trigger] v[i])
}

/// A string's encoding: its UTF-8 length as eight little-endian bytes,
/// then its UTF-8 bytes.
pub open spec fn enc_str(s: Seq<char>) -> Seq<u8> {
    spec_u64_to_le_bytes(encode_utf8(s).len() as u64) + encode_utf8(s)
}

/// A duration's encoding: a presence byte, then the seconds if present.
pub open spec fn enc_duration(d: Option<u64>) -> Seq<u8> {
    match d {
        None => seq![0u8],
        Some(x) => seq![1u8] + spec_u64_to_le_bytes(x),
    }
}

/// One song's encoding: its fields in declaration order.
pub open spec fn enc_song(d: SongData) -> Seq<u8> {
    enc_str(d.artist) + enc_str(d.album) + enc_str(d.title) + enc_str(d.path) + enc_duration(
        d.duration,
    ) + spec_u32_to_le_bytes(d.track) + spec_u32_to_le_bytes(d.year) + enc_str(d.genre)
}

/// The songs' encodings, concatenated in order.
pub open spec fn enc_song_list(v: Seq<SongData>) -> Seq<u8>
    decreases v.len(),
{
    if v.len() == 0 {
        Seq::empty()
    } else {
        enc_song_list(v.drop_last()) + enc_song(v.last())
    }
}

/// The whole cache image: the count as eight little-endian bytes, then
/// every song.
pub open spec fn encode_songs(v: Seq<SongData>) -> Seq<u8> {
    spec_u64_to_le_bytes(v.len() as u64) + enc_song_list(v)
}

/// `p` is what `s` begins with.
pub open spec fn starts_with_bytes(s: Seq<u8>, p: Seq<u8>) -> bool {
    p.len() <= s.len() && s.subrange(0, p.len() as int) == p
}

/// A concatenated prefix splits: the head is a prefix, and the tail is a
/// prefix of what the head leaves.
proof fn lemma_starts_with_concat(s: Seq<u8>, a: Seq<u8>, b: Seq<u8>)
    requires
        starts_with_bytes(s, a + b),
    ensures
        starts_with_bytes(s, a),
        starts_with_bytes(s.skip(a.len() as int), b),
{
    assert(s.subrange(0, a.len() as int) =~= (a + b).subrange(0, a.len() as int));
    assert(s.subrange(0, a.len() as int) =~= a);
    assert(s.skip(a.len() as int).subrange(0, b.len() as int) =~= (a + b).subrange(
        a.len() as int,
        (a + b).len() as int,
    ));
    assert(s.skip(a.len() as int).subrange(0, b.len() as int) =~= b);
}

/// The song list's encoding also decomposes at the front.
proof fn lemma_enc_song_list_first(v: Seq<SongData>)
    requires
        v.len() > 0,
    ensures
        enc_song_list(v) == enc_song(v[0]) + enc_song_list(v.drop_first()),
    decreases v.len(),
{
    if v.len() == 1 {
        assert(v.drop_last() =~= Seq::empty());
        assert(v.drop_first() =~= Seq::empty());
        assert(enc_song_list(v) =~= enc_song(v[0]) + enc_song_list(v.drop_first()));
    } else {
        lemma_enc_song_list_first(v.drop_last());
        assert(v.drop_last()[0] == v[0]);
        assert(v.drop_last().drop_first() =~= v.drop_first().drop_last());
        assert(v.drop_first().last() == v.last());
        assert(enc_song_list(v.drop_first()) == enc_song_list(v.drop_first().drop_last())
            + enc_song(v.last()));
        assert(enc_song_list(v) =~= enc_song(v[0]) + enc_song_list(v.drop_first()));
    }
}

/// The song list's encoding splits at any position.
proof fn lemma_enc_song_list_split(v: Seq<SongData>, k: int)
    requires
        0 <= k <= v.len(),
    ensures
        enc_song_list(v) == enc_song_list(v.take(k)) + enc_song_list(v.skip(k)),
    decreases v.len() - k,
{
    if k == v.len() {
        assert(v.take(k) =~= v);
        assert(v.skip(k) =~= Seq::empty());
        assert(enc_song_list(v) =~= enc_song_list(v.take(k)) + enc_song_list(v.skip(k)));
    } else {
        lemma_enc_song_list_split(v, k + 1);
        assert(v.take(k + 1).drop_last() =~= v.take(k));
        assert(v.take(k + 1).last() == v[k]);
        assert(enc_song_list(v.take(k + 1)) == enc_song_list(v.take(k)) + enc_song(v[k]));
        lemma_enc_song_list_first(v.skip(k));
        assert(v.skip(k)[0] == v[k]);
        assert(v.skip(k).drop_first() =~= v.skip(k + 1));
        assert(enc_song_list(v.skip(k)) == enc_song(v[k]) + enc_song_list(v.skip(k + 1)));
        assert(enc_song_list(v) =~= enc_song_list(v.take(k)) + enc_song_list(v.skip(k)));
    }
}

/// Two string encodings at the front of the same bytes are the same
/// encoding of the same string: the length prefix fixes the cut, and
/// UTF-8 decoding fixes the characters.
proof fn lemma_enc_str_unique(rest: Seq<u8>, x: Seq<char>, y: Seq<char>)
    requires
        starts_with_bytes(rest, enc_str(x)),
        starts_with_bytes(rest, enc_str(y)),
        encodable_str(x),
        encodable_str(y),
    ensures
        x == y,
{
    lemma_auto_spec_u64_to_from_le_bytes();
    let lx = encode_utf8(x).len() as u64;
    let ly = encode_utf8(y).len() as u64;
    lemma_starts_with_concat(rest, spec_u64_to_le_bytes(lx), encode_utf8(x));
    lemma_starts_with_concat(rest, spec_u64_to_le_bytes(ly), encode_utf8(y));
    assert(spec_u64_to_le_bytes(lx) =~= rest.subrange(0, 8));
    assert(spec_u64_to_le_bytes(ly) =~= rest.subrange(0, 8));
    assert(lx == ly);
    assert(encode_utf8(x).len() == encode_utf8(y).len());
    assert(encode_utf8(x) =~= rest.skip(8).subrange(0, encode_utf8(x).len() as int));
    assert(encode_utf8(y) =~= rest.skip(8).subrange(0, encode_utf8(y).len() as int));
    encode_utf8_decode_utf8(x);
    encode_utf8_decode_utf8(y);
}

/// Two duration encodings at the front of the same bytes agree: the
/// presence byte fixes the variant, the fixed-width seconds the value.
proof fn lemma_enc_duration_unique(rest: Seq<u8>, x: Option<u64>, y: Option<u64>)
    requires
        starts_with_bytes(rest, enc_duration(x)),
        starts_with_bytes(rest, enc_duration(y)),
    ensures
        x == y,
{
    lemma_auto_spec_u64_to_from_le_bytes();
    match (x, y) {
        (Some(a), Some(b)) => {
            lemma_starts_with_concat(rest, seq![1u8], spec_u64_to_le_bytes(a));
            lemma_starts_with_concat(rest, seq![1u8], spec_u64_to_le_bytes(b));
            assert(spec_u64_to_le_bytes(a) =~= rest.skip(1).subrange(0, 8));
            assert(spec_u64_to_le_bytes(b) =~= rest.skip(1).subrange(0, 8));
            assert(a == b);
        },
        (Some(a), None) => {
            assert(enc_duration(x)[0] == 1);
            assert(enc_duration(y)[0] == 0);
            assert(rest[0] == 1 && rest[0] == 0);
        },
        (None, Some(b)) => {
            assert(enc_duration(x)[0] == 0);
            assert(enc_duration(y)[0] == 1);
            assert(rest[0] == 0 && rest[0] == 1);
        },
        (None, None) => {},
    }
}

/// Two 32-bit encodings at the front of the same bytes agree.
proof fn lemma_enc_u32_unique(rest: Seq<u8>, x: u32, y: u32)
    requires
        starts_with_bytes(rest, spec_u32_to_le_bytes(x)),
        starts_with_bytes(rest, spec_u32_to_le_bytes(y)),
    ensures
        x == y,
{
    lemma_auto_spec_u32_to_from_le_bytes();
    assert(spec_u32_to_le_bytes(x) =~= rest.subrange(0, 4));
    assert(spec_u32_to_le_bytes(y) =~= rest.subrange(0, 4));
}

/// Peel one string off two parallel prefix decompositions.
proof fn lemma_peel2_str(rest: Seq<u8>, x1: Seq<char>, t1: Seq<u8>, x2: Seq<char>, t2: Seq<u8>)
    requires
        starts_with_bytes(rest, enc_str(x1) + t1),
        starts_with_bytes(rest, enc_str(x2) + t2),
        encodable_str(x1),
        encodable_str(x2),
    ensures
        x1 == x2,
        starts_with_bytes(rest.skip(enc_str(x1).len() as int), t1),
        starts_with_bytes(rest.skip(enc_str(x1).len() as int), t2),
{
    lemma_starts_with_concat(rest, enc_str(x1), t1);
    lemma_starts_with_concat(rest, enc_str(x2), t2);
    lemma_enc_str_unique(rest, x1, x2);
}

/// Peel one duration off two parallel prefix decompositions.
proof fn lemma_peel2_duration(
    rest: Seq<u8>,
    x1: Option<u64>,
    t1: Seq<u8>,
    x2: Option<u64>,
    t2: Seq<u8>,
)
    requires
        starts_with_bytes(rest, enc_duration(x1) + t1),
        starts_with_bytes(rest, enc_duration(x2) + t2),
    ensures
        x1 == x2,
        starts_with_bytes(rest.skip(enc_duration(x1).len() as int), t1),
        starts_with_bytes(rest.skip(enc_duration(x1).len() as int), t2),
{
    lemma_starts_with_concat(rest, enc_duration(x1), t1);
    lemma_starts_with_concat(rest, enc_duration(x2), t2);
    lemma_enc_duration_unique(rest, x1, x2);
}

/// Peel one 32-bit value off two parallel prefix decompositions.
proof fn lemma_peel2_u32(rest: Seq<u8>, x1: u32, t1: Seq<u8>, x2: u32, t2: Seq<u8>)
    requires
        starts_with_bytes(rest, spec_u32_to_le_bytes(x1) + t1),
        starts_with_bytes(rest, spec_u32_to_le_bytes(x2) + t2),
    ensures
        x1 == x2,
        starts_with_bytes(rest.skip(spec_u32_to_le_bytes(x1).len() as int), t1),
        starts_with_bytes(rest.skip(spec_u32_to_le_bytes(x1).len() as int), t2),
{
    lemma_auto_spec_u32_to_from_le_bytes();
    lemma_starts_with_concat(rest, spec_u32_to_le_bytes(x1), t1);
    lemma_starts_with_concat(rest, spec_u32_to_le_bytes(x2), t2);
    lemma_enc_u32_unique(rest, x1, x2);
}

/// A song's encoding, decomposed right-to-left so its fields can be
/// peeled off one at a time.
spec fn enc_song_tail5(d: SongData) -> Seq<u8> {
    enc_duration(d.duration) + (spec_u32_to_le_bytes(d.track) + (spec_u32_to_le_bytes(d.year)
        + enc_str(d.genre)))
}

spec fn enc_song_nested(d: SongData) -> Seq<u8> {
    enc_str(d.artist) + (enc_str(d.album) + (enc_str(d.title) + (enc_str(d.path)
        + enc_song_tail5(d))))
}

proof fn lemma_enc_song_nested(d: SongData)
    ensures
        enc_song(d) == enc_song_nested(d),
{
    assert(enc_song(d) =~= enc_song_nested(d));
}

/// Two song encodings at the front of the same bytes are encodings of
/// the same song: every field peels off equal.
proof fn lemma_enc_song_unique(rest: Seq<u8>, d1: SongData, d2: SongData)
    requires
        starts_with_bytes(rest, enc_song(d1)),
        starts_with_bytes(rest, enc_song(d2)),
        encodable_song(d1),
        encodable_song(d2),
    ensures
        d1 == d2,
{
    lemma_enc_song_nested(d1);
    lemma_enc_song_nested(d2);
    let r0 = rest;
    lemma_peel2_str(
        r0,
        d1.artist,
        enc_str(d1.album) + (enc_str(d1.title) + (enc_str(d1.path) + enc_song_tail5(d1))),
        d2.artist,
        enc_str(d2.album) + (enc_str(d2.title) + (enc_str(d2.path) + enc_song_tail5(d2))),
    );
    let r1 = r0.skip(enc_str(d1.artist).len() as int);
    lemma_peel2_str(
        r1,
        d1.album,
        enc_str(d1.title) + (enc_str(d1.path) + enc_song_tail5(d1)),
        d2.album,
        enc_str(d2.title) + (enc_str(d2.path) + enc_song_tail5(d2)),
    );
    let r2 = r1.skip(enc_str(d1.album).len() as int);
    lemma_peel2_str(
        r2,
        d1.title,
        enc_str(d1.path) + enc_song_tail5(d1),
        d2.title,
        enc_str(d2.path) + enc_song_tail5(d2),
    );
    let r3 = r2.skip(enc_str(d1.title).len() as int);
    lemma_peel2_str(r3, d1.path, enc_song_tail5(d1), d2.path, enc_song_tail5(d2));
    let r4 = r3.skip(enc_str(d1.path).len() as int);
    assert(enc_song_tail5(d1) =~= enc_duration(d1.duration) + (spec_u32_to_le_bytes(d1.track) + (
    spec_u32_to_le_bytes(d1.year) + enc_str(d1.genre))));
    lemma_peel2_duration(
        r4,
        d1.duration,
        spec_u32_to_le_bytes(d1.track) + (spec_u32_to_le_bytes(d1.year) + enc_str(d1.genre)),
        d2.duration,
        spec_u32_to_le_bytes(d2.track) + (spec_u32_to_le_bytes(d2.year) + enc_str(d2.genre)),
    );
    let r5 = r4.skip(enc_duration(d1.duration).len() as int);
    lemma_peel2_u32(
        r5,
        d1.track,
        spec_u32_to_le_bytes(d1.year) + enc_str(d1.genre),
        d2.track,
        spec_u32_to_le_bytes(d2.year) + enc_str(d2.genre),
    );
    let r6 = r5.skip(spec_u32_to_le_bytes(d1.track).len() as int);
    lemma_peel2_u32(r6, d1.year, enc_str(d1.genre), d2.year, enc_str(d2.genre));
    let r7 = r6.skip(spec_u32_to_le_bytes(d1.year).len() as int);
    lemma_enc_str_unique(r7, d1.genre, d2.genre);
}

/// Append a string's encoding.
fn push_str(out: &mut Vec<u8>, s: &str)
    ensures
        final(out)@ == old(out)@ + enc_str(s@),
        encodable_str(s@),
{
    let b = s.as_bytes();
    let bl = b.len();
    let lenv = u64_to_le_bytes(bl as u64);
    out.extend_from_slice(lenv.as_slice());
    out.extend_from_slice(b);
    proof {
        assert(final(out)@ =~= old(out)@ + enc_str(s@));
    }
}

/// Append a duration's encoding.
fn push_duration(out: &mut Vec<u8>, d: &Option<u64>)
    ensures
        final(out)@ == old(out)@ + enc_duration(*d),
{
    match d {
        None => {
            out.push(0u8);
            proof {
                assert(final(out)@ =~= old(out)@ + enc_duration(None::<u64>));
            }
        },
        Some(x) => {
            out.push(1u8);
            let xv = u64_to_le_bytes(*x);
            out.extend_from_slice(xv.as_slice());
            proof {
                assert(final(out)@ =~= old(out)@ + enc_duration(Some(*x)));
            }
        },
    }
}

/// Append one song's encoding.
fn push_song(out: &mut Vec<u8>, song: &Song)
    ensures
        final(out)@ == old(out)@ + enc_song(song@),
        encodable_song(song@),
{
    push_str(out, song.artist.as_str());
    push_str(out, song.album.as_str());
    push_str(out, song.title.as_str());
    push_str(out, song.path.as_str());
    push_duration(out, &song.duration);
    let tv = u32_to_le_bytes(song.track);
    out.extend_from_slice(tv.as_slice());
    let yv = u32_to_le_bytes(song.year);
    out.extend_from_slice(yv.as_slice());
    push_str(out, song.genre.as_str());
    proof {
        assert(final(out)@ =~= old(out)@ + enc_song(song@));
    }
}

/// A parsed-and-consumed encoding pins down any encoding that claims the
/// same spot: the strings agree and the positions advance identically.
proof fn lemma_advance_str(bytes: Seq<u8>, pos: int, np: int, parsed: Seq<char>, x: Seq<char>, tail: Seq<u8>)
    requires
        0 <= pos <= np <= bytes.len(),
        bytes.subrange(pos, np) == enc_str(parsed),
        starts_with_bytes(bytes.skip(pos), enc_str(x) + tail),
        encodable_str(parsed),
        encodable_str(x),
    ensures
        x == parsed,
        np - pos == enc_str(parsed).len(),
        starts_with_bytes(bytes.skip(np), tail),
{
    lemma_starts_with_concat(bytes.skip(pos), enc_str(x), tail);
    assert(starts_with_bytes(bytes.skip(pos), enc_str(parsed))) by {
        assert(bytes.skip(pos).subrange(0, np - pos) =~= bytes.subrange(pos, np));
    }
    lemma_enc_str_unique(bytes.skip(pos), x, parsed);
    assert(bytes.skip(np) =~= bytes.skip(pos).skip(enc_str(x).len() as int));
}

/// The duration analogue of `lemma_advance_str`.
proof fn lemma_advance_duration(
    bytes: Seq<u8>,
    pos: int,
    np: int,
    parsed: Option<u64>,
    x: Option<u64>,
    tail: Seq<u8>,
)
    requires
        0 <= pos <= np <= bytes.len(),
        bytes.subrange(pos, np) == enc_duration(parsed),
        starts_with_bytes(bytes.skip(pos), enc_duration(x) + tail),
    ensures
        x == parsed,
        np - pos == enc_duration(parsed).len(),
        starts_with_bytes(bytes.skip(np), tail),
{
    lemma_starts_with_concat(bytes.skip(pos), enc_duration(x), tail);
    assert(starts_with_bytes(bytes.skip(pos), enc_duration(parsed))) by {
        assert(bytes.skip(pos).subrange(0, np - pos) =~= bytes.subrange(pos, np));
    }
    lemma_enc_duration_unique(bytes.skip(pos), x, parsed);
    assert(bytes.skip(np) =~= bytes.skip(pos).skip(enc_duration(x).len() as int));
}

/// The 32-bit analogue of `lemma_advance_str`.
proof fn lemma_advance_u32(bytes: Seq<u8>, pos: int, np: int, parsed: u32, x: u32, tail: Seq<u8>)
    requires
        0 <= pos <= np <= bytes.len(),
        bytes.subrange(pos, np) == spec_u32_to_le_bytes(parsed),
        starts_with_bytes(bytes.skip(pos), spec_u32_to_le_bytes(x) + tail),
    ensures
        x == parsed,
        np - pos == spec_u32_to_le_bytes(parsed).len(),
        starts_with_bytes(bytes.skip(np), tail),
{
    lemma_starts_with_concat(bytes.skip(pos), spec_u32_to_le_bytes(x), tail);
    assert(starts_with_bytes(bytes.skip(pos), spec_u32_to_le_bytes(parsed))) by {
        assert(bytes.skip(pos).subrange(0, np - pos) =~= bytes.subrange(pos, np));
    }
    lemma_enc_u32_unique(bytes.skip(pos), x, parsed);
    assert(bytes.skip(np) =~= bytes.skip(pos).skip(spec_u32_to_le_bytes(x).len() as int));
}

/// Relies on core::str::from_utf8: it returns a string exactly when the
/// bytes are valid UTF-8, and the string it returns has exactly those
/// bytes.
#[verifier::external_body]
fn try_str_from_utf8(b: &[u8]) -> (r: Option<&str>)
    ensures
        match r {
            Some(s) => s.spec_bytes() == b@,
            None => !valid_utf8(b@),
        },
{
    core::str::from_utf8(b).ok()
}

/// Read eight bytes as a little-endian count or length.
fn parse_u64(bytes: &Vec<u8>, pos: usize) -> (r: Option<(u64, usize)>)
    requires
        pos <= bytes@.len(),
    ensures
        match r {
            Some(xp) => {
                &&& xp.1 == pos + 8
                &&& xp.1 <= bytes@.len()
                &&& bytes@.subrange(pos as int, xp.1 as int) == spec_u64_to_le_bytes(xp.0)
            },
            None => bytes@.len() < pos + 8,
        },
{
    if bytes.len() - pos < 8 {
        return None;
    }
    let s = slice_subrange(bytes.as_slice(), pos, pos + 8);
    let x = u64_from_le_bytes(s);
    proof {
        lemma_auto_spec_u64_to_from_le_bytes();
    }
    Some((x, pos + 8))
}

/// Read four bytes as a little-endian track or year number.
fn parse_u32(bytes: &Vec<u8>, pos: usize) -> (r: Option<(u32, usize)>)
    requires
        pos <= bytes@.len(),
    ensures
        match r {
            Some(xp) => {
                &&& xp.1 == pos + 4
                &&& xp.1 <= bytes@.len()
                &&& bytes@.subrange(pos as int, xp.1 as int) == spec_u32_to_le_bytes(xp.0)
            },
            None => bytes@.len() < pos + 4,
        },
{
    if bytes.len() - pos < 4 {
        return None;
    }
    let s = slice_subrange(bytes.as_slice(), pos, pos + 4);
    let x = u32_from_le_bytes(s);
    proof {
        lemma_auto_spec_u32_to_from_le_bytes();
    }
    Some((x, pos + 4))
}

/// Read one length-prefixed string. On failure, no encodable string's
/// encoding begins here.
fn parse_str(bytes: &Vec<u8>, pos: usize) -> (r: Option<(String, usize)>)
    requires
        pos <= bytes@.len(),
    ensures
        match r {
            Some(sp) => {
                &&& pos < sp.1 <= bytes@.len()
                &&& bytes@.subrange(pos as int, sp.1 as int) == enc_str(sp.0@)
                &&& encodable_str(sp.0@)
            },
            None => forall|s: Seq<char>|
                encodable_str(s) ==> !starts_with_bytes(bytes@.skip(pos as int), enc_str(s)),
        },
{
    let lr = parse_u64(bytes, pos);
    match lr {
        None => {
            proof {
                lemma_auto_spec_u64_to_from_le_bytes();
                assert forall|s: Seq<char>| encodable_str(s) implies !starts_with_bytes(
                    bytes@.skip(pos as int),
                    enc_str(s),
                ) by {
                    assert(spec_u64_to_le_bytes(encode_utf8(s).len() as u64).len() == 8);
                    assert(enc_str(s).len() >= 8);
                    assert(bytes@.skip(pos as int).len() < 8);
                }
            }
            None
        },
        Some((l, p1)) => {
            let rem = bytes.len() - p1;
            if l > rem as u64 {
                proof {
                    lemma_auto_spec_u64_to_from_le_bytes();
                    assert forall|s: Seq<char>| encodable_str(s) implies !starts_with_bytes(
                        bytes@.skip(pos as int),
                        enc_str(s),
                    ) by {
                        if starts_with_bytes(bytes@.skip(pos as int), enc_str(s)) {
                            let ls = encode_utf8(s).len() as u64;
                            lemma_starts_with_concat(
                                bytes@.skip(pos as int),
                                spec_u64_to_le_bytes(ls),
                                encode_utf8(s),
                            );
                            assert(spec_u64_to_le_bytes(ls) =~= bytes@.subrange(
                                pos as int,
                                p1 as int,
                            ));
                            assert(ls == l);
                            assert(bytes@.skip(pos as int).len() >= 8 + encode_utf8(s).len());
                        }
                    }
                }
                None
            } else {
                let ln = l as usize;
                let chunk = slice_subrange(bytes.as_slice(), p1, p1 + ln);
                let sr = try_str_from_utf8(chunk);
                match sr {
                    None => {
                        proof {
                            lemma_auto_spec_u64_to_from_le_bytes();
                            assert forall|s: Seq<char>| encodable_str(s) implies !starts_with_bytes(
                                bytes@.skip(pos as int),
                                enc_str(s),
                            ) by {
                                if starts_with_bytes(bytes@.skip(pos as int), enc_str(s)) {
                                    let ls = encode_utf8(s).len() as u64;
                                    lemma_starts_with_concat(
                                        bytes@.skip(pos as int),
                                        spec_u64_to_le_bytes(ls),
                                        encode_utf8(s),
                                    );
                                    assert(spec_u64_to_le_bytes(ls) =~= bytes@.subrange(
                                        pos as int,
                                        p1 as int,
                                    ));
                                    assert(ls == l);
                                    assert(encode_utf8(s) =~= bytes@.subrange(
                                        p1 as int,
                                        p1 + ln,
                                    ));
                                    encode_utf8_valid_utf8(s);
                                }
                            }
                        }
                        None
                    },
                    Some(st) => {
                        let owned = st.to_owned();
                        let np = p1 + ln;
                        proof {
                            assert(encode_utf8(owned@) == chunk@);
                            assert(encode_utf8(owned@).len() == ln);
                            assert((encode_utf8(owned@).len() as u64) == l);
                            assert(bytes@.subrange(pos as int, np as int) =~= enc_str(owned@));
                        }
                        Some((owned, np))
                    },
                }
            }
        },
    }
}

/// Read one optional duration. On failure, no duration's encoding begins
/// here.
fn parse_duration(bytes: &Vec<u8>, pos: usize) -> (r: Option<(Option<u64>, usize)>)
    requires
        pos <= bytes@.len(),
    ensures
        match r {
            Some(dp) => {
                &&& pos < dp.1 <= bytes@.len()
                &&& bytes@.subrange(pos as int, dp.1 as int) == enc_duration(dp.0)
            },
            None => forall|d: Option<u64>|
                !starts_with_bytes(bytes@.skip(pos as int), #[trigger] enc_duration(d)),
        },
{
    if pos >= bytes.len() {
        proof {
            assert forall|d: Option<u64>|
                !starts_with_bytes(bytes@.skip(pos as int), #[trigger] enc_duration(d)) by {
                assert(enc_duration(d).len() >= 1);
            }
        }
        return None;
    }
    let tag = bytes[pos];
    if tag == 0 {
        proof {
            assert(bytes@.subrange(pos as int, pos + 1) =~= enc_duration(None::<u64>));
        }
        Some((None, pos + 1))
    } else if tag == 1 {
        let xr = parse_u64(bytes, pos + 1);
        match xr {
            None => {
                proof {
                    lemma_auto_spec_u64_to_from_le_bytes();
                    assert forall|d: Option<u64>|
                        !starts_with_bytes(bytes@.skip(pos as int), #[trigger] enc_duration(d)) by {
                        if starts_with_bytes(bytes@.skip(pos as int), enc_duration(d)) {
                            match d {
                                None => {
                                    assert(enc_duration(d)[0] == 0);
                                    assert(bytes@.skip(pos as int)[0] == 1);
                                },
                                Some(x) => {
                                    assert(enc_duration(d).len() == 9);
                                    assert(bytes@.skip(pos as int).len() < 9);
                                },
                            }
                        }
                    }
                }
                None
            },
            Some((x, np)) => {
                proof {
                    assert(bytes@.subrange(pos as int, np as int) =~= enc_duration(Some(x)));
                }
                Some((Some(x), np))
            },
        }
    } else {
        proof {
            assert forall|d: Option<u64>|
                !starts_with_bytes(bytes@.skip(pos as int), #[trigger] enc_duration(d)) by {
                if starts_with_bytes(bytes@.skip(pos as int), enc_duration(d)) {
                    assert(enc_duration(d)[0] == 0 || enc_duration(d)[0] == 1);
                    assert(bytes@.skip(pos as int)[0] == tag);
                }
            }
        }
        None
    }
}

/// Read one song. On failure, no encodable song's encoding begins here.
#[verifier::rlimit(100)]
fn parse_song(bytes: &Vec<u8>, pos: usize) -> (r: Option<(Song, usize)>)
    requires
        pos <= bytes@.len(),
    ensures
        match r {
            Some(sp) => {
                &&& pos < sp.1 <= bytes@.len()
                &&& bytes@.subrange(pos as int, sp.1 as int) == enc_song(sp.0@)
                &&& encodable_song(sp.0@)
            },
            None => forall|d: SongData|
                encodable_song(d) ==> !starts_with_bytes(
                    bytes@.skip(pos as int),
                    #[trigger] enc_song(d),
                ),
        },
{
    // Each failing step shows that no song encoding can begin at `pos`:
    // the fields already read pin any candidate's fields one by one,
    // until the candidate would need the very field that failed.
    let a_r = parse_str(bytes, pos);
    let (artist, p1) = match a_r {
        Some(v) => v,
        None => {
            proof {
                assert forall|d: SongData| encodable_song(d) implies !starts_with_bytes(
                    bytes@.skip(pos as int),
                    #[trigger] enc_song(d),
                ) by {
                    if starts_with_bytes(bytes@.skip(pos as int), enc_song(d)) {
                        lemma_enc_song_nested(d);
                        lemma_starts_with_concat(
                            bytes@.skip(pos as int),
                            enc_str(d.artist),
                            enc_str(d.album) + (enc_str(d.title) + (enc_str(d.path)
                                + enc_song_tail5(d))),
                        );
                    }
                }
            }
            return None;
        },
    };
    let b_r = parse_str(bytes, p1);
    let (album, p2) = match b_r {
        Some(v) => v,
        None => {
            proof {
                assert forall|d: SongData| encodable_song(d) implies !starts_with_bytes(
                    bytes@.skip(pos as int),
                    #[trigger] enc_song(d),
                ) by {
                    if starts_with_bytes(bytes@.skip(pos as int), enc_song(d)) {
                        lemma_enc_song_nested(d);
                        lemma_advance_str(
                            bytes@,
                            pos as int,
                            p1 as int,
                            artist@,
                            d.artist,
                            enc_str(d.album) + (enc_str(d.title) + (enc_str(d.path)
                                + enc_song_tail5(d))),
                        );
                        lemma_starts_with_concat(
                            bytes@.skip(p1 as int),
                            enc_str(d.album),
                            enc_str(d.title) + (enc_str(d.path) + enc_song_tail5(d)),
                        );
                    }
                }
            }
            return None;
        },
    };
    let t_r = parse_str(bytes, p2);
    let (title, p3) = match t_r {
        Some(v) => v,
        None => {
            proof {
                assert forall|d: SongData| encodable_song(d) implies !starts_with_bytes(
                    bytes@.skip(pos as int),
                    #[trigger] enc_song(d),
                ) by {
                    if starts_with_bytes(bytes@.skip(pos as int), enc_song(d)) {
                        lemma_enc_song_nested(d);
                        lemma_advance_str(
                            bytes@,
                            pos as int,
                            p1 as int,
                            artist@,
                            d.artist,
                            enc_str(d.album) + (enc_str(d.title) + (enc_str(d.path)
                                + enc_song_tail5(d))),
                        );
                        lemma_advance_str(
                            bytes@,
                            p1 as int,
                            p2 as int,
                            album@,
                            d.album,
                            enc_str(d.title) + (enc_str(d.path) + enc_song_tail5(d)),
                        );
                        lemma_starts_with_concat(
                            bytes@.skip(p2 as int),
                            enc_str(d.title),
                            enc_str(d.path) + enc_song_tail5(d),
                        );
                    }
                }
            }
            return None;
        },
    };
    let pa_r = parse_str(bytes, p3);
    let (path, p4) = match pa_r {
        Some(v) => v,
        None => {
            proof {
                assert forall|d: SongData| encodable_song(d) implies !starts_with_bytes(
                    bytes@.skip(pos as int),
                    #[trigger] enc_song(d),
                ) by {
                    if starts_with_bytes(bytes@.skip(pos as int), enc_song(d)) {
                        lemma_enc_song_nested(d);
                        lemma_advance_str(
                            bytes@,
                            pos as int,
                            p1 as int,
                            artist@,
                            d.artist,
                            enc_str(d.album) + (enc_str(d.title) + (enc_str(d.path)
                                + enc_song_tail5(d))),
                        );
                        lemma_advance_str(
                            bytes@,
                            p1 as int,
                            p2 as int,
                            album@,
                            d.album,
                            enc_str(d.title) + (enc_str(d.path) + enc_song_tail5(d)),
                        );
                        lemma_advance_str(
                            bytes@,
                            p2 as int,
                            p3 as int,
                            title@,
                            d.title,
                            enc_str(d.path) + enc_song_tail5(d),
                        );
                        lemma_starts_with_concat(
                            bytes@.skip(p3 as int),
                            enc_str(d.path),
                            enc_song_tail5(d),
                        );
                    }
                }
            }
            return None;
        },
    };
    let du_r = parse_duration(bytes, p4);
    let (duration, p5) = match du_r {
        Some(v) => v,
        None => {
            proof {
                assert forall|d: SongData| encodable_song(d) implies !starts_with_bytes(
                    bytes@.skip(pos as int),
                    #[trigger] enc_song(d),
                ) by {
                    if starts_with_bytes(bytes@.skip(pos as int), enc_song(d)) {
                        lemma_enc_song_nested(d);
                        lemma_advance_str(
                            bytes@,
                            pos as int,
                            p1 as int,
                            artist@,
                            d.artist,
                            enc_str(d.album) + (enc_str(d.title) + (enc_str(d.path)
                                + enc_song_tail5(d))),
                        );
                        lemma_advance_str(
                            bytes@,
                            p1 as int,
                            p2 as int,
                            album@,
                            d.album,
                            enc_str(d.title) + (enc_str(d.path) + enc_song_tail5(d)),
                        );
                        lemma_advance_str(
                            bytes@,
                            p2 as int,
                            p3 as int,
                            title@,
                            d.title,
                            enc_str(d.path) + enc_song_tail5(d),
                        );
                        lemma_advance_str(
                            bytes@,
                            p3 as int,
                            p4 as int,
                            path@,
                            d.path,
                            enc_song_tail5(d),
                        );
                        assert(enc_song_tail5(d) =~= enc_duration(d.duration) + (
                        spec_u32_to_le_bytes(d.track) + (spec_u32_to_le_bytes(d.year) + enc_str(
                            d.genre,
                        ))));
                        lemma_starts_with_concat(
                            bytes@.skip(p4 as int),
                            enc_duration(d.duration),
                            spec_u32_to_le_bytes(d.track) + (spec_u32_to_le_bytes(d.year)
                                + enc_str(d.genre)),
                        );
                    }
                }
            }
            return None;
        },
    };
    let tr_r = parse_u32(bytes, p5);
    let (track, p6) = match tr_r {
        Some(v) => v,
        None => {
            proof {
                assert forall|d: SongData| encodable_song(d) implies !starts_with_bytes(
                    bytes@.skip(pos as int),
                    #[trigger] enc_song(d),
                ) by {
                    if starts_with_bytes(bytes@.skip(pos as int), enc_song(d)) {
                        lemma_enc_song_nested(d);
                        lemma_advance_str(
                            bytes@,
                            pos as int,
                            p1 as int,
                            artist@,
                            d.artist,
                            enc_str(d.album) + (enc_str(d.title) + (enc_str(d.path)
                                + enc_song_tail5(d))),
                        );
                        lemma_advance_str(
                            bytes@,
                            p1 as int,
                            p2 as int,
                            album@,
                            d.album,
                            enc_str(d.title) + (enc_str(d.path) + enc_song_tail5(d)),
                        );
                        lemma_advance_str(
                            bytes@,
                            p2 as int,
                            p3 as int,
                            title@,
                            d.title,
                            enc_str(d.path) + enc_song_tail5(d),
                        );
                        lemma_advance_str(
                            bytes@,
                            p3 as int,
                            p4 as int,
                            path@,
                            d.path,
                            enc_song_tail5(d),
                        );
                        assert(enc_song_tail5(d) =~= enc_duration(d.duration) + (
                        spec_u32_to_le_bytes(d.track) + (spec_u32_to_le_bytes(d.year) + enc_str(
                            d.genre,
                        ))));
                        lemma_advance_duration(
                            bytes@,
                            p4 as int,
                            p5 as int,
                            duration,
                            d.duration,
                            spec_u32_to_le_bytes(d.track) + (spec_u32_to_le_bytes(d.year)
                                + enc_str(d.genre)),
                        );
                        lemma_starts_with_concat(
                            bytes@.skip(p5 as int),
                            spec_u32_to_le_bytes(d.track),
                            spec_u32_to_le_bytes(d.year) + enc_str(d.genre),
                        );
                        lemma_auto_spec_u32_to_from_le_bytes();
                    }
                }
            }
            return None;
        },
    };
    let yr_r = parse_u32(bytes, p6);
    let (year, p7) = match yr_r {
        Some(v) => v,
        None => {
            proof {
                assert forall|d: SongData| encodable_song(d) implies !starts_with_bytes(
                    bytes@.skip(pos as int),
                    #[trigger] enc_song(d),
                ) by {
                    if starts_with_bytes(bytes@.skip(pos as int), enc_song(d)) {
                        lemma_enc_song_nested(d);
                        lemma_advance_str(
                            bytes@,
                            pos as int,
                            p1 as int,
                            artist@,
                            d.artist,
                            enc_str(d.album) + (enc_str(d.title) + (enc_str(d.path)
                                + enc_song_tail5(d))),
                        );
                        lemma_advance_str(
                            bytes@,
                            p1 as int,
                            p2 as int,
                            album@,
                            d.album,
                            enc_str(d.title) + (enc_str(d.path) + enc_song_tail5(d)),
                        );
                        lemma_advance_str(
                            bytes@,
                            p2 as int,
                            p3 as int,
                            title@,
                            d.title,
                            enc_str(d.path) + enc_song_tail5(d),
                        );
                        lemma_advance_str(
                            bytes@,
                            p3 as int,
                            p4 as int,
                            path@,
                            d.path,
                            enc_song_tail5(d),
                        );
                        assert(enc_song_tail5(d) =~= enc_duration(d.duration) + (
                        spec_u32_to_le_bytes(d.track) + (spec_u32_to_le_bytes(d.year) + enc_str(
                            d.genre,
                        ))));
                        lemma_advance_duration(
                            bytes@,
                            p4 as int,
                            p5 as int,
                            duration,
                            d.duration,
                            spec_u32_to_le_bytes(d.track) + (spec_u32_to_le_bytes(d.year)
                                + enc_str(d.genre)),
                        );
                        lemma_advance_u32(
                            bytes@,
                            p5 as int,
                            p6 as int,
                            track,
                            d.track,
                            spec_u32_to_le_bytes(d.year) + enc_str(d.genre),
                        );
                        lemma_starts_with_concat(
                            bytes@.skip(p6 as int),
                            spec_u32_to_le_bytes(d.year),
                            enc_str(d.genre),
                        );
                        lemma_auto_spec_u32_to_from_le_bytes();
                    }
                }
            }
            return None;
        },
    };
    let g_r = parse_str(bytes, p7);
    let (genre, p8) = match g_r {
        Some(v) => v,
        None => {
            proof {
                assert forall|d: SongData| encodable_song(d) implies !starts_with_bytes(
                    bytes@.skip(pos as int),
                    #[trigger] enc_song(d),
                ) by {
                    if starts_with_bytes(bytes@.skip(pos as int), enc_song(d)) {
                        lemma_enc_song_nested(d);
                        lemma_advance_str(
                            bytes@,
                            pos as int,
                            p1 as int,
                            artist@,
                            d.artist,
                            enc_str(d.album) + (enc_str(d.title) + (enc_str(d.path)
                                + enc_song_tail5(d))),
                        );
                        lemma_advance_str(
                            bytes@,
                            p1 as int,
                            p2 as int,
                            album@,
                            d.album,
                            enc_str(d.title) + (enc_str(d.path) + enc_song_tail5(d)),
                        );
                        lemma_advance_str(
                            bytes@,
                            p2 as int,
                            p3 as int,
                            title@,
                            d.title,
                            enc_str(d.path) + enc_song_tail5(d),
                        );
                        lemma_advance_str(
                            bytes@,
                            p3 as int,
                            p4 as int,
                            path@,
                            d.path,
                            enc_song_tail5(d),
                        );
                        assert(enc_song_tail5(d) =~= enc_duration(d.duration) + (
                        spec_u32_to_le_bytes(d.track) + (spec_u32_to_le_bytes(d.year) + enc_str(
                            d.genre,
                        ))));
                        lemma_advance_duration(
                            bytes@,
                            p4 as int,
                            p5 as int,
                            duration,
                            d.duration,
                            spec_u32_to_le_bytes(d.track) + (spec_u32_to_le_bytes(d.year)
                                + enc_str(d.genre)),
                        );
                        lemma_advance_u32(
                            bytes@,
                            p5 as int,
                            p6 as int,
                            track,
                            d.track,
                            spec_u32_to_le_bytes(d.year) + enc_str(d.genre),
                        );
                        lemma_advance_u32(
                            bytes@,
                            p6 as int,
                            p7 as int,
                            year,
                            d.year,
                            enc_str(d.genre),
                        );
                        assert(enc_str(d.genre) + Seq::<u8>::empty() =~= enc_str(d.genre));
                        lemma_starts_with_concat(
                            bytes@.skip(p7 as int),
                            enc_str(d.genre),
                            Seq::<u8>::empty(),
                        );
                    }
                }
            }
            return None;
        },
    };
    let song = Song { artist, album, title, path, duration, track, year, genre };
    proof {
        lemma_enc_song_nested(song@);
        assert(bytes@.subrange(pos as int, p8 as int) =~= enc_song_nested(song@)) by {
            assert(bytes@.subrange(pos as int, p8 as int) =~= bytes@.subrange(pos as int, p1 as int)
                + bytes@.subrange(p1 as int, p2 as int) + bytes@.subrange(p2 as int, p3 as int)
                + bytes@.subrange(p3 as int, p4 as int) + bytes@.subrange(p4 as int, p5 as int)
                + bytes@.subrange(p5 as int, p6 as int) + bytes@.subrange(p6 as int, p7 as int)
                + bytes@.subrange(p7 as int, p8 as int));
        }
    }
    Some((song, p8))
}

/// If a valid image exists, the song its encoding puts at position `k`
/// begins exactly where the decoder stands.
#[verifier::rlimit(100)]
proof fn lemma_expected_song(bytes: Seq<u8>, pos: int, count: u64, k: u64, v: Seq<SongData>)
    requires
        8 <= pos <= bytes.len(),
        k < count,
        encodable(v),
        bytes == encode_songs(v),
        v.len() == count,
        pos == 8 + enc_song_list(v.take(k as int)).len(),
    ensures
        starts_with_bytes(bytes.skip(pos), enc_song(v[k as int])),
        encodable_song(v[k as int]),
{
    lemma_auto_spec_u64_to_from_le_bytes();
    lemma_enc_song_list_split(v, k as int);
    lemma_enc_song_list_first(v.skip(k as int));
    assert(v.skip(k as int)[0] == v[k as int]);
    let pre = spec_u64_to_le_bytes(v.len() as u64) + enc_song_list(v.take(k as int));
    assert(pre.len() == pos);
    assert(bytes =~= pre + enc_song_list(v.skip(k as int)));
    assert(bytes.skip(pos) =~= enc_song_list(v.skip(k as int)));
    assert(enc_song_list(v.skip(k as int)) == enc_song(v[k as int]) + enc_song_list(
        v.skip(k as int).drop_first(),
    ));
    assert(starts_with_bytes(
        bytes.skip(pos),
        enc_song(v[k as int]) + enc_song_list(v.skip(k as int).drop_first()),
    )) by {
        let whole = enc_song(v[k as int]) + enc_song_list(v.skip(k as int).drop_first());
        assert(bytes.skip(pos).subrange(0, whole.len() as int) =~= whole);
    }
    lemma_starts_with_concat(
        bytes.skip(pos),
        enc_song(v[k as int]),
        enc_song_list(v.skip(k as int).drop_first()),
    );
}

/// One decoded song advances the decoder exactly as any valid image
/// demands: the parsed song is the image's song, and the position lands
/// on the next one.
#[verifier::rlimit(100)]
proof fn lemma_loop_step(
    bytes: Seq<u8>,
    old_pos: int,
    new_pos: int,
    count: u64,
    k: u64,
    old_sv: Seq<SongData>,
    song: SongData,
)
    requires
        8 <= old_pos <= new_pos <= bytes.len(),
        k < count,
        old_sv.len() == k,
        bytes.subrange(old_pos, new_pos) == enc_song(song),
        encodable_song(song),
        forall|v: Seq<SongData>|
            encodable(v) && bytes == encode_songs(v) ==> {
                &&& v.len() == count
                &&& old_sv == v.take(k as int)
                &&& old_pos == 8 + enc_song_list(v.take(k as int)).len()
            },
    ensures
        forall|v: Seq<SongData>|
            encodable(v) && bytes == encode_songs(v) ==> {
                &&& v.len() == count
                &&& old_sv.push(song) == v.take(k + 1)
                &&& new_pos == 8 + enc_song_list(v.take(k + 1)).len()
            },
{
    assert forall|v: Seq<SongData>| encodable(v) && bytes == encode_songs(v) implies {
        &&& v.len() == count
        &&& old_sv.push(song) == v.take(k + 1)
        &&& new_pos == 8 + enc_song_list(v.take(k + 1)).len()
    } by {
        lemma_expected_song(bytes, old_pos, count, k, v);
        assert(starts_with_bytes(bytes.skip(old_pos), enc_song(song))) by {
            assert(bytes.skip(old_pos).subrange(0, new_pos - old_pos) =~= bytes.subrange(
                old_pos,
                new_pos,
            ));
        }
        lemma_enc_song_unique(bytes.skip(old_pos), song, v[k as int]);
        assert(old_sv.push(song) =~= v.take(k + 1)) by {
            assert(v.take(k + 1).drop_last() =~= v.take(k as int));
            assert(v.take(k + 1)[k as int] == v[k as int]);
            assert(forall|i: int|
                0 <= i < k ==> old_sv.push(song)[i] == #[trigger] v.take(k as int)[i]);
        }
        assert(v.take(k + 1).drop_last() =~= v.take(k as int));
        assert(v.take(k + 1).last() == v[k as int]);
        assert(enc_song_list(v.take(k + 1)) == enc_song_list(v.take(k as int)) + enc_song(
            v[k as int],
        ));
        assert(new_pos - old_pos == enc_song(song).len());
    }
}

/// Deserialize a cache image. Exactly the images `save_cache` produces
/// are accepted, and each returns exactly the collection it was written
/// from; anything else is rejected as corrupt.
#[verifier::rlimit(100)]
pub fn load_cache(bytes: &Vec<u8>) -> (r: Option<Vec<Song>>)
    ensures
        match r {
            Some(songs) => {
                &&& bytes@ == encode_songs(songs_view(songs@))
                &&& encodable(songs_view(songs@))
            },
            None => forall|v: Seq<SongData>| encodable(v) ==> bytes@ != encode_songs(v),
        },
        forall|v: Seq<SongData>|
            encodable(v) && bytes@ == encode_songs(v) ==> (match r {
                Some(songs) => songs_view(songs@) == v,
                None => false,
            }),
{
    let cr = parse_u64(bytes, 0);
    let (count, start) = match cr {
        Some(v) => v,
        None => {
            proof {
                lemma_auto_spec_u64_to_from_le_bytes();
                assert forall|v: Seq<SongData>| encodable(v) implies bytes@ != encode_songs(
                    v,
                ) by {
                    assert(encode_songs(v).len() >= 8);
                }
            }
            return None;
        },
    };
    let mut acc: Vec<Song> = Vec::new();
    let mut pos: usize = start;
    let mut k: u64 = 0;
    proof {
        lemma_auto_spec_u64_to_from_le_bytes();
        assert(songs_view(acc@) =~= Seq::<SongData>::empty());
        assert(bytes@.subrange(8, 8) =~= Seq::<u8>::empty());
        assert forall|v: Seq<SongData>|
            encodable(v) && bytes@ == encode_songs(v) implies {
            &&& v.len() == count
            &&& songs_view(acc@) == v.take(0)
            &&& pos == 8 + enc_song_list(v.take(0)).len()
        } by {
            assert(bytes@.subrange(0, 8) =~= spec_u64_to_le_bytes(v.len() as u64));
            assert(count == v.len() as u64);
            assert(v.take(0) =~= Seq::<SongData>::empty());
        }
    }
    while k < count
        invariant
            8 <= pos <= bytes@.len(),
            k <= count,
            acc@.len() == k,
            bytes@.subrange(0, 8) == spec_u64_to_le_bytes(count),
            bytes@.subrange(8, pos as int) == enc_song_list(songs_view(acc@)),
            forall|i: int| 0 <= i < k ==> encodable_song(#[trigger] songs_view(acc@)[i]),
            forall|v: Seq<SongData>|
                encodable(v) && bytes@ == encode_songs(v) ==> {
                    &&& v.len() == count
                    &&& songs_view(acc@) == v.take(k as int)
                    &&& pos == 8 + enc_song_list(v.take(k as int)).len()
                },
        decreases count - k,
    {
        let sr = parse_song(bytes, pos);
        match sr {
            None => {
                proof {
                    assert forall|v: Seq<SongData>| encodable(v) implies bytes@ != encode_songs(
                        v,
                    ) by {
                        if bytes@ == encode_songs(v) {
                            lemma_expected_song(bytes@, pos as int, count, k, v);
                        }
                    }
                }
                return None;
            },
            Some((song, np)) => {
                let ghost old_acc = acc@;
                let ghost old_pos = pos as int;
                acc.push(song);
                pos = np;
                proof {
                    let sv = songs_view(acc@);
                    let old_sv = songs_view(old_acc);
                    assert(sv.drop_last() =~= old_sv);
                    assert(sv.last() == song@);
                    assert(sv =~= old_sv.push(song@));
                    assert(enc_song_list(sv) == enc_song_list(old_sv) + enc_song(song@));
                    assert(bytes@.subrange(8, pos as int) =~= bytes@.subrange(8, old_pos)
                        + bytes@.subrange(old_pos, pos as int));
                    assert(bytes@.subrange(8, pos as int) == enc_song_list(sv));
                    lemma_loop_step(bytes@, old_pos, pos as int, count, k, old_sv, song@);
                }
                k = k + 1;
            },
        }
    }
    if pos != bytes.len() {
        proof {
            assert forall|v: Seq<SongData>| encodable(v) implies bytes@ != encode_songs(v) by {
                if bytes@ == encode_songs(v) {
                    assert(v.take(k as int) =~= v);
                    assert(bytes@.len() == 8 + enc_song_list(v).len());
                }
            }
        }
        return None;
    }
    proof {
        let sv = songs_view(acc@);
        assert(sv.len() == count);
        assert(bytes@ =~= bytes@.subrange(0, 8) + bytes@.subrange(8, bytes@.len() as int));
        assert(bytes@ == encode_songs(sv));
        assert(encodable(sv));
        assert forall|v: Seq<SongData>|
            encodable(v) && bytes@ == encode_songs(v) implies sv == v by {
            assert(v.take(k as int) =~= v);
        }
    }
    Some(acc)
}

/// Serialize the song collection into its cache image. The surrounding
/// shell only writes these bytes to the cache file.
pub fn save_cache(songs: &Vec<Song>) -> (r: Vec<u8>)
    ensures
        r@ == encode_songs(songs_view(songs@)),
        encodable(songs_view(songs@)),
{
    let mut out: Vec<u8> = Vec::new();
    let n = songs.len();
    let cv = u64_to_le_bytes(n as u64);
    out.extend_from_slice(cv.as_slice());
    let mut k: usize = 0;
    while k < n
        invariant
            k <= n,
            n == songs@.len(),
            out@ == spec_u64_to_le_bytes(n as u64) + enc_song_list(songs_view(songs@).take(
                k as int,
            )),
            forall|i: int| 0 <= i < k ==> encodable_song(#[trigger] songs_view(songs@)[i]),
        decreases n - k,
    {
        push_song(&mut out, &songs[k]);
        proof {
            let sv = songs_view(songs@);
            assert(sv.take(k + 1).drop_last() =~= sv.take(k as int));
            assert(sv.take(k + 1).last() == sv[k as int]);
            assert(sv[k as int] == songs@[k as int]@);
            assert(enc_song_list(sv.take(k + 1)) == enc_song_list(sv.take(k as int)) + enc_song(
                sv[k as int],
            ));
            assert(out@ =~= spec_u64_to_le_bytes(n as u64) + enc_song_list(sv.take(k + 1)));
        }
        k += 1;
    }
    proof {
        assert(songs_view(songs@).take(n as int) =~= songs_view(songs@));
    }
    out
}

} // verus!
