//! The library index: albums and artists derived from the flat song
//! collection. Both are views over it — they hold indices, never copies —
//! and both lists are strictly sorted, so the same songs always derive the
//! same index.
use vstd::prelude::*;

use crate::order::{lex_lt, views_of, strictly_sorted, str_eq, sorted_contains, insert_sorted};
use crate::song::Song;

verus! {

/// One album: its title, the distinct artists heard on it (strictly
/// sorted, so membership can be tested by binary search), and the indices
/// of its songs in the song collection, in that collection's order.
#[derive(Clone, Debug)]
pub struct Album {
    pub title: String,
    pub artists: Vec<String>,
    pub songs: Vec<usize>,
}

/// One artist: the name and the indices, in index order, of the albums
/// whose artist set holds the name.
#[derive(Clone, Debug)]
pub struct Artist {
    pub name: String,
    pub albums: Vec<usize>,
}

/// The album titles, in list order.
pub open spec fn album_titles(albums: Seq<Album>) -> Seq<Seq<char>> {
    Seq::new(albums.len(), |i: int| albums[i].title@)
}

/// The artist names, in list order.
pub open spec fn artist_names(artists: Seq<Artist>) -> Seq<Seq<char>> {
    Seq::new(artists.len(), |i: int| artists[i].name@)
}

/// Whether the album's artist set holds this name.
pub open spec fn album_has_artist(a: Album, name: Seq<char>) -> bool {
    views_of(a.artists@).contains(name)
}

/// The structural invariant of one album against the song collection:
/// artists strictly sorted, and the song indices valid, ascending, and
/// pointing only at songs of this album.
pub open spec fn album_wf(songs: Seq<Song>, a: Album) -> bool {
    &&& strictly_sorted(views_of(a.artists@))
    &&& forall|k: int|
        0 <= k < a.songs@.len() ==> (#[trigger] a.songs@[k]) < songs.len() && songs[a.songs@[k] as int]@.album
            == a.title@
    &&& forall|k1: int, k2: int|
        0 <= k1 < k2 < a.songs@.len() ==> a.songs@[k1] < a.songs@[k2]
}

/// The album lists every song of its title: nothing is dropped.
pub open spec fn album_complete(songs: Seq<Song>, a: Album) -> bool {
    forall|j: int|
        0 <= j < songs.len() && (#[trigger] songs[j])@.album == a.title@ ==> exists|k: int|
            0 <= k < a.songs@.len() && a.songs@[k] as int == j
}

/// The album's artist set holds exactly the artists of its songs.
pub open spec fn album_artists_exact(songs: Seq<Song>, a: Album) -> bool {
    forall|t: Seq<char>|
        #[trigger] views_of(a.artists@).contains(t) <==> exists|j: int|
            0 <= j < songs.len() && (#[trigger] songs[j])@.album == a.title@ && songs[j]@.artist
                == t
}

/// Everything `init_albums` promises of one derived album.
pub open spec fn album_exact(songs: Seq<Song>, a: Album) -> bool {
    &&& album_wf(songs, a)
    &&& album_complete(songs, a)
    &&& album_artists_exact(songs, a)
}

/// The well-formedness the navigation engine needs of a derived album
/// list: every album obeys its own invariant.
pub open spec fn albums_wf(songs: Seq<Song>, albums: Seq<Album>) -> bool {
    forall|i: int| 0 <= i < albums.len() ==> album_wf(songs, #[trigger] albums[i])
}

/// The structural invariant of one artist against the album list:
/// album indices valid, ascending, and pointing only at albums that hold
/// the name — the membership half of the artist/album relation.
pub open spec fn artist_wf(albums: Seq<Album>, a: Artist) -> bool {
    &&& forall|k: int|
        0 <= k < a.albums@.len() ==> (#[trigger] a.albums@[k]) < albums.len() && album_has_artist(
            albums[a.albums@[k] as int],
            a.name@,
        )
    &&& forall|k1: int, k2: int|
        0 <= k1 < k2 < a.albums@.len() ==> a.albums@[k1] < a.albums@[k2]
}

/// The artist lists every album that holds the name: nothing is dropped.
pub open spec fn artist_complete(albums: Seq<Album>, a: Artist) -> bool {
    forall|j: int|
        0 <= j < albums.len() && album_has_artist(#[trigger] albums[j], a.name@) ==> exists|k: int|
            0 <= k < a.albums@.len() && a.albums@[k] as int == j
}

/// The indices, in ascending order, of the songs whose album field equals
/// `title`.
fn songs_of_album(songs: &Vec<Song>, title: &str) -> (r: Vec<usize>)
    ensures
        forall|k: int|
            0 <= k < r@.len() ==> (#[trigger] r@[k]) < songs@.len() && songs@[r@[k] as int]@.album
                == title@,
        forall|k1: int, k2: int| 0 <= k1 < k2 < r@.len() ==> r@[k1] < r@[k2],
        forall|j: int|
            0 <= j < songs@.len() && (#[trigger] songs@[j])@.album == title@ ==> exists|k: int|
                0 <= k < r@.len() && r@[k] as int == j,
{
    let mut r: Vec<usize> = Vec::new();
    let mut j: usize = 0;
    while j < songs.len()
        invariant
            j <= songs@.len(),
            forall|k: int|
                0 <= k < r@.len() ==> (#[trigger] r@[k]) < j && songs@[r@[k] as int]@.album
                    == title@,
            forall|k1: int, k2: int| 0 <= k1 < k2 < r@.len() ==> r@[k1] < r@[k2],
            forall|i: int|
                0 <= i < j && (#[trigger] songs@[i])@.album == title@ ==> exists|k: int|
                    0 <= k < r@.len() && r@[k] as int == i,
        decreases songs@.len() - j,
    {
        if str_eq(songs[j].album.as_str(), title) {
            let ghost old_r = r@;
            r.push(j);
            proof {
                assert(r@[r@.len() - 1] as int == j as int);
                assert(forall|k: int| 0 <= k < old_r.len() ==> r@[k] == old_r[k]);
            }
        }
        j += 1;
    }
    r
}

/// The distinct artists among the songs at the given indices, strictly
/// sorted ascending.
fn artists_of_songs(songs: &Vec<Song>, idxs: &Vec<usize>) -> (r: Vec<String>)
    requires
        forall|k: int| 0 <= k < idxs@.len() ==> (#[trigger] idxs@[k]) < songs@.len(),
    ensures
        strictly_sorted(views_of(r@)),
        forall|t: Seq<char>|
            #[trigger] views_of(r@).contains(t) <==> exists|k: int|
                0 <= k < idxs@.len() && songs@[#[trigger] idxs@[k] as int]@.artist == t,
{
    let mut r: Vec<String> = Vec::new();
    let mut k: usize = 0;
    while k < idxs.len()
        invariant
            k <= idxs@.len(),
            forall|k0: int| 0 <= k0 < idxs@.len() ==> (#[trigger] idxs@[k0]) < songs@.len(),
            strictly_sorted(views_of(r@)),
            forall|t: Seq<char>|
                #[trigger] views_of(r@).contains(t) <==> exists|k0: int|
                    0 <= k0 < k && songs@[#[trigger] idxs@[k0] as int]@.artist == t,
        decreases idxs@.len() - k,
    {
        insert_sorted(&mut r, &songs[idxs[k]].artist);
        k += 1;
    }
    r
}

/// Derive the album list from the song collection: the distinct album
/// titles in strictly ascending order, each with its songs (in collection
/// order) and its strictly sorted distinct artist set. The same songs
/// always produce the same list.
pub fn init_albums(file_data: &Vec<Song>) -> (r: Vec<Album>)
    ensures
        strictly_sorted(album_titles(r@)),
        forall|t: Seq<char>|
            #[trigger] album_titles(r@).contains(t) <==> exists|j: int|
                0 <= j < file_data@.len() && (#[trigger] file_data@[j])@.album == t,
        forall|i: int| 0 <= i < r@.len() ==> album_exact(file_data@, #[trigger] r@[i]),
{
    // The strictly ascending list of distinct album titles.
    let mut titles: Vec<String> = Vec::new();
    let mut j: usize = 0;
    while j < file_data.len()
        invariant
            j <= file_data@.len(),
            strictly_sorted(views_of(titles@)),
            forall|t: Seq<char>|
                #[trigger] views_of(titles@).contains(t) <==> exists|i: int|
                    0 <= i < j && (#[trigger] file_data@[i])@.album == t,
        decreases file_data@.len() - j,
    {
        insert_sorted(&mut titles, &file_data[j].album);
        j += 1;
    }
    // One album record per title.
    let mut albums: Vec<Album> = Vec::new();
    let mut i: usize = 0;
    while i < titles.len()
        invariant
            i <= titles@.len(),
            albums@.len() == i,
            strictly_sorted(views_of(titles@)),
            forall|t: Seq<char>|
                #[trigger] views_of(titles@).contains(t) <==> exists|i0: int|
                    0 <= i0 < file_data@.len() && (#[trigger] file_data@[i0])@.album == t,
            forall|i0: int| 0 <= i0 < i ==> (#[trigger] albums@[i0]).title@ == views_of(titles@)[i0],
            forall|i0: int| 0 <= i0 < i ==> album_exact(file_data@, #[trigger] albums@[i0]),
        decreases titles@.len() - i,
    {
        let title = titles[i].clone();
        let idxs = songs_of_album(file_data, title.as_str());
        let artists = artists_of_songs(file_data, &idxs);
        let album = Album { title, artists, songs: idxs };
        proof {
            // The artists gathered from this album's song indices are
            // exactly the artists of the songs carrying this title.
            assert(album_artists_exact(file_data@, album)) by {
                assert forall|t: Seq<char>| #[trigger]
                    views_of(album.artists@).contains(t) implies exists|j0: int|
                    0 <= j0 < file_data@.len() && (#[trigger] file_data@[j0])@.album
                        == album.title@ && file_data@[j0]@.artist == t by {
                    let k = choose|k: int|
                        0 <= k < idxs@.len() && file_data@[#[trigger] idxs@[k] as int]@.artist
                            == t;
                    let j0 = idxs@[k] as int;
                    assert(file_data@[j0]@.album == album.title@);
                    assert(file_data@[j0]@.artist == t);
                }
                assert forall|t: Seq<char>|
                    (exists|j0: int|
                        0 <= j0 < file_data@.len() && (#[trigger] file_data@[j0])@.album
                            == album.title@ && file_data@[j0]@.artist == t) implies #[trigger]
                views_of(album.artists@).contains(t) by {
                    let j0 = choose|j0: int|
                        0 <= j0 < file_data@.len() && (#[trigger] file_data@[j0])@.album
                            == album.title@ && file_data@[j0]@.artist == t;
                    let k = choose|k: int| 0 <= k < idxs@.len() && idxs@[k] as int == j0;
                    assert(file_data@[#[trigger] idxs@[k] as int]@.artist == t);
                }
            }
        }
        let ghost old_albums = albums@;
        albums.push(album);
        proof {
            assert(forall|i0: int| 0 <= i0 < old_albums.len() ==> albums@[i0] == old_albums[i0]);
        }
        i += 1;
    }
    proof {
        assert(album_titles(albums@) =~= views_of(titles@));
    }
    albums
}

/// The titles, in album-list order, of exactly the albums whose artist
/// set holds `name`: what the album column shows for a selected artist.
pub open spec fn artist_album_titles(albums: Seq<Album>, name: Seq<char>) -> Seq<Seq<char>>
    decreases albums.len(),
{
    if albums.len() == 0 {
        Seq::empty()
    } else {
        let rest = artist_album_titles(albums.drop_last(), name);
        if album_has_artist(albums.last(), name) {
            rest.push(albums.last().title@)
        } else {
            rest
        }
    }
}

/// Collect the titles of the albums that hold `name`, in album-list
/// order, testing membership by binary search in each sorted artist set.
pub fn album_titles_for_artist(albums: &Vec<Album>, name: &str) -> (r: Vec<String>)
    requires
        forall|i: int|
            0 <= i < albums@.len() ==> strictly_sorted(views_of((#[trigger] albums@[i]).artists@)),
    ensures
        views_of(r@) == artist_album_titles(albums@, name@),
{
    let mut r: Vec<String> = Vec::new();
    let mut j: usize = 0;
    while j < albums.len()
        invariant
            j <= albums@.len(),
            forall|i: int|
                0 <= i < albums@.len() ==> strictly_sorted(
                    views_of((#[trigger] albums@[i]).artists@),
                ),
            views_of(r@) == artist_album_titles(albums@.subrange(0, j as int), name@),
        decreases albums@.len() - j,
    {
        let ghost pre = albums@.subrange(0, j as int);
        if sorted_contains(&albums[j].artists, name) {
            let ghost old_r = r@;
            r.push(albums[j].title.clone());
            proof {
                assert(views_of(r@) =~= views_of(old_r).push(albums@[j as int].title@));
            }
        }
        proof {
            assert(albums@.subrange(0, j + 1).drop_last() =~= pre);
            assert(albums@.subrange(0, j + 1).last() == albums@[j as int]);
            assert(views_of(r@) == artist_album_titles(albums@.subrange(0, j + 1), name@));
        }
        j += 1;
    }
    proof {
        assert(albums@.subrange(0, albums@.len() as int) =~= albums@);
    }
    r
}

/// The indices, ascending, of the albums whose artist set holds `name`,
/// found by binary search over each album's sorted artist list.
fn albums_of_artist(albums: &Vec<Album>, name: &str) -> (r: Vec<usize>)
    requires
        forall|i: int|
            0 <= i < albums@.len() ==> strictly_sorted(views_of((#[trigger] albums@[i]).artists@)),
    ensures
        forall|k: int|
            0 <= k < r@.len() ==> (#[trigger] r@[k]) < albums@.len() && album_has_artist(
                albums@[r@[k] as int],
                name@,
            ),
        forall|k1: int, k2: int| 0 <= k1 < k2 < r@.len() ==> r@[k1] < r@[k2],
        forall|j: int|
            0 <= j < albums@.len() && album_has_artist(#[trigger] albums@[j], name@)
                ==> exists|k: int| 0 <= k < r@.len() && r@[k] as int == j,
{
    let mut r: Vec<usize> = Vec::new();
    let mut j: usize = 0;
    while j < albums.len()
        invariant
            j <= albums@.len(),
            forall|i: int|
                0 <= i < albums@.len() ==> strictly_sorted(
                    views_of((#[trigger] albums@[i]).artists@),
                ),
            forall|k: int|
                0 <= k < r@.len() ==> (#[trigger] r@[k]) < j && album_has_artist(
                    albums@[r@[k] as int],
                    name@,
                ),
            forall|k1: int, k2: int| 0 <= k1 < k2 < r@.len() ==> r@[k1] < r@[k2],
            forall|i: int|
                0 <= i < j && album_has_artist(#[trigger] albums@[i], name@) ==> exists|k: int|
                    0 <= k < r@.len() && r@[k] as int == i,
        decreases albums@.len() - j,
    {
        if sorted_contains(&albums[j].artists, name) {
            let ghost old_r = r@;
            r.push(j);
            proof {
                assert(r@[r@.len() - 1] as int == j as int);
                assert(forall|k: int| 0 <= k < old_r.len() ==> r@[k] == old_r[k]);
            }
        }
        j += 1;
    }
    r
}

/// Derive the artist list: the distinct artist names in strictly
/// ascending order, each with the ascending indices of exactly the albums
/// whose artist set holds the name. The same input always produces the
/// same list.
pub fn init_artists(songs: &Vec<Song>, albums: &Vec<Album>) -> (r: Vec<Artist>)
    requires
        forall|i: int|
            0 <= i < albums@.len() ==> strictly_sorted(views_of((#[trigger] albums@[i]).artists@)),
    ensures
        strictly_sorted(artist_names(r@)),
        forall|t: Seq<char>|
            #[trigger] artist_names(r@).contains(t) <==> exists|j: int|
                0 <= j < songs@.len() && (#[trigger] songs@[j])@.artist == t,
        forall|i: int| 0 <= i < r@.len() ==> artist_wf(albums@, #[trigger] r@[i]),
        forall|i: int| 0 <= i < r@.len() ==> artist_complete(albums@, #[trigger] r@[i]),
{
    // The strictly ascending list of distinct artist names.
    let mut names: Vec<String> = Vec::new();
    let mut j: usize = 0;
    while j < songs.len()
        invariant
            j <= songs@.len(),
            strictly_sorted(views_of(names@)),
            forall|t: Seq<char>|
                #[trigger] views_of(names@).contains(t) <==> exists|i: int|
                    0 <= i < j && (#[trigger] songs@[i])@.artist == t,
        decreases songs@.len() - j,
    {
        insert_sorted(&mut names, &songs[j].artist);
        j += 1;
    }
    // One artist record per name.
    let mut artists: Vec<Artist> = Vec::new();
    let mut i: usize = 0;
    while i < names.len()
        invariant
            i <= names@.len(),
            artists@.len() == i,
            strictly_sorted(views_of(names@)),
            forall|i0: int|
                0 <= i0 < albums@.len() ==> strictly_sorted(
                    views_of((#[trigger] albums@[i0]).artists@),
                ),
            forall|t: Seq<char>|
                #[trigger] views_of(names@).contains(t) <==> exists|i0: int|
                    0 <= i0 < songs@.len() && (#[trigger] songs@[i0])@.artist == t,
            forall|i0: int|
                0 <= i0 < i ==> (#[trigger] artists@[i0]).name@ == views_of(names@)[i0],
            forall|i0: int| 0 <= i0 < i ==> artist_wf(albums@, #[trigger] artists@[i0]),
            forall|i0: int| 0 <= i0 < i ==> artist_complete(albums@, #[trigger] artists@[i0]),
        decreases names@.len() - i,
    {
        let name = names[i].clone();
        let idxs = albums_of_artist(albums, name.as_str());
        let ghost old_artists = artists@;
        artists.push(Artist { name, albums: idxs });
        proof {
            assert(forall|i0: int| 0 <= i0 < old_artists.len() ==> artists@[i0] == old_artists[i0]);
            let newbie = artists@[i as int];
            assert(newbie.albums@ == idxs@);
            assert(artist_complete(albums@, newbie)) by {
                assert forall|j: int|
                    0 <= j < albums@.len() && album_has_artist(
                        #[trigger] albums@[j],
                        newbie.name@,
                    ) implies exists|k: int|
                    0 <= k < newbie.albums@.len() && newbie.albums@[k] as int == j by {
                    let k = choose|k: int| 0 <= k < idxs@.len() && idxs@[k] as int == j;
                    assert(newbie.albums@[k] as int == j);
                }
            }
        }
        i += 1;
    }
    proof {
        assert(artist_names(artists@) =~= views_of(names@));
    }
    artists
}

} // verus!
