//! Playlist-side logic: naming the weekly playlist and picking the lead
//! track of each fetched album.

use vstd::prelude::*;

use crate::kinds::{kind_name, ReleaseKind};
use crate::types::{GetAlbumResponse, GetSeveralAlbumsResponse, Track};

verus! {

/// The decimal digits of a non-negative number.
pub open spec fn dec_digits(n: int) -> Seq<char>
    decreases n,
{
    if n < 0 {
        Seq::empty()
    } else if n < 10 {
        seq![digit_char(n)]
    } else {
        dec_digits(n / 10).push(digit_char(n % 10))
    }
}

pub open spec fn digit_char(d: int) -> char {
    if d == 0 {
        '0'
    } else if d == 1 {
        '1'
    } else if d == 2 {
        '2'
    } else if d == 3 {
        '3'
    } else if d == 4 {
        '4'
    } else if d == 5 {
        '5'
    } else if d == 6 {
        '6'
    } else if d == 7 {
        '7'
    } else if d == 8 {
        '8'
    } else {
        '9'
    }
}

/// A single digit as a string.
fn digit_str(d: u64) -> (r: &'static str)
    requires
        d < 10,
    ensures
        r@ == seq![digit_char(d as int)],
{
    proof {
        reveal_strlit("0");
        reveal_strlit("1");
        reveal_strlit("2");
        reveal_strlit("3");
        reveal_strlit("4");
        reveal_strlit("5");
        reveal_strlit("6");
        reveal_strlit("7");
        reveal_strlit("8");
        reveal_strlit("9");
        assert("0"@ =~= seq![digit_char(0)]);
        assert("1"@ =~= seq![digit_char(1)]);
        assert("2"@ =~= seq![digit_char(2)]);
        assert("3"@ =~= seq![digit_char(3)]);
        assert("4"@ =~= seq![digit_char(4)]);
        assert("5"@ =~= seq![digit_char(5)]);
        assert("6"@ =~= seq![digit_char(6)]);
        assert("7"@ =~= seq![digit_char(7)]);
        assert("8"@ =~= seq![digit_char(8)]);
        assert("9"@ =~= seq![digit_char(9)]);
    }
    if d == 0 {
        "0"
    } else if d == 1 {
        "1"
    } else if d == 2 {
        "2"
    } else if d == 3 {
        "3"
    } else if d == 4 {
        "4"
    } else if d == 5 {
        "5"
    } else if d == 6 {
        "6"
    } else if d == 7 {
        "7"
    } else if d == 8 {
        "8"
    } else {
        "9"
    }
}

/// Renders a number in decimal.
pub fn u64_to_string(n: u64) -> (r: String)
    ensures
        r@ == dec_digits(n as int),
    decreases n,
{
    if n < 10 {
        digit_str(n).to_owned()
    } else {
        let mut s = u64_to_string(n / 10);
        s.append(digit_str(n % 10));
        s
    }
}

/// The name under which one week's picks are published: the week and year,
/// then the release kind.
pub open spec fn spec_playlist_name(week: int, year: int, kind: ReleaseKind) -> Seq<char> {
    "Weekly Picks "@ + dec_digits(week) + "/"@ + dec_digits(year) + " ("@ + kind_name(kind)
        + ")"@
}

/// Builds the playlist name for a week, a year and a kind.
pub fn playlist_name_for(week: u32, year: i32, kind: ReleaseKind) -> (r: String)
    requires
        year >= 0,
    ensures
        r@ == spec_playlist_name(week as int, year as int, kind),
{
    let mut s = "Weekly Picks ".to_owned();
    let w = u64_to_string(week as u64);
    s.append(w.as_str());
    s.append("/");
    let y = u64_to_string(year as u64);
    s.append(y.as_str());
    s.append(" (");
    let k = kind.to_string();
    s.append(k.as_str());
    s.append(")");
    s
}

/// The lead tracks of an album listing: the first track of each album that
/// has any.
pub open spec fn spec_first_tracks(albums: Seq<GetAlbumResponse>) -> Seq<Track>
    decreases albums.len(),
{
    if albums.len() == 0 {
        Seq::empty()
    } else {
        let pre = spec_first_tracks(albums.drop_last());
        if albums.last().tracks.items@.len() > 0 {
            pre.push(albums.last().tracks.items@[0])
        } else {
            pre
        }
    }
}

/// The lead tracks across a batch of album responses, in order.
pub open spec fn spec_first_tracks_all(resps: Seq<GetSeveralAlbumsResponse>) -> Seq<Track>
    decreases resps.len(),
{
    if resps.len() == 0 {
        Seq::empty()
    } else {
        spec_first_tracks_all(resps.drop_last()) + spec_first_tracks(resps.last().albums@)
    }
}

/// Picks the first track of every album of every response, in order; an
/// album without tracks contributes nothing.
pub fn first_tracks(responses: Vec<GetSeveralAlbumsResponse>) -> (r: Vec<Track>)
    ensures
        r@ == spec_first_tracks_all(responses@),
{
    let ghost src = responses@;
    let total: usize = responses.len();
    let mut rest = responses;
    let mut out: Vec<Track> = Vec::new();
    let mut i: usize = 0;
    while rest.len() > 0
        invariant
            src.len() == total as int,
            i as int + rest@.len() == src.len(),
            rest@ =~= src.subrange(i as int, src.len() as int),
            out@ == spec_first_tracks_all(src.subrange(0, i as int)),
        decreases rest@.len(),
    {
        let ghost pre = src.subrange(0, i as int);
        let ghost prenext = src.subrange(0, i as int + 1);
        proof {
            assert(prenext.drop_last() =~= pre);
            assert(prenext.last() == src[i as int]);
        }
        let resp = rest.remove(0);
        proof {
            assert(resp == src[i as int]);
            assert(rest@ =~= src.subrange(i as int + 1, src.len() as int));
        }
        let ghost albums_all = resp.albums@;
        let atotal: usize = resp.albums.len();
        let mut albums = resp.albums;
        let mut j: usize = 0;
        while albums.len() > 0
            invariant
                albums_all.len() == atotal as int,
                j as int + albums@.len() == albums_all.len(),
                albums@ =~= albums_all.subrange(j as int, albums_all.len() as int),
                out@ == spec_first_tracks_all(pre) + spec_first_tracks(
                    albums_all.subrange(0, j as int),
                ),
            decreases albums@.len(),
        {
            let ghost apre = albums_all.subrange(0, j as int);
            let ghost apnext = albums_all.subrange(0, j as int + 1);
            proof {
                assert(apnext.drop_last() =~= apre);
                assert(apnext.last() == albums_all[j as int]);
            }
            let album = albums.remove(0);
            proof {
                assert(album == albums_all[j as int]);
                assert(albums@ =~= albums_all.subrange(j as int + 1, albums_all.len() as int));
            }
            let mut items = album.tracks.items;
            if items.len() > 0 {
                let t = items.remove(0);
                out.push(t);
            }
            j = j + 1;
        }
        proof {
            assert(albums_all.subrange(0, albums_all.len() as int) =~= albums_all);
        }
        i = i + 1;
    }
    proof {
        assert(src.subrange(0, src.len() as int) =~= src);
    }
    out
}

} // verus!
