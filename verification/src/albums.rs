//! Deduplication and display ordering of release lists.

use vstd::prelude::*;

use crate::text::{
    lemma_seq_cmp_flip, lemma_seq_le_trans, lowercase, lower_of, seq_cmp, str_cmp, str_eq,
};
use crate::types::{Album, ReleaseTableRow};

verus! {

/// Whether some album in `s` carries the id `id`.
pub open spec fn has_album_id(s: Seq<Album>, id: Seq<char>) -> bool {
    exists|i: int| 0 <= i < s.len() && s[i].id@ == id
}

/// The album list with every repeated id removed: of the albums sharing an
/// id, the first occurrence stays, in place.
pub open spec fn spec_dedup(s: Seq<Album>) -> Seq<Album>
    decreases s.len(),
{
    if s.len() == 0 {
        s
    } else {
        let d = spec_dedup(s.drop_last());
        if has_album_id(s.drop_last(), s.last().id@) {
            d
        } else {
            d.push(s.last())
        }
    }
}

/// Deduplication keeps exactly the ids of its input.
pub proof fn lemma_dedup_same_ids(s: Seq<Album>)
    ensures
        forall|id: Seq<char>| has_album_id(spec_dedup(s), id) <==> has_album_id(s, id),
    decreases s.len(),
{
    if s.len() > 0 {
        lemma_dedup_same_ids(s.drop_last());
        assert forall|id: Seq<char>| has_album_id(s, id) implies has_album_id(
            spec_dedup(s),
            id,
        ) by {
            let i = choose|i: int| 0 <= i < s.len() && s[i].id@ == id;
            if i < s.len() - 1 {
                assert(s.drop_last()[i] == s[i]);
                assert(has_album_id(s.drop_last(), id));
                let j = choose|j: int|
                    0 <= j < spec_dedup(s.drop_last()).len() && spec_dedup(s.drop_last())[j].id@
                        == id;
                if !has_album_id(s.drop_last(), s.last().id@) {
                    assert(spec_dedup(s)[j] == spec_dedup(s.drop_last())[j]);
                }
            } else {
                if has_album_id(s.drop_last(), s.last().id@) {
                    let k = choose|k: int|
                        0 <= k < s.drop_last().len() && s.drop_last()[k].id@ == id;
                    assert(s.drop_last()[k] == s[k]);
                } else {
                    assert(spec_dedup(s).last().id@ == id);
                }
            }
        }
        assert forall|id: Seq<char>| has_album_id(spec_dedup(s), id) implies has_album_id(
            s,
            id,
        ) by {
            let j = choose|j: int|
                0 <= j < spec_dedup(s).len() && spec_dedup(s)[j].id@ == id;
            if has_album_id(s.drop_last(), s.last().id@) {
                assert(has_album_id(spec_dedup(s.drop_last()), id));
                assert(has_album_id(s.drop_last(), id));
                let k = choose|k: int| 0 <= k < s.drop_last().len() && s.drop_last()[k].id@ == id;
                assert(s.drop_last()[k] == s[k]);
                assert(s[k].id@ == id);
            } else {
                if j < spec_dedup(s).len() - 1 {
                    assert(spec_dedup(s.drop_last())[j].id@ == id);
                    assert(has_album_id(spec_dedup(s.drop_last()), id));
                    assert(has_album_id(s.drop_last(), id));
                    let k = choose|k: int|
                        0 <= k < s.drop_last().len() && s.drop_last()[k].id@ == id;
                    assert(s.drop_last()[k] == s[k]);
                    assert(s[k].id@ == id);
                } else {
                    assert(s.last().id@ == id);
                }
            }
        }
    }
}

/// No id occurs twice after deduplication.
pub open spec fn distinct_ids(s: Seq<Album>) -> bool {
    forall|i: int, j: int| 0 <= i < j < s.len() ==> (#[trigger] s[i]).id@ != (#[trigger] s[j]).id@
}

pub proof fn lemma_dedup_distinct(s: Seq<Album>)
    ensures
        distinct_ids(spec_dedup(s)),
        spec_dedup(s).len() <= s.len(),
    decreases s.len(),
{
    if s.len() > 0 {
        lemma_dedup_distinct(s.drop_last());
        lemma_dedup_same_ids(s.drop_last());
        let d = spec_dedup(s.drop_last());
        if !has_album_id(s.drop_last(), s.last().id@) {
            assert forall|i: int, j: int|
                0 <= i < j < spec_dedup(s).len() implies (#[trigger] spec_dedup(s)[i]).id@ != (
            #[trigger] spec_dedup(s)[j]).id@ by {
                if j < spec_dedup(s).len() - 1 {
                    assert(spec_dedup(s)[i] == d[i] && spec_dedup(s)[j] == d[j]);
                } else {
                    assert(spec_dedup(s)[i] == d[i]);
                    assert(spec_dedup(s)[j] == s.last());
                    if d[i].id@ == s.last().id@ {
                        assert(has_album_id(d, s.last().id@));
                    }
                }
            }
        }
    }
}

/// Deduplicating a second time changes nothing, and every surviving album is
/// the first of its id in the input, kept in input order.
pub proof fn lemma_dedup_idempotent(s: Seq<Album>)
    ensures
        spec_dedup(spec_dedup(s)) == spec_dedup(s),
{
    lemma_dedup_distinct(s);
    lemma_dedup_fixed(spec_dedup(s));
}

/// A list with pairwise distinct ids is a fixed point of deduplication.
pub proof fn lemma_dedup_fixed(s: Seq<Album>)
    requires
        distinct_ids(s),
    ensures
        spec_dedup(s) == s,
    decreases s.len(),
{
    if s.len() > 0 {
        assert(forall|i: int, j: int|
            0 <= i < j < s.drop_last().len() ==> (#[trigger] s.drop_last()[i]).id@ != (
            #[trigger] s.drop_last()[j]).id@);
        lemma_dedup_fixed(s.drop_last());
        if has_album_id(s.drop_last(), s.last().id@) {
            let k = choose|k: int| 0 <= k < s.drop_last().len() && s.drop_last()[k].id@ == s.last().id@;
            assert(s[k].id@ == s[s.len() - 1].id@);
            assert(false);
        }
        assert(spec_dedup(s) =~= s);
    }
}

/// Each album of the deduplicated list is the first album of its id in the
/// input, at its original relative position.
pub proof fn lemma_dedup_first_occurrences(s: Seq<Album>)
    ensures
        forall|i: int|
            0 <= i < spec_dedup(s).len() ==> exists|j: int|
                0 <= j < s.len() && s[j] == #[trigger] spec_dedup(s)[i] && (forall|k: int|
                    0 <= k < j ==> (#[trigger] s[k]).id@ != s[j].id@),
    decreases s.len(),
{
    if s.len() > 0 {
        lemma_dedup_first_occurrences(s.drop_last());
        lemma_dedup_same_ids(s.drop_last());
        assert forall|i: int| 0 <= i < spec_dedup(s).len() implies exists|j: int|
            0 <= j < s.len() && s[j] == #[trigger] spec_dedup(s)[i] && (forall|k: int|
                0 <= k < j ==> (#[trigger] s[k]).id@ != s[j].id@) by {
            let d = spec_dedup(s.drop_last());
            if i < d.len() {
                assert(spec_dedup(s)[i] == d[i]);
                let j = choose|j: int|
                    0 <= j < s.drop_last().len() && s.drop_last()[j] == d[i] && (forall|k: int|
                        0 <= k < j ==> (#[trigger] s.drop_last()[k]).id@ != s.drop_last()[j].id@);
                assert(s[j] == s.drop_last()[j]);
                assert(forall|k: int| 0 <= k < j ==> (#[trigger] s[k]).id@ == s.drop_last()[k].id@);
                assert(s[j] == spec_dedup(s)[i] && (forall|k: int|
                    0 <= k < j ==> (#[trigger] s[k]).id@ != s[j].id@));
            } else {
                assert(!has_album_id(s.drop_last(), s.last().id@));
                assert(spec_dedup(s)[i] == s.last());
                let j = s.len() - 1;
                assert(forall|k: int| 0 <= k < j ==> s.drop_last()[k] == s[k]);
                assert(s[j] == spec_dedup(s)[i] && (forall|k: int|
                    0 <= k < j ==> (#[trigger] s[k]).id@ != s[j].id@));
            }
        }
    }
}

/// Removes duplicate albums in place: of the albums sharing an id, only the
/// first occurrence stays, and the surviving albums keep their order.
pub fn remove_duplicate_albums(albums: &mut Vec<Album>)
    ensures
        final(albums)@ == spec_dedup(old(albums)@),
        final(albums)@.len() <= old(albums)@.len(),
{
    proof {
        lemma_dedup_distinct(old(albums)@);
    }
    let ghost orig = albums@;
    let orig_len: usize = albums.len();
    let mut i: usize = 0;
    let mut c: usize = 0;
    while c < orig_len
        invariant
            orig_len == orig.len(),
            0 <= i <= c <= orig.len(),
            albums@ =~= spec_dedup(orig.subrange(0, c as int)) + orig.subrange(
                c as int,
                orig.len() as int,
            ),
            i as int == spec_dedup(orig.subrange(0, c as int)).len(),
        decreases orig.len() - c,
    {
        let ghost pre = orig.subrange(0, c as int);
        let ghost prenext = orig.subrange(0, c as int + 1);
        proof {
            assert(prenext.drop_last() =~= pre);
            assert(albums@[i as int] == orig[c as int]);
            assert(prenext.last() == orig[c as int]);
            lemma_dedup_distinct(pre);
        }
        // does albums[0..i] already hold this id?
        let mut k: usize = 0;
        let mut dup: bool = false;
        while k < i
            invariant
                0 <= k <= i,
                (i as int) < albums@.len(),
                albums@.subrange(0, i as int) =~= spec_dedup(pre),
                albums@[i as int] == orig[c as int],
                dup ==> has_album_id(spec_dedup(pre), albums@[i as int].id@),
                !dup ==> forall|t: int|
                    0 <= t < k as int ==> (#[trigger] albums@[t]).id@ != albums@[i as int].id@,
            decreases i - k,
        {
            if str_eq(albums[k].id.as_str(), albums[i].id.as_str()) {
                proof {
                    assert(spec_dedup(pre)[k as int] == albums@[k as int]);
                }
                dup = true;
                k = i;
            } else {
                k = k + 1;
            }
        }
        proof {
            lemma_dedup_same_ids(pre);
            if !dup {
                assert forall|t: int|
                    0 <= t < spec_dedup(pre).len() implies (#[trigger] spec_dedup(pre)[t]).id@
                    != orig[c as int].id@ by {
                    assert(spec_dedup(pre)[t] == albums@[t]);
                }
                if has_album_id(pre, orig[c as int].id@) {
                    let cid = orig[c as int].id@;
                    let w = choose|w: int|
                        0 <= w < spec_dedup(pre).len() && spec_dedup(pre)[w].id@ == cid;
                    assert(false);
                }
            }
        }
        if dup {
            let _ = albums.remove(i);
            proof {
                assert(albums@ =~= spec_dedup(prenext) + orig.subrange(
                    c as int + 1,
                    orig.len() as int,
                ));
            }
        } else {
            i = i + 1;
            proof {
                assert(albums@ =~= spec_dedup(prenext) + orig.subrange(
                    c as int + 1,
                    orig.len() as int,
                ));
            }
        }
        c = c + 1;
    }
    proof {
        assert(orig.subrange(0, orig.len() as int) =~= orig);
        assert(albums@ =~= spec_dedup(orig));
        lemma_dedup_distinct(orig);
    }
}

/// Three-way ordering of release rows: by date, newest first, then by artist
/// name, alphabetically.
pub open spec fn row_cmp(a: ReleaseTableRow, b: ReleaseTableRow) -> int {
    let d = seq_cmp(b.date@, a.date@);
    if d != 0 {
        d
    } else {
        seq_cmp(a.artists@, b.artists@)
    }
}

pub open spec fn row_le(a: ReleaseTableRow, b: ReleaseTableRow) -> bool {
    row_cmp(a, b) <= 0
}

pub proof fn lemma_row_le_total(a: ReleaseTableRow, b: ReleaseTableRow)
    ensures
        row_le(a, b) || row_le(b, a),
{
    lemma_seq_cmp_flip(b.date@, a.date@);
    lemma_seq_cmp_flip(a.artists@, b.artists@);
}

pub proof fn lemma_row_le_trans(a: ReleaseTableRow, b: ReleaseTableRow, c: ReleaseTableRow)
    requires
        row_le(a, b),
        row_le(b, c),
    ensures
        row_le(a, c),
{
    lemma_cmp_pair_trans(
        b.date@,
        a.date@,
        c.date@,
        a.artists@,
        b.artists@,
        c.artists@,
    );
}

/// Transitivity of the two-key comparison "first key descending, second key
/// ascending", stated over the raw sequences.
proof fn lemma_cmp_pair_trans(
    ba: Seq<char>,
    ab: Seq<char>,
    cb: Seq<char>,
    a2: Seq<char>,
    b2: Seq<char>,
    c2: Seq<char>,
)
    requires
        ({
            let d = seq_cmp(ba, ab);
            if d != 0 {
                d <= 0
            } else {
                seq_cmp(a2, b2) <= 0
            }
        }),
        ({
            let d = seq_cmp(cb, ba);
            if d != 0 {
                d <= 0
            } else {
                seq_cmp(b2, c2) <= 0
            }
        }),
    ensures
        ({
            let d = seq_cmp(cb, ab);
            if d != 0 {
                d <= 0
            } else {
                seq_cmp(a2, c2) <= 0
            }
        }),
{
    lemma_seq_cmp_flip(ba, ab);
    lemma_seq_cmp_flip(cb, ba);
    lemma_seq_cmp_flip(cb, ab);
    lemma_seq_le_trans(cb, ba, ab);
    if seq_cmp(cb, ab) == 0 {
        // ab <= ba <= cb and cb == ab force both steps to be ties
        lemma_seq_le_trans(ab, cb, ba);
        lemma_seq_le_trans(ba, ab, cb);
        lemma_seq_le_trans(a2, b2, c2);
    }
}

/// Decides `row_le` on two rows.
pub fn row_le_exec(a: &ReleaseTableRow, b: &ReleaseTableRow) -> (r: bool)
    ensures
        r == row_le(*a, *b),
{
    let d = str_cmp(b.date.as_str(), a.date.as_str());
    if d != 0 {
        d < 0
    } else {
        str_cmp(a.artists.as_str(), b.artists.as_str()) <= 0
    }
}

pub open spec fn rows_sorted(s: Seq<ReleaseTableRow>) -> bool {
    forall|i: int, j: int|
        0 <= i < j < s.len() ==> row_le(#[trigger] s[i], #[trigger] s[j])
}

/// Sorts release rows in place by date, newest first, breaking ties by the
/// artist column, alphabetically; the rows themselves are kept.
pub fn sort_release_table_rows(rows: &mut Vec<ReleaseTableRow>)
    ensures
        final(rows)@.to_multiset() == old(rows)@.to_multiset(),
        final(rows)@.len() == old(rows)@.len(),
        rows_sorted(final(rows)@),
{
    broadcast use vstd::seq_lib::group_to_multiset_ensures;
    broadcast use vstd::multiset::group_multiset_axioms;

    let ghost orig = rows@;
    let mut out: Vec<ReleaseTableRow> = Vec::new();
    while rows.len() > 0
        invariant
            out@.to_multiset().add(rows@.to_multiset()) == orig.to_multiset(),
            out@.len() + rows@.len() == orig.len(),
            rows_sorted(out@),
        decreases rows@.len(),
    {
        let ghost pre_rows = rows@;
        let x = rows.remove(0);
        proof {
            vstd::seq_lib::to_multiset_remove::<ReleaseTableRow>(pre_rows, 0);
            assert(pre_rows[0] == x);
            assert(pre_rows.contains(x));
            vstd::seq_lib::to_multiset_contains::<ReleaseTableRow>(pre_rows, x);
            assert(pre_rows.to_multiset().count(x) > 0);
            assert(out@.to_multiset().add(rows@.to_multiset()).insert(x) =~= orig.to_multiset());
        }
        let mut p: usize = 0;
        while p < out.len() && row_le_exec(&out[p], &x)
            invariant
                0 <= p <= out@.len(),
                forall|t: int| 0 <= t < p as int ==> row_le(#[trigger] out@[t], x),
            decreases out@.len() - p,
        {
            p = p + 1;
        }
        proof {
            if (p as int) < out@.len() {
                lemma_row_le_total(out@[p as int], x);
            }
        }
        let ghost pre_out = out@;
        out.insert(p, x);
        proof {
            assert(out@ == pre_out.insert(p as int, x));
            vstd::seq_lib::to_multiset_insert::<ReleaseTableRow>(pre_out, p as int, x);
            assert(out@.to_multiset() =~= pre_out.to_multiset().insert(x));
            assert(out@.to_multiset().add(rows@.to_multiset()) =~= orig.to_multiset());
            assert forall|i: int, j: int|
                0 <= i < j < out@.len() implies row_le(#[trigger] out@[i], #[trigger] out@[j]) by {
                if j < p as int {
                    assert(out@[i] == pre_out[i] && out@[j] == pre_out[j]);
                } else if i > p as int {
                    assert(out@[i] == pre_out[i - 1] && out@[j] == pre_out[j - 1]);
                } else if j == p as int {
                    assert(out@[i] == pre_out[i] && out@[j] == x);
                } else if i == p as int {
                    assert(out@[i] == x && out@[j] == pre_out[j - 1]);
                    assert(!row_le(pre_out[p as int], x));
                    lemma_row_le_total(pre_out[p as int], x);
                    if j - 1 > p as int {
                        assert(row_le(pre_out[p as int], pre_out[j - 1]));
                        lemma_row_le_trans(x, pre_out[p as int], pre_out[j - 1]);
                    }
                } else {
                    assert(i < p as int && j > p as int);
                    assert(out@[i] == pre_out[i] && out@[j] == pre_out[j - 1]);
                }
            }
        }
    }
    *rows = out;
}

/// The secondary sort key of an album: the lower-cased name of its first
/// credited artist, when it has one.
pub open spec fn album_artist_key(a: Album) -> Option<Seq<char>> {
    if a.artists@.len() == 0 {
        Option::None
    } else {
        Option::Some(lower_of(a.artists@[0].name@))
    }
}

/// Three-way comparison of optional keys: an absent key sorts first.
pub open spec fn opt_seq_cmp(a: Option<Seq<char>>, b: Option<Seq<char>>) -> int {
    match (a, b) {
        (Option::None, Option::None) => 0,
        (Option::None, Option::Some(_)) => -1,
        (Option::Some(_), Option::None) => 1,
        (Option::Some(x), Option::Some(y)) => seq_cmp(x, y),
    }
}

/// Three-way ordering of albums: by release date, newest first, then by the
/// first artist's lower-cased name, alphabetically.
pub open spec fn album_cmp(a: Album, b: Album) -> int {
    let d = seq_cmp(b.release_date@, a.release_date@);
    if d != 0 {
        d
    } else {
        opt_seq_cmp(album_artist_key(a), album_artist_key(b))
    }
}

pub open spec fn album_le(a: Album, b: Album) -> bool {
    album_cmp(a, b) <= 0
}

proof fn lemma_opt_seq_cmp_flip(a: Option<Seq<char>>, b: Option<Seq<char>>)
    ensures
        opt_seq_cmp(a, b) == -opt_seq_cmp(b, a),
{
    match (a, b) {
        (Option::Some(x), Option::Some(y)) => lemma_seq_cmp_flip(x, y),
        _ => {},
    }
}

proof fn lemma_opt_seq_le_trans(a: Option<Seq<char>>, b: Option<Seq<char>>, c: Option<Seq<char>>)
    requires
        opt_seq_cmp(a, b) <= 0,
        opt_seq_cmp(b, c) <= 0,
    ensures
        opt_seq_cmp(a, c) <= 0,
{
    match (a, b, c) {
        (Option::Some(x), Option::Some(y), Option::Some(z)) => lemma_seq_le_trans(x, y, z),
        _ => {},
    }
}

pub proof fn lemma_album_le_total(a: Album, b: Album)
    ensures
        album_le(a, b) || album_le(b, a),
{
    lemma_seq_cmp_flip(b.release_date@, a.release_date@);
    lemma_opt_seq_cmp_flip(album_artist_key(a), album_artist_key(b));
}

pub proof fn lemma_album_le_trans(a: Album, b: Album, c: Album)
    requires
        album_le(a, b),
        album_le(b, c),
    ensures
        album_le(a, c),
{
    lemma_seq_cmp_flip(b.release_date@, a.release_date@);
    lemma_seq_cmp_flip(c.release_date@, b.release_date@);
    lemma_seq_cmp_flip(c.release_date@, a.release_date@);
    lemma_seq_le_trans(c.release_date@, b.release_date@, a.release_date@);
    if seq_cmp(c.release_date@, a.release_date@) == 0 {
        lemma_seq_le_trans(a.release_date@, c.release_date@, b.release_date@);
        lemma_seq_le_trans(b.release_date@, a.release_date@, c.release_date@);
        lemma_opt_seq_le_trans(
            album_artist_key(a),
            album_artist_key(b),
            album_artist_key(c),
        );
    }
}

/// Decides `album_le` on two albums.
pub fn album_le_exec(a: &Album, b: &Album) -> (r: bool)
    ensures
        r == album_le(*a, *b),
{
    let d = str_cmp(b.release_date.as_str(), a.release_date.as_str());
    if d != 0 {
        d < 0
    } else if a.artists.len() == 0 {
        true
    } else if b.artists.len() == 0 {
        false
    } else {
        let ka = lowercase(a.artists[0].name.as_str());
        let kb = lowercase(b.artists[0].name.as_str());
        str_cmp(ka.as_str(), kb.as_str()) <= 0
    }
}

pub open spec fn albums_sorted(s: Seq<Album>) -> bool {
    forall|i: int, j: int| 0 <= i < j < s.len() ==> album_le(#[trigger] s[i], #[trigger] s[j])
}

/// Sorts albums in place by release date, newest first, breaking ties by the
/// first artist's lower-cased name; the albums themselves are kept.
pub fn sort_albums_by_date_and_artist(albums: &mut Vec<Album>)
    ensures
        final(albums)@.to_multiset() == old(albums)@.to_multiset(),
        final(albums)@.len() == old(albums)@.len(),
        albums_sorted(final(albums)@),
{
    broadcast use vstd::seq_lib::group_to_multiset_ensures;
    broadcast use vstd::multiset::group_multiset_axioms;

    let ghost orig = albums@;
    let mut out: Vec<Album> = Vec::new();
    while albums.len() > 0
        invariant
            out@.to_multiset().add(albums@.to_multiset()) == orig.to_multiset(),
            out@.len() + albums@.len() == orig.len(),
            albums_sorted(out@),
        decreases albums@.len(),
    {
        let ghost pre_albums = albums@;
        let x = albums.remove(0);
        proof {
            broadcast use vstd::multiset::group_multiset_axioms;

            vstd::seq_lib::to_multiset_remove::<Album>(pre_albums, 0);
            vstd::seq_lib::to_multiset_len::<Album>(pre_albums);
            vstd::seq_lib::to_multiset_len::<Album>(albums@);
            assert(pre_albums[0] == x);
            assert(pre_albums.contains(x));
            vstd::seq_lib::to_multiset_contains::<Album>(pre_albums, x);
            assert(out@.to_multiset().add(albums@.to_multiset()).insert(x)
                =~= orig.to_multiset());
        }
        let mut p: usize = 0;
        while p < out.len() && album_le_exec(&out[p], &x)
            invariant
                0 <= p <= out@.len(),
                forall|t: int| 0 <= t < p as int ==> album_le(#[trigger] out@[t], x),
            decreases out@.len() - p,
        {
            p = p + 1;
        }
        proof {
            if (p as int) < out@.len() {
                lemma_album_le_total(out@[p as int], x);
            }
        }
        let ghost pre_out = out@;
        out.insert(p, x);
        proof {
            broadcast use vstd::multiset::group_multiset_axioms;

            assert(out@ == pre_out.insert(p as int, x));
            vstd::seq_lib::to_multiset_insert::<Album>(pre_out, p as int, x);
            assert(out@.to_multiset() =~= pre_out.to_multiset().insert(x));
            assert(out@.to_multiset().add(albums@.to_multiset()) =~= orig.to_multiset());
            assert forall|i: int, j: int|
                0 <= i < j < out@.len() implies album_le(#[trigger] out@[i], #[trigger] out@[j]) by {
                if j < p as int {
                    assert(out@[i] == pre_out[i] && out@[j] == pre_out[j]);
                } else if i > p as int {
                    assert(out@[i] == pre_out[i - 1] && out@[j] == pre_out[j - 1]);
                } else if j == p as int {
                    assert(out@[i] == pre_out[i] && out@[j] == x);
                } else if i == p as int {
                    assert(out@[i] == x && out@[j] == pre_out[j - 1]);
                    assert(!album_le(pre_out[p as int], x));
                    lemma_album_le_total(pre_out[p as int], x);
                    if j - 1 > p as int {
                        assert(album_le(pre_out[p as int], pre_out[j - 1]));
                        lemma_album_le_trans(x, pre_out[p as int], pre_out[j - 1]);
                    }
                } else {
                    assert(i < p as int && j > p as int);
                    assert(out@[i] == pre_out[i] && out@[j] == pre_out[j - 1]);
                }
            }
        }
    }
    *albums = out;
}

/// Tidies one week's cached releases for display: removes duplicate ids,
/// first occurrence winning, then sorts by date, newest first, with ties
/// broken by the first artist's lower-cased name.
pub fn tidy_weekly_releases(albums: &mut Vec<Album>)
    ensures
        final(albums)@.to_multiset() == spec_dedup(old(albums)@).to_multiset(),
        albums_sorted(final(albums)@),
        final(albums)@.len() <= old(albums)@.len(),
{
    remove_duplicate_albums(albums);
    sort_albums_by_date_and_artist(albums);
}

/// Flattens albums into display rows: the release date, the title, and the
/// first credited artist's name, or an empty artist column when an album
/// credits none.
pub fn to_release_rows(albums: Vec<Album>) -> (r: Vec<ReleaseTableRow>)
    ensures
        r@.len() == albums@.len(),
        forall|i: int|
            0 <= i < albums@.len() ==> {
                let row = #[trigger] r@[i];
                &&& row.date@ == albums@[i].release_date@
                &&& row.name@ == albums@[i].name@
                &&& row.artists@ == if albums@[i].artists@.len() == 0 {
                    Seq::<char>::empty()
                } else {
                    albums@[i].artists@[0].name@
                }
            },
{
    let ghost src = albums@;
    let total: usize = albums.len();
    let mut rows: Vec<ReleaseTableRow> = Vec::new();
    let mut remaining = albums;
    let mut i: usize = 0;
    while remaining.len() > 0
        invariant
            src.len() == total as int,
            i as int + remaining@.len() == src.len(),
            remaining@ =~= src.subrange(i as int, src.len() as int),
            rows@.len() == i as int,
            forall|j: int|
                0 <= j < i as int ==> {
                    let row = #[trigger] rows@[j];
                    &&& row.date@ == src[j].release_date@
                    &&& row.name@ == src[j].name@
                    &&& row.artists@ == if src[j].artists@.len() == 0 {
                        Seq::<char>::empty()
                    } else {
                        src[j].artists@[0].name@
                    }
                },
        decreases remaining@.len(),
    {
        let ghost pre = remaining@;
        let album = remaining.remove(0);
        proof {
            assert(album == src[i as int]);
            assert(remaining@ =~= src.subrange(i as int + 1, src.len() as int));
        }
        let artists = if album.artists.len() == 0 {
            String::new()
        } else {
            album.artists[0].name.clone()
        };
        let row = ReleaseTableRow { date: album.release_date, name: album.name, artists };
        rows.push(row);
        i = i + 1;
    }
    rows
}

} // verus!
