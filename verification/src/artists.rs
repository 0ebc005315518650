//! Artist-side logic: planning the paginated fetch of newly followed
//! artists, and filtering and ordering the artist listing.

use vstd::prelude::*;

use crate::text::{
    is_substring_of, lemma_seq_cmp_flip, lemma_seq_le_trans, lowercase, lower_of, seq_cmp,
    str_cmp, str_contains,
};
use crate::types::{Artist, ArtistTableRow};

verus! {

/// Page size of the followed-artists endpoint.
pub const ARTIST_PAGE_LIMIT: u64 = 50;

/// How many artists an update pass should fetch: the remote surplus over
/// the cache, and none at all on a forced pass, which starts from an empty
/// store instead.
pub fn planned_new_artists(cached: u64, remote: u64, force: bool) -> (r: u64)
    ensures
        r == if remote > cached && !force {
            remote - cached
        } else {
            0
        },
{
    if remote > cached && !force {
        remote - cached
    } else {
        0
    }
}

/// Paginates the fetch of new artists: how large the next page request may
/// be, and when the walk is over.
pub struct ArtistFetchPlan {
    /// Artists still wanted.
    pub remaining: u64,
    /// Cursor for the next page, when the previous page offered one.
    pub after: Option<String>,
    /// Set once a page came back empty or without a cursor.
    pub exhausted: bool,
}

impl ArtistFetchPlan {
    /// A plan to fetch up to `max_new` artists from the front of the
    /// remote listing.
    pub fn new(max_new: u64) -> (r: Self)
        ensures
            r.remaining == max_new,
            r.after is None,
            !r.exhausted,
    {
        ArtistFetchPlan { remaining: max_new, after: Option::None, exhausted: false }
    }

    /// The size of the next page to request, capped at the endpoint's page
    /// limit; nothing once the wanted count is reached or the listing ended.
    pub fn next_request(&self) -> (r: Option<u64>)
        ensures
            r == if self.remaining > 0 && !self.exhausted {
                Option::Some(
                    if self.remaining < ARTIST_PAGE_LIMIT {
                        self.remaining
                    } else {
                        ARTIST_PAGE_LIMIT
                    },
                )
            } else {
                Option::<u64>::None
            },
    {
        if self.remaining > 0 && !self.exhausted {
            Option::Some(
                if self.remaining < ARTIST_PAGE_LIMIT {
                    self.remaining
                } else {
                    ARTIST_PAGE_LIMIT
                },
            )
        } else {
            Option::None
        }
    }

    /// Accounts for one returned page: its size comes off the wanted count,
    /// stopping at zero; the walk ends when the page was empty or carried
    /// no cursor.
    pub fn record_page(&mut self, page_len: u64, next_after: Option<String>)
        ensures
            final(self).remaining == if page_len <= old(self).remaining {
                old(self).remaining - page_len
            } else {
                0
            },
            final(self).exhausted == (old(self).exhausted || page_len == 0 || next_after is None),
            final(self).after == next_after,
    {
        self.exhausted = self.exhausted || page_len == 0 || next_after.is_none();
        self.remaining = if page_len <= self.remaining {
            self.remaining - page_len
        } else {
            0
        };
        self.after = next_after;
    }
}

/// Whether an artist passes the listing's search filter: with no search
/// term every artist does; otherwise the lower-cased term must occur in the
/// artist's lower-cased name.
pub open spec fn search_matches(a: Artist, search: Option<Seq<char>>) -> bool {
    match search {
        Option::None => true,
        Option::Some(term) => is_substring_of(lower_of(term), lower_of(a.name@)),
    }
}

/// The artists of `s` that pass the filter, order kept.
pub open spec fn filter_artists(s: Seq<Artist>, search: Option<Seq<char>>) -> Seq<Artist>
    decreases s.len(),
{
    if s.len() == 0 {
        s
    } else {
        let pre = filter_artists(s.drop_last(), search);
        if search_matches(s.last(), search) {
            pre.push(s.last())
        } else {
            pre
        }
    }
}

/// Ordering of the artist listing: by lower-cased name.
pub open spec fn artist_le(a: Artist, b: Artist) -> bool {
    seq_cmp(lower_of(a.name@), lower_of(b.name@)) <= 0
}

pub open spec fn artists_sorted(s: Seq<Artist>) -> bool {
    forall|i: int, j: int| 0 <= i < j < s.len() ==> artist_le(#[trigger] s[i], #[trigger] s[j])
}

/// Decides `artist_le`.
fn artist_le_exec(a: &Artist, b: &Artist) -> (r: bool)
    ensures
        r == artist_le(*a, *b),
{
    let ka = lowercase(a.name.as_str());
    let kb = lowercase(b.name.as_str());
    str_cmp(ka.as_str(), kb.as_str()) <= 0
}

/// Sorts the artists by lower-cased name and keeps those matching the
/// search term, in that order; the artists themselves are kept.
pub fn filter_and_sort_artists(artists: Vec<Artist>, search: Option<String>) -> (r: Vec<Artist>)
    ensures
        ({
            let needle = match search {
                Option::Some(s) => Option::Some(s@),
                Option::None => Option::<Seq<char>>::None,
            };
            &&& r@.to_multiset() == filter_artists(artists@, needle).to_multiset()
            &&& artists_sorted(r@)
        }),
{
    let ghost needle = match search {
        Option::Some(ref s) => Option::Some(s@),
        Option::None => Option::<Seq<char>>::None,
    };
    // filter first: the kept artists, in input order
    let ghost src = artists@;
    let total: usize = artists.len();
    let mut rest = artists;
    let mut kept: Vec<Artist> = Vec::new();
    let mut i: usize = 0;
    while rest.len() > 0
        invariant
            src.len() == total as int,
            i as int + rest@.len() == src.len(),
            rest@ =~= src.subrange(i as int, src.len() as int),
            kept@ == filter_artists(src.subrange(0, i as int), needle),
            match (search, needle) {
                (Option::Some(ref s), Option::Some(t)) => s@ == t,
                (Option::None, Option::None) => true,
                _ => false,
            },
        decreases rest@.len(),
    {
        let ghost pre = src.subrange(0, i as int);
        let ghost prenext = src.subrange(0, i as int + 1);
        proof {
            assert(prenext.drop_last() =~= pre);
            assert(prenext.last() == src[i as int]);
        }
        let a = rest.remove(0);
        proof {
            assert(a == src[i as int]);
            assert(rest@ =~= src.subrange(i as int + 1, src.len() as int));
        }
        let keep = match &search {
            Option::None => true,
            Option::Some(term) => {
                let lt = lowercase(term.as_str());
                let ln = lowercase(a.name.as_str());
                str_contains(ln.as_str(), lt.as_str())
            },
        };
        if keep {
            kept.push(a);
        }
        i = i + 1;
    }
    proof {
        assert(src.subrange(0, src.len() as int) =~= src);
    }
    // then sort by lower-cased name
    broadcast use vstd::seq_lib::group_to_multiset_ensures;
    broadcast use vstd::multiset::group_multiset_axioms;

    let ghost pool = kept@;
    let mut out: Vec<Artist> = Vec::new();
    while kept.len() > 0
        invariant
            out@.to_multiset().add(kept@.to_multiset()) == pool.to_multiset(),
            out@.len() + kept@.len() == pool.len(),
            artists_sorted(out@),
        decreases kept@.len(),
    {
        let ghost pre_kept = kept@;
        let x = kept.remove(0);
        proof {
            vstd::seq_lib::to_multiset_remove::<Artist>(pre_kept, 0);
            assert(pre_kept[0] == x);
            assert(pre_kept.contains(x));
            vstd::seq_lib::to_multiset_contains::<Artist>(pre_kept, x);
            assert(out@.to_multiset().add(kept@.to_multiset()).insert(x) =~= pool.to_multiset());
        }
        let mut p: usize = 0;
        while p < out.len() && artist_le_exec(&out[p], &x)
            invariant
                0 <= p <= out@.len(),
                forall|t: int| 0 <= t < p as int ==> artist_le(#[trigger] out@[t], x),
            decreases out@.len() - p,
        {
            p = p + 1;
        }
        proof {
            if (p as int) < out@.len() {
                lemma_seq_cmp_flip(lower_of(out@[p as int].name@), lower_of(x.name@));
            }
        }
        let ghost pre_out = out@;
        out.insert(p, x);
        proof {
            assert(out@ == pre_out.insert(p as int, x));
            vstd::seq_lib::to_multiset_insert::<Artist>(pre_out, p as int, x);
            assert(out@.to_multiset() =~= pre_out.to_multiset().insert(x));
            assert(out@.to_multiset().add(kept@.to_multiset()) =~= pool.to_multiset());
            assert forall|i2: int, j2: int|
                0 <= i2 < j2 < out@.len() implies artist_le(
                #[trigger] out@[i2],
                #[trigger] out@[j2],
            ) by {
                if j2 < p as int {
                    assert(out@[i2] == pre_out[i2] && out@[j2] == pre_out[j2]);
                } else if i2 > p as int {
                    assert(out@[i2] == pre_out[i2 - 1] && out@[j2] == pre_out[j2 - 1]);
                } else if j2 == p as int {
                    assert(out@[i2] == pre_out[i2] && out@[j2] == x);
                } else if i2 == p as int {
                    assert(out@[i2] == x && out@[j2] == pre_out[j2 - 1]);
                    assert(!artist_le(pre_out[p as int], x));
                    lemma_seq_cmp_flip(lower_of(pre_out[p as int].name@), lower_of(x.name@));
                    if j2 - 1 > p as int {
                        assert(artist_le(pre_out[p as int], pre_out[j2 - 1]));
                        lemma_seq_le_trans(
                            lower_of(x.name@),
                            lower_of(pre_out[p as int].name@),
                            lower_of(pre_out[j2 - 1].name@),
                        );
                    }
                } else {
                    assert(out@[i2] == pre_out[i2] && out@[j2] == pre_out[j2 - 1]);
                }
            }
        }
    }
    out
}

/// The first three genres of `gs`, joined by commas.
pub open spec fn genres_cell(gs: Seq<Seq<char>>) -> Seq<char> {
    join_commas(gs.take(if gs.len() < 3 {
        gs.len() as int
    } else {
        3
    }))
}

/// The sequences of `parts` joined by commas.
pub open spec fn join_commas(parts: Seq<Seq<char>>) -> Seq<char>
    decreases parts.len(),
{
    if parts.len() == 0 {
        Seq::empty()
    } else if parts.len() == 1 {
        parts[0]
    } else {
        join_commas(parts.drop_last()) + seq![','] + parts.last()
    }
}

/// Flattens artists into listing rows: the name, and the first three genres
/// joined by commas.
pub fn to_artist_rows(artists: Vec<Artist>) -> (r: Vec<ArtistTableRow>)
    ensures
        r@.len() == artists@.len(),
        forall|i: int|
            0 <= i < artists@.len() ==> {
                let row = #[trigger] r@[i];
                &&& row.name@ == artists@[i].name@
                &&& row.genres@ == genres_cell(artists@[i]@.genres)
            },
{
    let ghost src = artists@;
    let total: usize = artists.len();
    let mut rest = artists;
    let mut rows: Vec<ArtistTableRow> = Vec::new();
    let mut i: usize = 0;
    while rest.len() > 0
        invariant
            src.len() == total as int,
            i as int + rest@.len() == src.len(),
            rest@ =~= src.subrange(i as int, src.len() as int),
            rows@.len() == i as int,
            forall|j: int|
                0 <= j < i as int ==> {
                    let row = #[trigger] rows@[j];
                    &&& row.name@ == src[j].name@
                    &&& row.genres@ == genres_cell(src[j]@.genres)
                },
        decreases rest@.len(),
    {
        let a = rest.remove(0);
        proof {
            assert(a == src[i as int]);
            assert(rest@ =~= src.subrange(i as int + 1, src.len() as int));
        }
        let take_n = if a.genres.len() < 3 {
            a.genres.len()
        } else {
            3
        };
        let ghost parts = a@.genres.take(take_n as int);
        let mut cell = String::new();
        let mut g: usize = 0;
        while g < take_n
            invariant
                0 <= g <= take_n,
                take_n <= a.genres@.len(),
                take_n <= 3,
                parts == a@.genres.take(take_n as int),
                parts.len() == take_n as int,
                cell@ == join_commas(parts.take(g as int)),
            decreases take_n - g,
        {
            let ghost gpre = parts.take(g as int);
            let ghost gnext = parts.take(g as int + 1);
            proof {
                reveal_strlit(",");
                assert(","@ =~= seq![',']);
                assert(gnext.drop_last() =~= gpre);
                assert(gnext.last() == parts[g as int]);
                assert(parts[g as int] == a@.genres[g as int]);
                assert(a@.genres[g as int] == a.genres@[g as int]@);
            }
            if g > 0 {
                cell.append(",");
            }
            cell.append(a.genres[g].as_str());
            proof {
                if g == 0 {
                    assert(gnext.len() == 1 && gnext[0] == parts[0]);
                }
            }
            g = g + 1;
        }
        proof {
            assert(parts.take(take_n as int) =~= parts);
        }
        rows.push(ArtistTableRow { name: a.name, genres: cell });
        i = i + 1;
    }
    rows
}

} // verus!
