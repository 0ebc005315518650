//! The artist-release store: the source of truth mapping each followed
//! artist to the releases last fetched for it. A record's release list is
//! replaced wholesale on refresh, never merged.

use vstd::prelude::*;

use crate::types::{
    clone_albums, deep_albums, Album, Artist, ArtistReleases,
};
use crate::text::str_eq;

verus! {

/// Index of the first record owned by the artist with the given id, or -1.
pub open spec fn find_artist_idx(s: Seq<ArtistReleases>, id: Seq<char>) -> int
    decreases s.len(),
{
    if s.len() == 0 {
        -1
    } else if s[0].artist.id@ == id {
        0
    } else {
        let r = find_artist_idx(s.drop_first(), id);
        if r < 0 {
            -1
        } else {
            r + 1
        }
    }
}

pub proof fn lemma_find_artist_idx(s: Seq<ArtistReleases>, id: Seq<char>)
    ensures
        find_artist_idx(s, id) >= 0 ==> find_artist_idx(s, id) < s.len() && s[find_artist_idx(
            s,
            id,
        )].artist.id@ == id && (forall|j: int|
            0 <= j < find_artist_idx(s, id) ==> (#[trigger] s[j]).artist.id@ != id),
        find_artist_idx(s, id) < 0 ==> forall|j: int|
            0 <= j < s.len() ==> (#[trigger] s[j]).artist.id@ != id,
    decreases s.len(),
{
    if s.len() > 0 && s[0].artist.id@ != id {
        lemma_find_artist_idx(s.drop_first(), id);
        let t = s.drop_first();
        assert(forall|j: int| 0 <= j < t.len() ==> t[j] == s[j + 1]);
        if find_artist_idx(t, id) >= 0 {
            assert(forall|j: int| 1 <= j < find_artist_idx(s, id) ==> s[j] == t[j - 1]);
        } else {
            assert(forall|j: int| 1 <= j < s.len() ==> s[j] == t[j - 1]);
        }
    }
}

/// The store after replacing the release list of the artist with the given
/// id: the matching record keeps its artist and gets exactly the new list;
/// when no record matches, nothing changes.
pub open spec fn spec_store_replace(
    s: Seq<ArtistReleases>,
    id: Seq<char>,
    releases: Vec<Album>,
) -> Seq<ArtistReleases> {
    let j = find_artist_idx(s, id);
    if j < 0 {
        s
    } else {
        s.update(j, ArtistReleases { artist: s[j].artist, releases: releases })
    }
}

/// Finds the first record owned by the artist with the given id.
fn find_record(ars: &Vec<ArtistReleases>, artist_id: &str) -> (r: Option<usize>)
    ensures
        match r {
            Option::Some(k) => (k as int) < ars@.len() && find_artist_idx(ars@, artist_id@)
                == k as int,
            Option::None => find_artist_idx(ars@, artist_id@) < 0,
        },
{
    proof {
        lemma_find_artist_idx(ars@, artist_id@);
    }
    let n = ars.len();
    let mut k: usize = 0;
    while k < n
        invariant
            0 <= k <= n,
            n == ars@.len(),
            forall|j: int| 0 <= j < k as int ==> (#[trigger] ars@[j]).artist.id@ != artist_id@,
            find_artist_idx(ars@, artist_id@) >= 0 ==> find_artist_idx(ars@, artist_id@)
                < ars@.len() && ars@[find_artist_idx(ars@, artist_id@)].artist.id@ == artist_id@
                && (forall|j: int|
                0 <= j < find_artist_idx(ars@, artist_id@) ==> (#[trigger] ars@[j]).artist.id@
                    != artist_id@),
            find_artist_idx(ars@, artist_id@) < 0 ==> forall|j: int|
                0 <= j < ars@.len() ==> (#[trigger] ars@[j]).artist.id@ != artist_id@,
        decreases n - k,
    {
        if str_eq(ars[k].artist.id.as_str(), artist_id) {
            return Option::Some(k);
        }
        k = k + 1;
    }
    Option::None
}

/// Owns the per-artist release records and their replace-on-refresh rule.
pub struct ArtistReleaseManager {
    artist_releases: Option<Vec<ArtistReleases>>,
}

impl ArtistReleaseManager {
    /// The records held, if initialised.
    pub closed spec fn recs(&self) -> Option<Seq<ArtistReleases>> {
        match self.artist_releases {
            Option::Some(ref v) => Option::Some(v@),
            Option::None => Option::None,
        }
    }

    /// Builds a store from loaded records, or empty.
    pub fn new(artist_releases: Option<Vec<ArtistReleases>>) -> (r: Self)
        ensures
            r.recs() == Option::Some(
                match artist_releases {
                    Option::Some(v) => v@,
                    Option::None => Seq::<ArtistReleases>::empty(),
                },
            ),
    {
        let inner = match artist_releases {
            Option::Some(v) => v,
            Option::None => Vec::new(),
        };
        ArtistReleaseManager { artist_releases: Option::Some(inner) }
    }

    /// Appends one artist with an empty release list.
    pub fn add_artist(&mut self, artist: Artist)
        ensures
            match old(self).recs() {
                Option::Some(s) => {
                    &&& final(self).recs() matches Option::Some(s2)
                    &&& s2.len() == s.len() + 1
                    &&& s2.subrange(0, s.len() as int) == s
                    &&& s2.last().artist == artist
                    &&& s2.last().releases@.len() == 0
                },
                Option::None => final(self).recs() is None,
            },
    {
        match &mut self.artist_releases {
            Option::Some(ars) => {
                let ghost pre = ars@;
                ars.push(ArtistReleases { artist, releases: Vec::new() });
                proof {
                    assert(ars@.subrange(0, pre.len() as int) =~= pre);
                }
            },
            Option::None => {},
        }
    }

    /// Appends a batch of artists, each with an empty release list, in order.
    /// No deduplication happens here: the caller owns artist identity.
    pub fn add_artists(&mut self, artists: Vec<Artist>)
        ensures
            match old(self).recs() {
                Option::Some(s) => {
                    &&& final(self).recs() matches Option::Some(s2)
                    &&& s2.len() == s.len() + artists@.len()
                    &&& s2.subrange(0, s.len() as int) == s
                    &&& forall|i: int|
                        0 <= i < artists@.len() ==> (#[trigger] s2[s.len() + i]).artist == artists@[i]
                            && s2[s.len() + i].releases@.len() == 0
                },
                Option::None => final(self).recs() is None,
            },
    {
        match &mut self.artist_releases {
            Option::Some(ars) => {
                let ghost pre = ars@;
                let ghost incoming = artists@;
                let total: usize = artists.len();
                let mut rest = artists;
                let mut i: usize = 0;
                while rest.len() > 0
                    invariant
                        incoming.len() == total as int,
                        i as int + rest@.len() == incoming.len(),
                        rest@ =~= incoming.subrange(i as int, incoming.len() as int),
                        ars@.len() == pre.len() + i as int,
                        ars@.subrange(0, pre.len() as int) =~= pre,
                        forall|j: int|
                            0 <= j < i as int ==> (#[trigger] ars@[pre.len() + j]).artist
                                == incoming[j] && ars@[pre.len() + j].releases@.len() == 0,
                    decreases rest@.len(),
                {
                    let a = rest.remove(0);
                    proof {
                        assert(a == incoming[i as int]);
                        assert(rest@ =~= incoming.subrange(i as int + 1, incoming.len() as int));
                    }
                    ars.push(ArtistReleases { artist: a, releases: Vec::new() });
                    i = i + 1;
                }
            },
            Option::None => {},
        }
    }

    /// Replaces, wholesale, the release list of the artist with the given
    /// id; a batch for an unknown artist is dropped silently.
    pub fn add_releases_to_artist(&mut self, artist_id: &str, releases: Vec<Album>)
        ensures
            match old(self).recs() {
                Option::Some(s) => {
                    let j = find_artist_idx(s, artist_id@);
                    if j < 0 {
                        final(self).recs() == Option::Some(s)
                    } else {
                        &&& final(self).recs() matches Option::Some(s2)
                        &&& s2 == s.update(
                            j,
                            ArtistReleases { artist: s[j].artist, releases: releases },
                        )
                    }
                },
                Option::None => final(self).recs() is None,
            },
    {
        let found = match &self.artist_releases {
            Option::Some(ars) => find_record(ars, artist_id),
            Option::None => Option::None,
        };
        if let Option::Some(k) = found {
            if let Option::Some(ars) = &mut self.artist_releases {
                let ghost pre = ars@;
                let old_rec = ars.remove(k);
                ars.insert(k, ArtistReleases { artist: old_rec.artist, releases });
                proof {
                    assert(ars@ =~= pre.update(
                        k as int,
                        ArtistReleases { artist: pre[k as int].artist, releases: ars@[k as int].releases },
                    ));
                }
            }
        }
    }

    /// The releases cached for the artist with the given id, cloned; `None`
    /// when the artist is unknown.
    pub fn get_releases_for_artist(&self, artist_id: &str) -> (r: Option<Vec<Album>>)
        ensures
            match self.recs() {
                Option::Some(s) => {
                    let j = find_artist_idx(s, artist_id@);
                    if j < 0 {
                        r is None
                    } else {
                        &&& r matches Option::Some(v)
                        &&& deep_albums(v@) == deep_albums(s[j].releases@)
                    }
                },
                Option::None => r is None,
            },
    {
        match &self.artist_releases {
            Option::Some(ars) => match find_record(ars, artist_id) {
                Option::Some(k) => Option::Some(clone_albums(&ars[k].releases)),
                Option::None => Option::None,
            },
            Option::None => Option::None,
        }
    }

    /// All artists on record, cloned, in store order.
    pub fn get_all_artists(&self) -> (r: Option<Vec<Artist>>)
        ensures
            match self.recs() {
                Option::Some(s) => {
                    &&& r matches Option::Some(v)
                    &&& v@.len() == s.len()
                    &&& forall|i: int| 0 <= i < s.len() ==> (#[trigger] v@[i])@ == s[i].artist@
                },
                Option::None => r is None,
            },
    {
        match &self.artist_releases {
            Option::Some(ars) => {
                let mut out: Vec<Artist> = Vec::new();
                let mut i: usize = 0;
                while i < ars.len()
                    invariant
                        0 <= i <= ars@.len(),
                        out@.len() == i as int,
                        forall|j: int|
                            0 <= j < i as int ==> (#[trigger] out@[j])@ == ars@[j].artist@,
                    decreases ars@.len() - i,
                {
                    out.push(ars[i].artist.clone());
                    i = i + 1;
                }
                Option::Some(out)
            },
            Option::None => Option::None,
        }
    }

    /// How many artists are on record.
    pub fn count_artists(&self) -> (r: usize)
        ensures
            r == match self.recs() {
                Option::Some(s) => s.len() as int,
                Option::None => 0,
            },
    {
        match &self.artist_releases {
            Option::Some(ars) => ars.len(),
            Option::None => 0,
        }
    }

    /// Total releases across the records of `s`.
    pub open spec fn total_releases(s: Seq<ArtistReleases>) -> int
        decreases s.len(),
    {
        if s.len() == 0 {
            0
        } else {
            Self::total_releases(s.drop_last()) + s.last().releases@.len()
        }
    }

    /// How many releases are on record across all artists, saturating at the
    /// machine's count limit.
    pub fn count_releases(&self) -> (r: usize)
        ensures
            match self.recs() {
                Option::Some(s) => if Self::total_releases(s) <= usize::MAX {
                    r == Self::total_releases(s)
                } else {
                    r == usize::MAX
                },
                Option::None => r == 0,
            },
    {
        proof {
            lemma_total_releases_nonneg(Seq::<ArtistReleases>::empty());
        }
        match &self.artist_releases {
            Option::Some(ars) => {
                let ghost s = ars@;
                let mut acc: usize = 0;
                let mut i: usize = 0;
                while i < ars.len()
                    invariant
                        0 <= i <= s.len(),
                        s == ars@,
                        if Self::total_releases(s.subrange(0, i as int)) <= usize::MAX {
                            acc == Self::total_releases(s.subrange(0, i as int))
                        } else {
                            acc == usize::MAX
                        },
                    decreases s.len() - i,
                {
                    let ghost pre = s.subrange(0, i as int);
                    let ghost next = s.subrange(0, i as int + 1);
                    proof {
                        assert(next.drop_last() =~= pre);
                        assert(next.last() == s[i as int]);
                        lemma_total_releases_nonneg(pre);
                    }
                    let l = ars[i].releases.len();
                    if acc <= usize::MAX - l {
                        acc = acc + l;
                    } else {
                        acc = usize::MAX;
                    }
                    i = i + 1;
                }
                proof {
                    assert(s.subrange(0, s.len() as int) =~= s);
                }
                acc
            },
            Option::None => 0,
        }
    }

    /// All records, cloned, in store order.
    pub fn all(&self) -> (r: Option<Vec<ArtistReleases>>)
        ensures
            match self.recs() {
                Option::Some(s) => {
                    &&& r matches Option::Some(v)
                    &&& v@.len() == s.len()
                    &&& forall|i: int| 0 <= i < s.len() ==> (#[trigger] v@[i])@ == s[i]@
                },
                Option::None => r is None,
            },
    {
        match &self.artist_releases {
            Option::Some(ars) => {
                let mut out: Vec<ArtistReleases> = Vec::new();
                let mut i: usize = 0;
                while i < ars.len()
                    invariant
                        0 <= i <= ars@.len(),
                        out@.len() == i as int,
                        forall|j: int| 0 <= j < i as int ==> (#[trigger] out@[j])@ == ars@[j]@,
                    decreases ars@.len() - i,
                {
                    out.push(ars[i].clone());
                    i = i + 1;
                }
                Option::Some(out)
            },
            Option::None => Option::None,
        }
    }
}

pub proof fn lemma_total_releases_nonneg(s: Seq<ArtistReleases>)
    ensures
        ArtistReleaseManager::total_releases(s) >= 0,
    decreases s.len(),
{
    if s.len() > 0 {
        lemma_total_releases_nonneg(s.drop_last());
    }
}

/// The record finder looks only at artist ids, so it is unmoved by a
/// replacement that keeps every id.
proof fn lemma_find_same_ids(s1: Seq<ArtistReleases>, s2: Seq<ArtistReleases>, id: Seq<char>)
    requires
        s1.len() == s2.len(),
        forall|i: int| 0 <= i < s1.len() ==> (#[trigger] s1[i]).artist.id@ == s2[i].artist.id@,
    ensures
        find_artist_idx(s1, id) == find_artist_idx(s2, id),
    decreases s1.len(),
{
    if s1.len() > 0 {
        assert(s1[0].artist.id@ == s2[0].artist.id@);
        let t1 = s1.drop_first();
        let t2 = s2.drop_first();
        assert(forall|i: int|
            0 <= i < t1.len() ==> (#[trigger] t1[i]).artist.id@ == t2[i].artist.id@) by {
            assert(forall|i: int| 0 <= i < t1.len() ==> t1[i] == s1[i + 1] && t2[i] == s2[i + 1]);
        }
        lemma_find_same_ids(t1, t2, id);
    }
}

/// Replacing an artist's releases twice in a row leaves the store exactly as
/// a single replacement with the second list would: never a union of both.
pub proof fn lemma_replace_twice(
    s: Seq<ArtistReleases>,
    id: Seq<char>,
    first: Vec<Album>,
    second: Vec<Album>,
)
    ensures
        spec_store_replace(spec_store_replace(s, id, first), id, second) == spec_store_replace(
            s,
            id,
            second,
        ),
{
    let j = find_artist_idx(s, id);
    if j >= 0 {
        lemma_find_artist_idx(s, id);
        let once = spec_store_replace(s, id, first);
        assert(once.len() == s.len());
        assert(forall|i: int|
            0 <= i < s.len() ==> (#[trigger] once[i]).artist.id@ == s[i].artist.id@);
        lemma_find_same_ids(once, s, id);
        assert(once[j].artist == s[j].artist);
        assert(spec_store_replace(once, id, second) =~= spec_store_replace(s, id, second));
    }
}

} // verus!
