//! Bucketing freshly fetched releases into week-of-year partitions.

use vstd::prelude::*;

use crate::date::{
    day_index, lemma_days_before_year_2, parse_ymd, spec_parse_ymd, Date, MAX_YEAR,
};
use crate::text::str_eq;
use crate::types::Album;
use crate::weeks::{
    build_week, spec_anchor_year, spec_week_number, week_domain, week_start_index, WeekOfTheYear,
};

verus! {

use vstd::multiset::Multiset;

/// One week's bucket: the week, its anchor year, and the releases dated in
/// it.
#[derive(Debug)]
pub struct ReleaseWeek {
    pub week: WeekOfTheYear,
    pub year: i32,
    pub releases: Vec<Album>,
}

/// Whether an album takes part in week bucketing: day-precise, with a
/// release date that names a real calendar day inside the supported year
/// range.
pub open spec fn eligible(a: Album) -> bool {
    &&& a.release_date_precision@ == "day"@
    &&& spec_parse_ymd(a.release_date@) matches Some(d)
    &&& week_domain(spec_parse_ymd(a.release_date@)->Some_0)
}

/// The parsed release date of an eligible album.
pub open spec fn item_date(a: Album) -> Date {
    spec_parse_ymd(a.release_date@)->Some_0
}

/// The model of one bucket: its key, the ordinal of its week-start
/// Saturday, and its albums in arrival order.
pub struct BucketSpec {
    pub week: int,
    pub year: int,
    pub ws_index: int,
    pub releases: Seq<Album>,
}

/// Index of the first bucket keyed `(week, year)`, or -1.
pub open spec fn find_bucket(gs: Seq<BucketSpec>, week: int, year: int) -> int
    decreases gs.len(),
{
    if gs.len() == 0 {
        -1
    } else if gs[0].week == week && gs[0].year == year {
        0
    } else {
        let r = find_bucket(gs.drop_first(), week, year);
        if r < 0 {
            -1
        } else {
            r + 1
        }
    }
}

pub proof fn lemma_find_bucket(gs: Seq<BucketSpec>, week: int, year: int)
    ensures
        find_bucket(gs, week, year) >= 0 ==> find_bucket(gs, week, year) < gs.len() && gs[
            find_bucket(gs, week, year)
        ].week == week && gs[find_bucket(gs, week, year)].year == year && (forall|j: int|
            0 <= j < find_bucket(gs, week, year) ==> !((#[trigger] gs[j]).week == week && gs[
                j
            ].year == year)),
        find_bucket(gs, week, year) < 0 ==> forall|j: int|
            0 <= j < gs.len() ==> !((#[trigger] gs[j]).week == week && gs[j].year == year),
    decreases gs.len(),
{
    if gs.len() > 0 && !(gs[0].week == week && gs[0].year == year) {
        lemma_find_bucket(gs.drop_first(), week, year);
        let t = gs.drop_first();
        assert(forall|j: int| 0 <= j < t.len() ==> t[j] == gs[j + 1]);
        if find_bucket(t, week, year) >= 0 {
            assert(forall|j: int| 1 <= j < find_bucket(gs, week, year) ==> gs[j] == t[j - 1]);
        } else {
            assert(forall|j: int| 1 <= j < gs.len() ==> gs[j] == t[j - 1]);
        }
    }
}

/// The buckets that a pass over `items` produces: each eligible album joins
/// the bucket keyed by its release week's number and anchor year, in arrival
/// order; a new bucket opens at the end when none matches; every other album
/// is skipped.
pub open spec fn spec_bucket(items: Seq<Album>) -> Seq<BucketSpec>
    decreases items.len(),
{
    if items.len() == 0 {
        Seq::empty()
    } else {
        let gs = spec_bucket(items.drop_last());
        let a = items.last();
        if !eligible(a) {
            gs
        } else {
            let d = item_date(a);
            let wk = spec_week_number(d);
            let yr = spec_anchor_year(d);
            let j = find_bucket(gs, wk, yr);
            if j < 0 {
                gs.push(
                    BucketSpec {
                        week: wk,
                        year: yr,
                        ws_index: week_start_index(day_index(d)),
                        releases: seq![a],
                    },
                )
            } else {
                gs.update(
                    j,
                    BucketSpec {
                        week: gs[j].week,
                        year: gs[j].year,
                        ws_index: gs[j].ws_index,
                        releases: gs[j].releases.push(a),
                    },
                )
            }
        }
    }
}

/// No two buckets share a key, and every album sits in the bucket of its
/// own release week.
pub open spec fn buckets_wf(gs: Seq<BucketSpec>) -> bool {
    &&& forall|j: int, k: int|
        0 <= j < k < gs.len() ==> !((#[trigger] gs[j]).week == (#[trigger] gs[k]).week && gs[
            j
        ].year == gs[k].year)
    &&& forall|j: int, i: int|
        0 <= j < gs.len() && 0 <= i < gs[j].releases.len() ==> {
            let a = (#[trigger] gs[j].releases[i]);
            &&& eligible(a)
            &&& spec_week_number(item_date(a)) == gs[j].week
            &&& spec_anchor_year(item_date(a)) == gs[j].year
        }
}

pub proof fn lemma_bucket_wf(items: Seq<Album>)
    ensures
        buckets_wf(spec_bucket(items)),
    decreases items.len(),
{
    if items.len() > 0 {
        lemma_bucket_wf(items.drop_last());
        let gs = spec_bucket(items.drop_last());
        let a = items.last();
        let out = spec_bucket(items);
        if eligible(a) {
            let d = item_date(a);
            let wk = spec_week_number(d);
            let yr = spec_anchor_year(d);
            let j = find_bucket(gs, wk, yr);
            lemma_find_bucket(gs, wk, yr);
            if j < 0 {
                assert forall|x: int, k: int| 0 <= x < k < out.len() implies !((
                #[trigger] out[x]).week == (#[trigger] out[k]).week && out[x].year
                    == out[k].year) by {
                    if k < out.len() - 1 {
                        assert(out[x] == gs[x] && out[k] == gs[k]);
                    } else {
                        assert(out[x] == gs[x]);
                    }
                }
                assert forall|x: int, i: int|
                    0 <= x < out.len() && 0 <= i < out[x].releases.len() implies {
                    let b = (#[trigger] out[x].releases[i]);
                    &&& eligible(b)
                    &&& spec_week_number(item_date(b)) == out[x].week
                    &&& spec_anchor_year(item_date(b)) == out[x].year
                } by {
                    if x < out.len() - 1 {
                        assert(out[x] == gs[x]);
                    } else {
                        assert(out[x].releases[i] == a);
                    }
                }
            } else {
                let g2 = out[j];
                assert(forall|x: int|
                    0 <= x < out.len() ==> (#[trigger] out[x]).week == gs[x].week && out[x].year
                        == gs[x].year);
                assert forall|x: int, i: int|
                    0 <= x < out.len() && 0 <= i < out[x].releases.len() implies {
                    let b = (#[trigger] out[x].releases[i]);
                    &&& eligible(b)
                    &&& spec_week_number(item_date(b)) == out[x].week
                    &&& spec_anchor_year(item_date(b)) == out[x].year
                } by {
                    if x != j {
                        assert(out[x] == gs[x]);
                    } else {
                        if i < gs[j].releases.len() {
                            assert(out[j].releases[i] == gs[j].releases[i]);
                        } else {
                            assert(out[j].releases[i] == a);
                        }
                    }
                }
            }
        }
    }
}

/// The albums of all buckets, bucket by bucket.
pub open spec fn flatten_buckets(gs: Seq<BucketSpec>) -> Seq<Album>
    decreases gs.len(),
{
    if gs.len() == 0 {
        Seq::empty()
    } else {
        flatten_buckets(gs.drop_last()) + gs.last().releases
    }
}

/// The eligible albums of `items`, as a multiset.
pub open spec fn eligible_multiset(items: Seq<Album>) -> Multiset<Album>
    decreases items.len(),
{
    if items.len() == 0 {
        Multiset::empty()
    } else {
        let m = eligible_multiset(items.drop_last());
        if eligible(items.last()) {
            m.insert(items.last())
        } else {
            m
        }
    }
}

/// An empty album list has the empty multiset.
proof fn lemma_empty_albums_multiset()
    ensures
        Seq::<Album>::empty().to_multiset() == Multiset::<Album>::empty(),
{
    vstd::seq_lib::to_multiset_len::<Album>(Seq::<Album>::empty());
    vstd::multiset::lemma_multiset_empty_len::<Album>(Seq::<Album>::empty().to_multiset());
}

/// Appending to one bucket's albums adds exactly that album to the flattened
/// whole.
proof fn lemma_flatten_update_push(gs: Seq<BucketSpec>, j: int, g2: BucketSpec, a: Album)
    requires
        0 <= j < gs.len(),
        g2.releases == gs[j].releases.push(a),
    ensures
        flatten_buckets(gs.update(j, g2)).to_multiset() == flatten_buckets(
            gs,
        ).to_multiset().insert(a),
    decreases gs.len(),
{
    broadcast use vstd::multiset::group_multiset_axioms;

    let up = gs.update(j, g2);
    vstd::seq_lib::lemma_multiset_commutative(
        flatten_buckets(up.drop_last()),
        up.last().releases,
    );
    vstd::seq_lib::lemma_multiset_commutative(
        flatten_buckets(gs.drop_last()),
        gs.last().releases,
    );
    if j == gs.len() - 1 {
        assert(up.drop_last() =~= gs.drop_last());
        assert(up.last() == g2);
        vstd::seq_lib::to_multiset_build::<Album>(gs.last().releases, a);
        assert(flatten_buckets(up).to_multiset() =~= flatten_buckets(gs).to_multiset().insert(
            a,
        ));
    } else {
        assert(up.drop_last() =~= gs.drop_last().update(j, g2));
        assert(up.last() == gs.last());
        lemma_flatten_update_push(gs.drop_last(), j, g2, a);
        assert(flatten_buckets(up).to_multiset() =~= flatten_buckets(gs).to_multiset().insert(
            a,
        ));
    }
}

/// Bucketing loses nothing and invents nothing: the albums of all buckets
/// together are exactly the eligible albums of the input, with their
/// multiplicities. With `lemma_bucket_wf` this places every eligible album
/// in exactly one bucket, the one of its own release week, and every other
/// album in none.
pub proof fn lemma_bucket_conservation(items: Seq<Album>)
    ensures
        flatten_buckets(spec_bucket(items)).to_multiset() == eligible_multiset(items),
    decreases items.len(),
{
    broadcast use vstd::multiset::group_multiset_axioms;

    if items.len() == 0 {
        assert(flatten_buckets(spec_bucket(items)) =~= Seq::<Album>::empty());
        lemma_empty_albums_multiset();
    } else {
        lemma_bucket_conservation(items.drop_last());
        let gs = spec_bucket(items.drop_last());
        let a = items.last();
        let out = spec_bucket(items);
        if eligible(a) {
            let d = item_date(a);
            let j = find_bucket(gs, spec_week_number(d), spec_anchor_year(d));
            lemma_find_bucket(gs, spec_week_number(d), spec_anchor_year(d));
            if j < 0 {
                let g = BucketSpec {
                    week: spec_week_number(d),
                    year: spec_anchor_year(d),
                    ws_index: week_start_index(day_index(d)),
                    releases: seq![a],
                };
                assert(out == gs.push(g));
                assert(out.drop_last() =~= gs);
                assert(out.last() == g);
                vstd::seq_lib::lemma_multiset_commutative(flatten_buckets(gs), g.releases);
                assert(seq![a].to_multiset() =~= Multiset::<Album>::empty().insert(a)) by {
                    assert(seq![a] =~= Seq::<Album>::empty().push(a));
                    vstd::seq_lib::to_multiset_build::<Album>(Seq::<Album>::empty(), a);
                    lemma_empty_albums_multiset();
                }
                assert(flatten_buckets(out).to_multiset() =~= eligible_multiset(items));
            } else {
                let g2 = BucketSpec {
                    week: gs[j].week,
                    year: gs[j].year,
                    ws_index: gs[j].ws_index,
                    releases: gs[j].releases.push(a),
                };
                lemma_flatten_update_push(gs, j, g2, a);
                assert(flatten_buckets(out).to_multiset() =~= eligible_multiset(items));
            }
        }
    }
}

/// Holds one week's releases under their `(week, year)` key. Reading and
/// writing the persisted bucket is the caller's business; this type carries
/// the key and the albums between those edges.
pub struct ReleaseWeekManager {
    week: u32,
    year: i32,
    releases: Vec<Album>,
}

impl ReleaseWeekManager {
    pub closed spec fn spec_week(&self) -> u32 {
        self.week
    }

    pub closed spec fn spec_year(&self) -> i32 {
        self.year
    }

    pub closed spec fn spec_releases(&self) -> Seq<Album> {
        self.releases@
    }

    /// A bucket for the given week, holding the given releases, or none.
    pub fn new(week: u32, year: i32, releases: Option<Vec<Album>>) -> (r: Self)
        ensures
            r.spec_week() == week,
            r.spec_year() == year,
            r.spec_releases() == match releases {
                Option::Some(v) => v@,
                Option::None => Seq::<Album>::empty(),
            },
    {
        let releases = match releases {
            Option::Some(v) => v,
            Option::None => Vec::new(),
        };
        ReleaseWeekManager { week, year, releases }
    }

    /// The held releases, cloned.
    pub fn get_releases(&self) -> (r: Result<Vec<Album>, String>)
        ensures
            r matches Ok(v) && crate::types::deep_albums(v@) == crate::types::deep_albums(
                self.spec_releases(),
            ),
    {
        Result::Ok(crate::types::clone_albums(&self.releases))
    }
}

/// Groups the given releases into week buckets keyed by week number and
/// anchor year. Only day-precise albums whose release date parses as a
/// calendar day take part; each lands in the bucket of its release week, in
/// arrival order, and a fresh bucket opens at the end of the list when none
/// matches. Buckets of different weeks carry no relative order promise
/// beyond first appearance.
pub fn prepare_remote_releases(remote_releases: Vec<Album>) -> (r: Vec<ReleaseWeek>)
    ensures
        ({
            let gs = spec_bucket(remote_releases@);
            &&& r@.len() == gs.len()
            &&& forall|j: int|
                0 <= j < gs.len() ==> {
                    let rw = #[trigger] r@[j];
                    &&& rw.year == gs[j].year
                    &&& rw.week.week == gs[j].week
                    &&& rw.releases@ == gs[j].releases
                    &&& rw.week.dates@.len() == 7
                    &&& forall|t: int|
                        0 <= t < 7 ==> (#[trigger] rw.week.dates@[t]).valid() && day_index(
                            rw.week.dates@[t],
                        ) == gs[j].ws_index + t
                }
        }),
{
    let ghost src = remote_releases@;
    let total: usize = remote_releases.len();
    let mut items = remote_releases;
    let mut out: Vec<ReleaseWeek> = Vec::new();
    let mut i: usize = 0;
    while items.len() > 0
        invariant
            src.len() == total as int,
            i as int + items@.len() == src.len(),
            items@ =~= src.subrange(i as int, src.len() as int),
            ({
                let gs = spec_bucket(src.subrange(0, i as int));
                &&& out@.len() == gs.len()
                &&& forall|j: int|
                    0 <= j < gs.len() ==> {
                        let rw = #[trigger] out@[j];
                        &&& rw.year == gs[j].year
                        &&& rw.week.week == gs[j].week
                        &&& rw.releases@ == gs[j].releases
                        &&& rw.week.dates@.len() == 7
                        &&& forall|t: int|
                            0 <= t < 7 ==> (#[trigger] rw.week.dates@[t]).valid() && day_index(
                                rw.week.dates@[t],
                            ) == gs[j].ws_index + t
                    }
            }),
        decreases items@.len(),
    {
        let ghost pre = src.subrange(0, i as int);
        let ghost prenext = src.subrange(0, i as int + 1);
        let ghost gs = spec_bucket(pre);
        proof {
            assert(prenext.drop_last() =~= pre);
            assert(prenext.last() == src[i as int]);
        }
        let album = items.remove(0);
        proof {
            assert(album == src[i as int]);
            assert(items@ =~= src.subrange(i as int + 1, src.len() as int));
        }
        if !str_eq(album.release_date_precision.as_str(), "day") {
            proof {
                assert(!eligible(album));
                assert(spec_bucket(prenext) == gs);
            }
            i = i + 1;
            continue ;
        }
        let parsed = parse_ymd(album.release_date.as_str());
        let d = match parsed {
            Option::Some(d) => d,
            Option::None => {
                proof {
                    assert(!eligible(album));
                    assert(spec_bucket(prenext) == gs);
                }
                i = i + 1;
                continue ;
            },
        };
        let dn = d.day_number();
        if !(dn >= 372 && d.year <= MAX_YEAR - 1) {
            proof {
                lemma_days_before_year_2();
                assert(!week_domain(d));
                assert(!eligible(album));
                assert(spec_bucket(prenext) == gs);
            }
            i = i + 1;
            continue ;
        }
        proof {
            lemma_days_before_year_2();
            assert(week_domain(d));
            assert(eligible(album));
            assert(item_date(album) == d);
        }
        let week = build_week(d);
        let ghost wk = spec_week_number(d);
        let ghost yr = spec_anchor_year(d);
        proof {
            lemma_find_bucket(gs, wk, yr);
        }
        // look for an existing bucket with this key
        let mut k: usize = 0;
        let n = out.len();
        let mut found: Option<usize> = Option::None;
        while k < n
            invariant_except_break
                0 <= k <= n,
                n == out@.len(),
                n == gs.len(),
                week.week == wk,
                week.year == yr,
                forall|j: int|
                    0 <= j < gs.len() ==> (#[trigger] out@[j]).week.week == gs[j].week
                        && out@[j].year == gs[j].year,
                found is None,
                forall|j: int|
                    0 <= j < k as int ==> !((#[trigger] gs[j]).week == wk && gs[j].year == yr),
                find_bucket(gs, wk, yr) >= 0 ==> find_bucket(gs, wk, yr) < gs.len() && gs[
                    find_bucket(gs, wk, yr)
                ].week == wk && gs[find_bucket(gs, wk, yr)].year == yr && (forall|j: int|
                    0 <= j < find_bucket(gs, wk, yr) ==> !((#[trigger] gs[j]).week == wk && gs[
                        j
                    ].year == yr)),
                find_bucket(gs, wk, yr) < 0 ==> forall|j: int|
                    0 <= j < gs.len() ==> !((#[trigger] gs[j]).week == wk && gs[j].year == yr),
            ensures
                match found {
                    Option::Some(f) => (f as int) < gs.len() && find_bucket(gs, wk, yr)
                        == f as int,
                    Option::None => find_bucket(gs, wk, yr) < 0,
                },
            decreases n - k,
        {
            if out[k].week.week == week.week && out[k].year == week.year {
                proof {
                    assert(out@[k as int].week.week == gs[k as int].week && out@[k as int].year
                        == gs[k as int].year);
                    assert(out@[k as int].year == week.year);
                    assert(gs[k as int].week == wk);
                    assert(gs[k as int].year == yr);
                    assert(find_bucket(gs, wk, yr) == k as int) by {
                        let f = find_bucket(gs, wk, yr);
                        if f < 0 {
                            assert(!((gs[k as int]).week == wk && gs[k as int].year == yr));
                        } else if f < k as int {
                            assert(!((gs[f]).week == wk && gs[f].year == yr));
                        } else if f > k as int {
                            assert(!((gs[k as int]).week == wk && gs[k as int].year == yr));
                        }
                    }
                }
                found = Option::Some(k);
                break ;
            }
            k = k + 1;
        }
        match found {
            Option::Some(f) => {
                let entry = out.remove(f);
                let ghost pre_rel = entry.releases@;
                let mut releases = entry.releases;
                releases.push(album);
                out.insert(
                    f,
                    ReleaseWeek { week: entry.week, year: entry.year, releases },
                );
                proof {
                    let j = find_bucket(gs, wk, yr);
                    assert(spec_bucket(prenext) == gs.update(
                        j,
                        BucketSpec {
                            week: gs[j].week,
                            year: gs[j].year,
                            ws_index: gs[j].ws_index,
                            releases: gs[j].releases.push(album),
                        },
                    ));
                }
            },
            Option::None => {
                let mut releases: Vec<Album> = Vec::new();
                releases.push(album);
                let yr_exec = week.year;
                out.push(ReleaseWeek { week, year: yr_exec, releases });
                proof {
                    assert(spec_bucket(prenext) == gs.push(
                        BucketSpec {
                            week: wk,
                            year: yr,
                            ws_index: week_start_index(day_index(d)),
                            releases: seq![album],
                        },
                    ));
                    assert(out@.last().releases@ =~= seq![album]);
                }
            },
        }
        i = i + 1;
    }
    proof {
        assert(src.subrange(0, src.len() as int) =~= src);
    }
    out
}

} // verus!
