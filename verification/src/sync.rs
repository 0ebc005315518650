//! The incremental release-sync engine: the decisions of a sync pass over
//! the followed artists, as a step machine. The caller performs each step's
//! outside work — the remote fetch, the persisting, the waiting — and feeds
//! the outcome back; every decision in between is made and verified here.

use vstd::prelude::*;

use crate::state::StateManager;
use crate::store::ArtistReleaseManager;
use crate::types::{deep_albums, Album, AlbumV, ArtistReleases};

verus! {

/// Artists handled per batch before a cooldown is considered.
pub const SYNC_BATCH_SIZE: usize = 100;

/// Longest server-suggested wait honoured, in seconds.
pub const RATE_LIMIT_MAX_WAIT: u64 = 120;

/// Pause between fetch batches, in seconds.
pub const BATCH_COOLDOWN_SECS: u64 = 30;

/// Page size requested per artist-releases fetch.
pub const RELEASE_FETCH_LIMIT: u32 = 50;

/// What the engine asks of its driver next.
pub enum SyncStep {
    /// Fetch the current releases of this artist and report back.
    Fetch { artist_id: String },
    /// Sleep the batch cooldown, then ask again.
    Cooldown,
    /// The pass is over; when every artist was handled, the sync state is
    /// due to be cleared.
    Done { all_processed: bool },
}

/// Honours a rate-limit hint only within a sane bound: the wait to sleep,
/// or nothing when the suggested wait is unreasonably long.
pub fn rate_limit_wait(retry_after: u64) -> (r: Option<u64>)
    ensures
        r == if retry_after <= RATE_LIMIT_MAX_WAIT {
            Option::Some(retry_after)
        } else {
            Option::<u64>::None
        },
{
    if retry_after <= RATE_LIMIT_MAX_WAIT {
        Option::Some(retry_after)
    } else {
        Option::None
    }
}

/// The releases cached for artists `[lo, hi)`, as album views in order.
pub open spec fn flat_cached(artists: Seq<ArtistReleases>, lo: int, hi: int) -> Seq<AlbumV>
    decreases hi - lo,
{
    if lo >= hi {
        Seq::empty()
    } else {
        flat_cached(artists, lo, hi - 1) + deep_albums(artists[hi - 1].releases@)
    }
}

/// Drives one release-sync pass: walks the artists in store order, skips the
/// ones already processed unless forced, asks its driver to fetch the rest
/// one at a time, spaces fetch batches with cooldowns, and aborts the pass
/// on the first fetch failure after the state has been checkpointed.
pub struct ReleaseSyncEngine {
    artists: Vec<ArtistReleases>,
    store: ArtistReleaseManager,
    state: StateManager,
    force: bool,
    idx: usize,
    batch_had_fetch: bool,
    awaiting: bool,
    collected: Vec<Album>,
    aborted: bool,
}

impl ReleaseSyncEngine {
    pub closed spec fn artists_seq(&self) -> Seq<ArtistReleases> {
        self.artists@
    }

    /// The ids recorded as processed.
    pub closed spec fn processed(&self) -> Seq<Seq<char>> {
        self.state.ids()
    }

    pub closed spec fn state_kind(&self) -> Seq<char> {
        self.state.kind()
    }

    pub closed spec fn store_recs(&self) -> Option<Seq<ArtistReleases>> {
        self.store.recs()
    }

    /// How many artists have been handled; also the next artist to look at.
    pub closed spec fn pos(&self) -> int {
        self.idx as int
    }

    pub closed spec fn is_forced(&self) -> bool {
        self.force
    }

    pub closed spec fn is_aborted(&self) -> bool {
        self.aborted
    }

    /// A fetch was requested and its outcome not yet reported.
    pub closed spec fn is_awaiting(&self) -> bool {
        self.awaiting
    }

    /// Whether the current batch has made a remote call so far.
    pub closed spec fn batch_fetched(&self) -> bool {
        self.batch_had_fetch
    }

    /// Everything fetched or reused this pass, as album views in order.
    pub closed spec fn collected_views(&self) -> Seq<AlbumV> {
        deep_albums(self.collected@)
    }

    pub open spec fn wf(&self) -> bool {
        &&& self.pos() <= self.artists_seq().len()
        &&& self.is_awaiting() ==> self.pos() < self.artists_seq().len() && !self.is_aborted()
    }

    /// Whether artist `i` can be served from cache: not forced, and already
    /// recorded as processed.
    pub open spec fn cache_hit(&self, i: int) -> bool {
        !self.is_forced() && self.processed().contains(self.artists_seq()[i].artist.id@)
    }

    /// Sets up a pass over the given artists with the loaded store and sync
    /// state.
    pub fn new(
        artists: Vec<ArtistReleases>,
        store: ArtistReleaseManager,
        state: StateManager,
        force: bool,
    ) -> (r: Self)
        ensures
            r.wf(),
            r.artists_seq() == artists@,
            r.store_recs() == store.recs(),
            r.processed() == state.ids(),
            r.state_kind() == state.kind(),
            r.is_forced() == force,
            r.pos() == 0,
            !r.is_aborted(),
            !r.is_awaiting(),
            !r.batch_fetched(),
            r.collected_views() == Seq::<AlbumV>::empty(),
    {
        let r = ReleaseSyncEngine {
            artists,
            store,
            state,
            force,
            idx: 0,
            batch_had_fetch: false,
            awaiting: false,
            collected: Vec::new(),
            aborted: false,
        };
        proof {
            assert(r.collected_views() =~= Seq::<AlbumV>::empty());
        }
        r
    }

    /// Decides the next step: consumes cache hits, reusing their stored
    /// releases; stops at batch boundaries for a cooldown when the batch
    /// made remote calls; asks for a fetch exactly at the first artist that
    /// is not a cache hit; and reports the pass done at the end or after an
    /// abort.
    pub fn next_step(&mut self) -> (r: SyncStep)
        requires
            old(self).wf(),
            !old(self).is_awaiting(),
        ensures
            final(self).wf(),
            final(self).artists_seq() == old(self).artists_seq(),
            final(self).store_recs() == old(self).store_recs(),
            final(self).processed() == old(self).processed(),
            final(self).state_kind() == old(self).state_kind(),
            final(self).is_forced() == old(self).is_forced(),
            final(self).is_aborted() == old(self).is_aborted(),
            old(self).pos() <= final(self).pos() <= final(self).artists_seq().len(),
            forall|i: int| old(self).pos() <= i < final(self).pos() ==> old(self).cache_hit(i),
            final(self).collected_views() == old(self).collected_views() + flat_cached(
                old(self).artists_seq(),
                old(self).pos(),
                final(self).pos(),
            ),
            match r {
                SyncStep::Fetch { artist_id } => {
                    &&& final(self).is_awaiting()
                    &&& final(self).pos() < final(self).artists_seq().len()
                    &&& artist_id@ == final(self).artists_seq()[final(self).pos()].artist.id@
                    &&& !final(self).cache_hit(final(self).pos())
                },
                SyncStep::Cooldown => {
                    &&& !final(self).is_awaiting()
                    &&& old(self).batch_fetched()
                    &&& !final(self).batch_fetched()
                },
                SyncStep::Done { all_processed } => {
                    &&& !final(self).is_awaiting()
                    &&& final(self).is_aborted() || final(self).pos()
                        == final(self).artists_seq().len()
                    &&& all_processed == (final(self).pos() == final(self).artists_seq().len())
                },
            },
    {
        let n = self.artists.len();
        proof {
            assert(self.collected_views() =~= old(self).collected_views() + flat_cached(
                old(self).artists_seq(),
                old(self).pos(),
                self.pos(),
            ));
        }
        loop
            invariant
                self.wf(),
                !self.is_awaiting(),
                n == self.artists_seq().len(),
                self.artists_seq() == old(self).artists_seq(),
                self.store_recs() == old(self).store_recs(),
                self.processed() == old(self).processed(),
                self.state_kind() == old(self).state_kind(),
                self.is_forced() == old(self).is_forced(),
                self.is_aborted() == old(self).is_aborted(),
                old(self).pos() <= self.pos() <= n,
                forall|i: int| old(self).pos() <= i < self.pos() ==> old(self).cache_hit(i),
                self.collected_views() == old(self).collected_views() + flat_cached(
                    old(self).artists_seq(),
                    old(self).pos(),
                    self.pos(),
                ),
                self.batch_fetched() ==> old(self).batch_fetched(),
            decreases n - self.idx + if self.batch_had_fetch {
                1int
            } else {
                0int
            },
        {
            if self.aborted {
                let all = self.idx == n;
                return SyncStep::Done { all_processed: all };
            }
            let at_boundary = self.idx == n || (self.idx > 0 && self.idx % SYNC_BATCH_SIZE == 0);
            if at_boundary && self.batch_had_fetch {
                self.batch_had_fetch = false;
                return SyncStep::Cooldown;
            }
            if self.idx == n {
                return SyncStep::Done { all_processed: true };
            }
            let id = self.artists[self.idx].artist.id.clone();
            if !self.force && self.state.has(id) {
                let ghost pre_pos = self.pos();
                let ghost pre_col = self.collected@;
                self.collected.extend_from_slice(self.artists[self.idx].releases.as_slice());
                proof {
                    let rel = self.artists@[pre_pos].releases@;
                    assert(deep_albums(self.collected@) =~= deep_albums(pre_col) + deep_albums(
                        rel,
                    )) by {
                        assert(forall|t: int|
                            0 <= t < pre_col.len() ==> self.collected@[t] == pre_col[t]);
                        assert(forall|t: int|
                            0 <= t < rel.len() ==> (#[trigger] self.collected@[pre_col.len() + t])@
                                == rel[t]@) by {
                            assert(forall|t: int|
                                0 <= t < rel.len() ==> vstd::pervasive::cloned::<Album>(
                                    rel[t],
                                    #[trigger] self.collected@[pre_col.len() + t],
                                ));
                        }
                    }
                }
                self.idx = self.idx + 1;
                proof {
                    assert(flat_cached(old(self).artists_seq(), old(self).pos(), self.pos())
                        =~= flat_cached(old(self).artists_seq(), old(self).pos(), pre_pos)
                        + deep_albums(old(self).artists_seq()[pre_pos].releases@));
                    assert(self.collected_views() =~= old(self).collected_views() + flat_cached(
                        old(self).artists_seq(),
                        old(self).pos(),
                        self.pos(),
                    ));
                }
            } else {
                self.awaiting = true;
                let id2 = self.artists[self.idx].artist.id.clone();
                return SyncStep::Fetch { artist_id: id2 };
            }
        }
    }

    /// Records a successful fetch for the artist the pending step named:
    /// the fetched releases join the pass's collection, the artist is marked
    /// processed, and the fetched list — empty or not — replaces the
    /// artist's stored releases wholesale, since every fetch returns the
    /// artist's current catalog window. The caller persists the store after
    /// this.
    pub fn record_fetch_success(&mut self, releases: Vec<Album>)
        requires
            old(self).wf(),
            old(self).is_awaiting(),
        ensures
            final(self).wf(),
            !final(self).is_awaiting(),
            !final(self).is_aborted(),
            final(self).artists_seq() == old(self).artists_seq(),
            final(self).is_forced() == old(self).is_forced(),
            final(self).state_kind() == old(self).state_kind(),
            final(self).pos() == old(self).pos() + 1,
            final(self).batch_fetched(),
            final(self).processed() == old(self).processed().push(
                old(self).artists_seq()[old(self).pos()].artist.id@,
            ),
            final(self).collected_views() == old(self).collected_views() + deep_albums(
                releases@,
            ),
            final(self).store_recs() == match old(self).store_recs() {
                Option::Some(s) => Option::Some(
                    crate::store::spec_store_replace(
                        s,
                        old(self).artists_seq()[old(self).pos()].artist.id@,
                        releases,
                    ),
                ),
                Option::None => Option::<Seq<ArtistReleases>>::None,
            },
    {
        let ghost pre_col = self.collected@;
        let n = self.artists.len();
        proof {
            assert(self.idx < n);
        }
        let id = self.artists[self.idx].artist.id.clone();
        self.collected.extend_from_slice(releases.as_slice());
        proof {
            assert(deep_albums(self.collected@) =~= deep_albums(pre_col) + deep_albums(
                releases@,
            )) by {
                assert(forall|t: int| 0 <= t < pre_col.len() ==> self.collected@[t] == pre_col[t]);
                assert(forall|t: int|
                    0 <= t < releases@.len() ==> (#[trigger] self.collected@[pre_col.len() + t])@
                        == releases@[t]@) by {
                    assert(forall|t: int|
                        0 <= t < releases@.len() ==> vstd::pervasive::cloned::<Album>(
                            releases@[t],
                            #[trigger] self.collected@[pre_col.len() + t],
                        ));
                }
            }
        }
        self.state.add(id.clone());
        self.store.add_releases_to_artist(id.as_str(), releases);
        self.idx = self.idx + 1;
        self.batch_had_fetch = true;
        self.awaiting = false;
    }

    /// Records a failed fetch: the whole remaining pass is abandoned, so
    /// that a systemic error is not retried artist by artist. The caller
    /// checkpoints the sync state right after this.
    pub fn record_fetch_failure(&mut self)
        requires
            old(self).wf(),
            old(self).is_awaiting(),
        ensures
            final(self).wf(),
            !final(self).is_awaiting(),
            final(self).is_aborted(),
            final(self).artists_seq() == old(self).artists_seq(),
            final(self).store_recs() == old(self).store_recs(),
            final(self).processed() == old(self).processed(),
            final(self).state_kind() == old(self).state_kind(),
            final(self).is_forced() == old(self).is_forced(),
            final(self).pos() == old(self).pos(),
            final(self).batch_fetched() == old(self).batch_fetched(),
            final(self).collected_views() == old(self).collected_views(),
    {
        self.aborted = true;
        self.awaiting = false;
    }

    /// The sync state, for checkpointing.
    pub fn sync_state(&self) -> (r: &StateManager)
        ensures
            r.ids() == self.processed(),
            r.kind() == self.state_kind(),
    {
        &self.state
    }

    /// The store, for persisting after a recorded fetch.
    pub fn store_ref(&self) -> (r: &ArtistReleaseManager)
        ensures
            r.recs() == self.store_recs(),
    {
        &self.store
    }

    /// Whether every artist of the pass was handled.
    pub fn all_processed(&self) -> (r: bool)
        ensures
            r == (self.pos() == self.artists_seq().len()),
    {
        self.idx == self.artists.len()
    }

    /// Takes the pass apart once it is done: the sync state, the store, the
    /// collected releases of this pass, and whether every artist was
    /// handled.
    pub fn finish(self) -> (r: (StateManager, ArtistReleaseManager, Vec<Album>, bool))
        ensures
            r.0.ids() == self.processed(),
            r.0.kind() == self.state_kind(),
            r.1.recs() == self.store_recs(),
            deep_albums(r.2@) == self.collected_views(),
            r.3 == (self.pos() == self.artists_seq().len()),
    {
        let all = self.idx == self.artists.len();
        (self.state, self.store, self.collected, all)
    }
}

} // verus!
