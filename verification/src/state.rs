//! Sync-state bookkeeping: which entity ids a pass has already handled.
//! The in-memory part lives here; reading and writing the persisted form is
//! the caller's business.

use vstd::prelude::*;

use crate::text::str_eq;

verus! {

/// State kind under which processed artist ids are recorded.
pub const STATE_TYPE_ARTISTS: &'static str = "state_artists";

/// State kind under which processed release-fetch artist ids are recorded.
pub const STATE_TYPE_RELEASES: &'static str = "state_releases";

/// Tracks the ids already processed in the current pass of one state kind,
/// so an interrupted pass can resume where it stopped.
pub struct StateManager {
    state_type: String,
    state: Vec<String>,
}

impl StateManager {
    /// The state kind this manager records under.
    pub closed spec fn kind(&self) -> Seq<char> {
        self.state_type@
    }

    /// The recorded ids, in insertion order.
    pub closed spec fn ids(&self) -> Seq<Seq<char>> {
        self.state@.map_values(|s: String| s@)
    }

    /// Whether an id is recorded.
    pub open spec fn spec_has(&self, id: Seq<char>) -> bool {
        self.ids().contains(id)
    }

    /// A fresh, empty state of the given kind.
    pub fn new(state_type: String) -> (r: Self)
        ensures
            r.kind() == state_type@,
            r.ids() == Seq::<Seq<char>>::empty(),
    {
        let r = StateManager { state_type, state: Vec::new() };
        proof {
            assert(r.ids() =~= Seq::<Seq<char>>::empty());
        }
        r
    }

    /// Builds a state from ids read back from storage.
    pub fn from_parts(state_type: String, state: Vec<String>) -> (r: Self)
        ensures
            r.kind() == state_type@,
            r.ids() == state@.map_values(|s: String| s@),
    {
        StateManager { state_type, state }
    }

    /// Records one more id; duplicates are the caller's concern.
    pub fn add(&mut self, item: String)
        ensures
            final(self).kind() == old(self).kind(),
            final(self).ids() == old(self).ids().push(item@),
    {
        let ghost pre = self.state@;
        self.state.push(item);
        proof {
            assert(self.state@.map_values(|s: String| s@) =~= pre.map_values(|s: String| s@).push(
                item@,
            ));
        }
    }

    /// The recorded ids.
    pub fn get_state(&self) -> (r: &Vec<String>)
        ensures
            r@.map_values(|s: String| s@) == self.ids(),
    {
        &self.state
    }

    /// Whether the given id was already processed.
    pub fn has(&self, artist_id: String) -> (r: bool)
        ensures
            r == self.spec_has(artist_id@),
    {
        let n = self.state.len();
        let mut i: usize = 0;
        while i < n
            invariant
                0 <= i <= n,
                n == self.state@.len(),
                forall|j: int| 0 <= j < i as int ==> (#[trigger] self.state@[j])@ != artist_id@,
            decreases n - i,
        {
            if str_eq(self.state[i].as_str(), artist_id.as_str()) {
                proof {
                    assert(self.ids()[i as int] == artist_id@);
                }
                return true;
            }
            i = i + 1;
        }
        proof {
            if self.spec_has(artist_id@) {
                let w = choose|w: int| 0 <= w < self.ids().len() && self.ids()[w] == artist_id@;
                assert(self.state@[w]@ == artist_id@);
            }
        }
        false
    }

    /// Forgets every recorded id, for use once a pass has fully completed;
    /// removing the persisted artifact is the caller's business.
    pub fn clear(&mut self)
        ensures
            final(self).kind() == old(self).kind(),
            final(self).ids() == Seq::<Seq<char>>::empty(),
    {
        self.state.clear();
        proof {
            assert(self.ids() =~= Seq::<Seq<char>>::empty());
        }
    }
}

} // verus!
