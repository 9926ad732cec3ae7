//! The location store: a durable association from client IP string to the
//! most recently observed `Location`, with last-write-wins overwrite
//! semantics.
//!
//! Each request performs at most one independent write and no
//! read-before-write, so the store is modeled as an append-only journal of
//! writes whose observable value is the map taking every key to the last
//! value written under it.  The durable backing the host provides has the
//! same observable semantics: whichever write lands later determines the
//! final value.

use vstd::prelude::*;
use crate::http::str_equal;
use crate::location::{Location, LocationView};

verus! {

/// The association a journal of writes denotes: every key maps to the last
/// value written under it.
spec fn journal_map(entries: Seq<(String, Location)>) -> Map<Seq<char>, LocationView>
    decreases entries.len(),
{
    if entries.len() == 0 {
        Map::empty()
    } else {
        journal_map(entries.drop_last()).insert(entries.last().0@, entries.last().1@)
    }
}

/// Association from client IP string to the latest `Location` observed for
/// it.  Viewed as the map from key to most recently written value.
pub struct LocationStore {
    entries: Vec<(String, Location)>,
}

impl View for LocationStore {
    type V = Map<Seq<char>, LocationView>;

    closed spec fn view(&self) -> Map<Seq<char>, LocationView> {
        journal_map(self.entries@)
    }
}

impl LocationStore {
    /// An empty store: no key has ever been written.
    pub fn new() -> (r: LocationStore)
        ensures
            r@ == Map::<Seq<char>, LocationView>::empty(),
    {
        LocationStore { entries: Vec::new() }
    }

    /// Records `value` as the latest `Location` for `key`, overwriting
    /// whatever was associated with `key` before (last write wins).
    pub fn put(&mut self, key: String, value: Location)
        ensures
            final(self)@ == old(self)@.insert(key@, value@),
    {
        let ghost before = self.entries@;
        self.entries.push((key, value));
        proof {
            assert(self.entries@.drop_last() =~= before);
        }
    }

    /// Looks up the latest `Location` written for `key`, or `None` if no
    /// write for `key` ever happened.
    pub fn get(&self, key: &str) -> (r: Option<&Location>)
        ensures
            match r {
                Some(loc) => self@.contains_key(key@) && loc@ == self@[key@],
                None => !self@.contains_key(key@),
            },
    {
        let n = self.entries.len();
        proof {
            assert(self.entries@.subrange(0, n as int) =~= self.entries@);
        }
        let mut i: usize = n;
        while i > 0
            invariant
                i <= n,
                n == self.entries@.len(),
                self@.contains_key(key@) <==> journal_map(self.entries@.subrange(0, i as int)).contains_key(key@),
                self@.contains_key(key@) ==> journal_map(self.entries@.subrange(0, i as int))[key@] == self@[key@],
            decreases i,
        {
            i = i - 1;
            proof {
                assert(self.entries@.subrange(0, i as int + 1).drop_last() =~= self.entries@.subrange(0, i as int));
                assert(self.entries@.subrange(0, i as int + 1).last() == self.entries@[i as int]);
            }
            if str_equal(self.entries[i].0.as_str(), key) {
                proof {
                    assert(journal_map(self.entries@.subrange(0, i as int + 1)).contains_key(key@));
                    assert(journal_map(self.entries@.subrange(0, i as int + 1))[key@] == self.entries@[i as int].1@);
                }
                return Some(&self.entries[i].1);
            }
        }
        proof {
            assert(self.entries@.subrange(0, 0) =~= Seq::<(String, Location)>::empty());
        }
        None
    }
}

/// Two writes under the same key leave the value of the later one: the
/// store's overwrite is last-write-wins and retains no history.
pub proof fn lemma_last_write_wins(
    m: Map<Seq<char>, LocationView>,
    key: Seq<char>,
    first: LocationView,
    second: LocationView,
)
    ensures
        m.insert(key, first).insert(key, second) == m.insert(key, second),
{
    assert(m.insert(key, first).insert(key, second) =~= m.insert(key, second));
}

} // verus!
