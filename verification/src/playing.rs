//! De-duplication of in-flight sounds.
//!
//! The player itself is an outside collaborator that the shell drives;
//! the engine only decides whether a trigger should start playback:
//! overlapping triggers of the same identifier are ignored, not queued.
//! The identifiers currently playing are owned explicitly by a
//! [`PlayingSet`] (one for file paths, one for embedded-audio ids) instead
//! of process-wide state.

use crate::corpus::contains_str;
use crate::text::str_eq;
use vstd::prelude::*;

verus! {

/// The set of identifiers whose playback is in flight.
pub struct PlayingSet {
    pub ids: Vec<String>,
}

impl PlayingSet {
    /// No identifier is tracked twice.
    pub open spec fn wf(self) -> bool {
        forall|a: int, b: int| 0 <= a < b < self.ids@.len() ==> self.ids@[a]@ != self.ids@[b]@
    }

    /// Nothing is playing at first.
    pub fn new() -> (r: PlayingSet)
        ensures
            r.wf(),
            r.ids@.len() == 0,
    {
        PlayingSet { ids: Vec::new() }
    }

    fn position_of(&self, id: &str) -> (r: Option<usize>)
        ensures
            (r is Some) == contains_str(self.ids@, id@),
            r is Some ==> r->Some_0 < self.ids@.len() && self.ids@[r->Some_0 as int]@ == id@,
    {
        let mut i: usize = 0;
        while i < self.ids.len()
            invariant
                i <= self.ids@.len(),
                forall|j: int| 0 <= j < i ==> self.ids@[j]@ != id@,
            decreases self.ids@.len() - i,
        {
            if str_eq(self.ids[i].as_str(), id) {
                return Some(i);
            }
            i = i + 1;
        }
        None
    }

    /// Whether this identifier is currently playing.
    pub fn is_playing(&self, id: &str) -> (r: bool)
        ensures
            r == contains_str(self.ids@, id@),
    {
        match self.position_of(id) {
            Some(_) => true,
            None => false,
        }
    }

    /// Claims an identifier before starting its playback. A trigger that
    /// overlaps one already in flight is refused, and the caller skips the
    /// sound instead of queueing it.
    pub fn try_begin(&mut self, id: &str) -> (started: bool)
        requires
            old(self).wf(),
        ensures
            final(self).wf(),
            started == !contains_str(old(self).ids@, id@),
            forall|t: Seq<char>|
                #[trigger] contains_str(final(self).ids@, t) == (contains_str(old(self).ids@, t)
                    || (started && t == id@)),
    {
        if self.is_playing(id) {
            return false;
        }
        let ghost prev = self.ids@;
        self.ids.push(String::from_str(id));
        proof {
            assert forall|t: Seq<char>| #[trigger]
                contains_str(self.ids@, t) == (contains_str(prev, t) || t == id@) by {
                if contains_str(self.ids@, t) {
                    let k = choose|k: int| 0 <= k < self.ids@.len() && self.ids@[k]@ == t;
                    if k < prev.len() {
                        assert(prev[k]@ == t);
                    }
                }
                if contains_str(prev, t) {
                    let k = choose|k: int| 0 <= k < prev.len() && prev[k]@ == t;
                    assert(self.ids@[k]@ == t);
                }
                if t == id@ {
                    assert(self.ids@[prev.len() as int]@ == t);
                }
            }
        }
        true
    }

    /// Forgets an embedded-audio identifier once its playback ended, so the
    /// same sound can be triggered again.
    pub fn cleanup_id(&mut self, id: &str)
        requires
            old(self).wf(),
        ensures
            final(self).wf(),
            forall|t: Seq<char>|
                #[trigger] contains_str(final(self).ids@, t) == (contains_str(old(self).ids@, t)
                    && t != id@),
    {
        let ghost prev = self.ids@;
        match self.position_of(id) {
            Some(i) => {
                self.ids.remove(i);
                proof {
                    assert forall|t: Seq<char>| #[trigger]
                        contains_str(self.ids@, t) == (contains_str(prev, t) && t != id@) by {
                        assert(forall|k: int|
                            0 <= k < self.ids@.len() ==> #[trigger] self.ids@[k] == (if k < i {
                                prev[k]
                            } else {
                                prev[k + 1]
                            }));
                        if contains_str(self.ids@, t) {
                            let k = choose|k: int|
                                0 <= k < self.ids@.len() && self.ids@[k]@ == t;
                            if k < i {
                                assert(prev[k]@ == t);
                                assert(t != id@);
                            } else {
                                assert(prev[k + 1]@ == t);
                                assert(t != id@);
                            }
                        }
                        if contains_str(prev, t) && t != id@ {
                            let k = choose|k: int| 0 <= k < prev.len() && prev[k]@ == t;
                            if k < i {
                                assert(self.ids@[k]@ == t);
                            } else {
                                assert(k != i);
                                assert(self.ids@[k - 1]@ == t);
                            }
                        }
                    }
                }
            }
            None => {
                proof {
                    assert forall|t: Seq<char>| #[trigger]
                        contains_str(self.ids@, t) == (contains_str(prev, t) && t != id@) by {
                        if contains_str(prev, t) && t == id@ {
                            let k = choose|k: int| 0 <= k < prev.len() && prev[k]@ == t;
                        }
                    }
                }
            }
        }
    }

    /// Forgets a file path once its playback ended; path-keyed sounds are
    /// de-duplicated exactly like embedded-audio identifiers.
    pub fn cleanup_playing_file(&mut self, path: &str)
        requires
            old(self).wf(),
        ensures
            final(self).wf(),
            forall|t: Seq<char>|
                #[trigger] contains_str(final(self).ids@, t) == (contains_str(old(self).ids@, t)
                    && t != path@),
    {
        self.cleanup_id(path);
    }
}

} // verus!
