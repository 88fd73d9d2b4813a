//! Which chunk sections a peer has in view, frame after frame, so that the
//! sections that left the view can be reported as deleted.
use std::collections::HashSet;
use vstd::prelude::*;

verus! {

broadcast use vstd::std_specs::hash::group_hash_axioms;

/// The section slots seen during the previous frame and those seen so far
/// during the current one.
pub struct SeenSections {
    last: Vec<u64>,
    now: HashSet<u64>,
    now_list: Vec<u64>,
}

impl View for SeenSections {
    /// `(seen last frame, seen this frame)`.
    type V = (Set<u64>, Set<u64>);

    closed spec fn view(&self) -> (Set<u64>, Set<u64>) {
        (self.last@.to_set(), self.now@)
    }
}

impl SeenSections {
    /// Each list holds a slot at most once, and the set of this frame's
    /// slots matches its list.
    pub closed spec fn wf(&self) -> bool {
        &&& self.last@.no_duplicates()
        &&& self.now_list@.no_duplicates()
        &&& self.now@ == self.now_list@.to_set()
    }

    /// Nothing seen yet.
    pub fn new() -> (s: Self)
        ensures
            s.wf(),
            s@ == (Set::<u64>::empty(), Set::<u64>::empty()),
    {
        let s = Self { last: Vec::new(), now: HashSet::new(), now_list: Vec::new() };
        assert(s.last@.to_set() =~= Set::<u64>::empty());
        assert(s.now_list@.to_set() =~= Set::<u64>::empty());
        s
    }

    /// Records that section slot `slot` is in view this frame.
    pub fn mark(&mut self, slot: u64)
        requires
            old(self).wf(),
        ensures
            final(self).wf(),
            final(self)@ == (old(self)@.0, old(self)@.1.insert(slot)),
    {
        if !self.now.contains(&slot) {
            self.now.insert(slot);
            self.now_list.push(slot);
            proof {
                old(self).now_list@.lemma_push_to_set_commute(slot);
                assert forall|i: int, j: int|
                    0 <= i < j < self.now_list@.len() implies self.now_list@[i]
                    != self.now_list@[j] by {
                    if j == self.now_list@.len() - 1 {
                        assert(old(self).now_list@.contains(self.now_list@[i]));
                    }
                }
            }
        } else {
            assert(self.now@ =~= self.now@.insert(slot));
        }
    }

    /// Ends the frame: returns, each once, the slots seen last frame and not
    /// this one, and makes this frame's slots the last frame's.
    pub fn sweep(&mut self) -> (deleted: Vec<u64>)
        requires
            old(self).wf(),
        ensures
            final(self).wf(),
            final(self)@ == (old(self)@.1, Set::<u64>::empty()),
            deleted@.no_duplicates(),
            deleted@.to_set() == old(self)@.0.difference(old(self)@.1),
    {
        let mut deleted: Vec<u64> = Vec::new();
        let mut i: usize = 0;
        while i < self.last.len()
            invariant
                self.wf(),
                self.last@ == old(self).last@,
                self.now@ == old(self).now@,
                self.now_list@ == old(self).now_list@,
                i <= self.last@.len(),
                deleted@.no_duplicates(),
                deleted@.to_set() == self.last@.subrange(0, i as int).to_set().difference(
                    self.now@,
                ),
            decreases self.last@.len() - i,
        {
            let s = self.last[i];
            let ghost before = deleted@;
            if !self.now.contains(&s) {
                deleted.push(s);
                proof {
                    assert(!before.contains(s)) by {
                        if before.contains(s) {
                            assert(before.to_set().contains(s));
                            let k = choose|k: int| 0 <= k < i && self.last@[k] == s;
                            assert(self.last@[k] == self.last@[i as int]);
                        }
                    }
                    assert forall|a: int, b: int|
                        0 <= a < b < deleted@.len() implies deleted@[a] != deleted@[b] by {
                        if b == deleted@.len() - 1 {
                            assert(before.contains(deleted@[a]));
                        }
                    }
                }
            }
            proof {
                assert(self.last@.subrange(0, i + 1) =~= self.last@.subrange(0, i as int).push(s));
                self.last@.subrange(0, i as int).lemma_push_to_set_commute(s);
                if deleted@.len() > before.len() {
                    before.lemma_push_to_set_commute(s);
                }
                assert(deleted@.to_set() =~= self.last@.subrange(0, i + 1).to_set().difference(
                    self.now@,
                ));
            }
            i = i + 1;
        }
        assert(self.last@.subrange(0, i as int) =~= self.last@);
        let mut fresh: Vec<u64> = Vec::new();
        std::mem::swap(&mut self.now_list, &mut fresh);
        self.last = fresh;
        self.now.clear();
        proof {
            assert(self.now_list@.to_set() =~= Set::<u64>::empty());
            assert(self.now@ =~= Set::<u64>::empty());
        }
        deleted
    }
}

} // verus!
