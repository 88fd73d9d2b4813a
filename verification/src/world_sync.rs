//! The host's copy of the world: one slot per chunk section, each owned by
//! the peer that last sent it with enough priority.
use crate::world::{priority_rank, Chunk, ChunkPos, Pixel, PixelRun, Priority};
use crate::seen::SeenSections;
use crate::world_write::ChunkWrite;
use std::collections::HashMap;
use vstd::prelude::*;

verus! {

broadcast use vstd::std_specs::hash::group_hash_axioms;

/// The stored state of one chunk section.
pub struct ChunkVal {
    pixel_run: PixelRun,
    priority: Priority,
    peer: u64,
}

/// The host's copy of the world.
pub struct WorldSync {
    chunks: HashMap<u64, ChunkVal>,
}

/// What a slot holds: `(runs, priority, owning peer)`.
pub type SlotView = (Seq<(u16, Pixel)>, Priority, u64);

/// The slot number of a chunk section.
pub open spec fn slot_of(pos: ChunkPos) -> u64 {
    ((pos.y * 512 + pos.x) * 256 + pos.section) as u64
}

/// The section lies in the world grid.
pub open spec fn pos_in_grid(pos: ChunkPos) -> bool {
    pos.x < 512 && pos.y < 512
}

impl View for WorldSync {
    type V = Map<u64, SlotView>;

    closed spec fn view(&self) -> Map<u64, SlotView> {
        self.chunks@.map_values(|v: ChunkVal| (v.pixel_run.vec@, v.priority, v.peer))
    }
}

/// Receiving section `c` from `peer`: the section is stored unless another
/// peer holds the slot with the same or a higher priority, in which case
/// the held runs have to be sent back to `peer`.
pub open spec fn sync_section(m: Map<u64, SlotView>, peer: u64, c: (u64, Seq<(u16, Pixel)>, Priority)) -> (
    Map<u64, SlotView>,
    Option<Seq<(u16, Pixel)>>,
) {
    let (k, runs, priority) = c;
    if m.contains_key(k) && !(priority_rank(priority) > priority_rank(m[k].1) || m[k].2 == peer) {
        (m, Some(m[k].0))
    } else {
        (m.insert(k, (runs, priority, peer)), None)
    }
}

/// Receiving the sections `cs` from `peer`, in order: the final copy of the
/// world and the runs to send back.
pub open spec fn sync_sections(
    m: Map<u64, SlotView>,
    peer: u64,
    cs: Seq<(u64, Seq<(u16, Pixel)>, Priority)>,
) -> (Map<u64, SlotView>, Seq<Seq<(u16, Pixel)>>)
    decreases cs.len(),
{
    if cs.len() == 0 {
        (m, Seq::empty())
    } else {
        let (m1, back) = sync_sections(m, peer, cs.drop_last());
        let (m2, b) = sync_section(m1, peer, cs.last());
        match b {
            Some(r) => (m2, back.push(r)),
            None => (m2, back),
        }
    }
}

/// The abstract content of a received section.
pub open spec fn chunk_item(c: Chunk) -> (u64, Seq<(u16, Pixel)>, Priority) {
    (slot_of(c.pos), c.pixel_run.vec@, c.priority)
}

/// A copy of a list of runs.
fn copy_runs(v: &Vec<(u16, Pixel)>) -> (r: Vec<(u16, Pixel)>)
    ensures
        r@ == v@,
{
    let mut r: Vec<(u16, Pixel)> = Vec::with_capacity(v.len());
    let mut i: usize = 0;
    while i < v.len()
        invariant
            i <= v@.len(),
            r@ == v@.subrange(0, i as int),
        decreases v@.len() - i,
    {
        r.push(v[i]);
        proof {
            assert(v@.subrange(0, i + 1) =~= v@.subrange(0, i as int).push(v@[i as int]));
        }
        i = i + 1;
    }
    assert(v@.subrange(0, v@.len() as int) =~= v@);
    r
}

impl Default for WorldSync {
    /// An empty copy of the world.
    fn default() -> (w: Self)
        ensures
            w@ == Map::<u64, SlotView>::empty(),
    {
        let w = Self { chunks: HashMap::new() };
        assert(w@ =~= Map::<u64, SlotView>::empty());
        w
    }
}

impl WorldSync {
    /// Stores one received section; returns the runs to send back, if the
    /// section was refused.
    fn push_section(&mut self, peer: u64, chunk: Chunk) -> (back: Option<PixelRun>)
        requires
            pos_in_grid(chunk.pos),
        ensures
            final(self)@ == sync_section(old(self)@, peer, chunk_item(chunk)).0,
            back is Some <==> sync_section(old(self)@, peer, chunk_item(chunk)).1 is Some,
            back is Some ==> back.unwrap().vec@ == sync_section(
                old(self)@,
                peer,
                chunk_item(chunk),
            ).1.unwrap(),
    {
        let key: u64 = slot(chunk.pos);
        let refused = match self.chunks.get(&key) {
            Some(prev) => {
                if chunk.priority > prev.priority || prev.peer == peer {
                    None
                } else {
                    Some(PixelRun { vec: copy_runs(&prev.pixel_run.vec) })
                }
            },
            None => None,
        };
        match refused {
            Some(r) => Some(r),
            None => {
                self.chunks.insert(
                    key,
                    ChunkVal { pixel_run: chunk.pixel_run, priority: chunk.priority, peer },
                );
                proof {
                    assert(self@ =~= old(self)@.insert(
                        key,
                        (chunk.pixel_run.vec@, chunk.priority, peer),
                    ));
                }
                None
            },
        }
    }

    /// Stores the sections `chunks` received from `peer`, in order, and
    /// returns the held sections that refused them, to be sent back to
    /// `peer`.
    pub fn push_world(&mut self, peer: u64, chunks: Vec<Chunk>) -> (send_back: Vec<ChunkWrite>)
        requires
            forall|i: int| 0 <= i < chunks@.len() ==> pos_in_grid(#[trigger] chunks@[i].pos),
        ensures
            final(self)@ == sync_sections(old(self)@, peer, chunks@.map_values(|c: Chunk| chunk_item(c))).0,
            send_back@.map_values(|w: ChunkWrite| w.pixel_run.vec@) == sync_sections(
                old(self)@,
                peer,
                chunks@.map_values(|c: Chunk| chunk_item(c)),
            ).1,
    {
        let ghost items = chunks@.map_values(|c: Chunk| chunk_item(c));
        // Reverse the sections so that popping yields them in order.
        let n = chunks.len();
        let mut stack: Vec<Chunk> = Vec::with_capacity(n);
        let mut input = chunks;
        while input.len() > 0
            invariant
                stack@.len() + input@.len() == items.len(),
                forall|i: int| 0 <= i < input@.len() ==> #[trigger] input@[i] == chunks@[i],
                forall|i: int|
                    0 <= i < stack@.len() ==> #[trigger] stack@[i] == chunks@[items.len() - 1 - i],
                items == chunks@.map_values(|c: Chunk| chunk_item(c)),
            decreases input@.len(),
        {
            let c = input.pop().unwrap();
            stack.push(c);
        }
        let mut send_back: Vec<ChunkWrite> = Vec::with_capacity(n);
        let ghost mut done: int = 0;
        proof {
            assert(items.subrange(0, 0) =~= Seq::<(u64, Seq<(u16, Pixel)>, Priority)>::empty());
            assert(send_back@.map_values(|w: ChunkWrite| w.pixel_run.vec@) =~= Seq::<
                Seq<(u16, Pixel)>,
            >::empty());
        }
        while stack.len() > 0
            invariant
                done + stack@.len() == items.len(),
                0 <= done <= items.len(),
                forall|i: int|
                    0 <= i < stack@.len() ==> #[trigger] stack@[i] == chunks@[items.len() - 1 - i],
                forall|i: int| 0 <= i < chunks@.len() ==> pos_in_grid(#[trigger] chunks@[i].pos),
                items == chunks@.map_values(|c: Chunk| chunk_item(c)),
                self@ == sync_sections(old(self)@, peer, items.subrange(0, done)).0,
                send_back@.map_values(|w: ChunkWrite| w.pixel_run.vec@) == sync_sections(
                    old(self)@,
                    peer,
                    items.subrange(0, done),
                ).1,
            decreases stack@.len(),
        {
            let c = stack.pop().unwrap();
            proof {
                assert(c == chunks@[done]);
                assert(items.subrange(0, done + 1).drop_last() =~= items.subrange(0, done));
                assert(items.subrange(0, done + 1).last() == chunk_item(c));
            }
            let back = self.push_section(peer, c);
            match back {
                Some(r) => {
                    send_back.push(ChunkWrite { pixel_run: r });
                },
                None => {},
            }
            proof {
                done = done + 1;
                assert(send_back@.map_values(|w: ChunkWrite| w.pixel_run.vec@) =~= sync_sections(
                    old(self)@,
                    peer,
                    items.subrange(0, done),
                ).1);
            }
        }
        proof {
            assert(items.subrange(0, done) =~= items);
        }
        send_back
    }
}

/// A section held by one peer is never taken over by another peer with a
/// lower or equal priority; a section sent by the peer holding the slot, or
/// with a higher priority, always replaces the held one.
pub proof fn lemma_sync_section_ownership(
    m: Map<u64, SlotView>,
    peer: u64,
    c: (u64, Seq<(u16, Pixel)>, Priority),
)
    ensures
        ({
            let (m2, back) = sync_section(m, peer, c);
            let k = c.0;
            &&& m2.contains_key(k)
            &&& forall|j: u64| j != k ==> m2.contains_key(j) == m.contains_key(j) && (
            m.contains_key(j) ==> m2[j] == m[j])
            &&& (!m.contains_key(k) || m[k].2 == peer || priority_rank(c.2) > priority_rank(
                m[k].1,
            )) ==> m2[k] == (c.1, c.2, peer) && back is None
            &&& (m.contains_key(k) && m[k].2 != peer && priority_rank(c.2) <= priority_rank(
                m[k].1,
            )) ==> m2[k] == m[k] && back == Some(m[k].0)
        }),
{
}

/// The slot of a section of the world grid.
pub fn slot(pos: ChunkPos) -> (k: u64)
    requires
        pos_in_grid(pos),
    ensures
        k == slot_of(pos),
{
    ((pos.y as u64) * 512 + pos.x as u64) * 256 + pos.section as u64
}

/// The slots of the sections `cs`.
pub open spec fn slots_of(cs: Seq<Chunk>) -> Set<u64> {
    cs.map_values(|c: Chunk| slot_of(c.pos)).to_set()
}

/// What a round of world sync hands on: the slots of the sections that
/// left the view, if any did, and the sections in view, if there are any.
pub struct SyncRound {
    pub removed: Option<Vec<u64>>,
    pub sections: Option<Vec<Chunk>>,
}

/// Ends a round of world sync with the sections `sections` found in view:
/// they are marked seen; the sections seen last round and not in this one
/// are reported removed, each once, only if there are any; the sections are
/// handed on only if there are any. This round's sections become the last
/// round's.
pub fn sync_round(seen: &mut SeenSections, sections: Vec<Chunk>) -> (r: SyncRound)
    requires
        old(seen).wf(),
        forall|i: int| 0 <= i < sections@.len() ==> pos_in_grid(#[trigger] sections@[i].pos),
    ensures
        final(seen).wf(),
        final(seen)@ == (old(seen)@.1.union(slots_of(sections@)), Set::<u64>::empty()),
        ({
            let gone = old(seen)@.0.difference(old(seen)@.1.union(slots_of(sections@)));
            &&& r.removed is None <==> gone.is_empty()
            &&& r.removed matches Some(d) ==> d@.no_duplicates() && d@.to_set() == gone
        }),
        r.sections is None <==> sections@.len() == 0,
        r.sections matches Some(v) ==> v@ == sections@,
{
    let ghost old_seen = seen@;
    let ghost keys = sections@.map_values(|c: Chunk| slot_of(c.pos));
    let mut i: usize = 0;
    while i < sections.len()
        invariant
            i <= sections@.len(),
            seen.wf(),
            keys == sections@.map_values(|c: Chunk| slot_of(c.pos)),
            forall|j: int| 0 <= j < sections@.len() ==> pos_in_grid(#[trigger] sections@[j].pos),
            seen@ == (old_seen.0, old_seen.1.union(keys.subrange(0, i as int).to_set())),
        decreases sections@.len() - i,
    {
        let k = slot(sections[i].pos);
        seen.mark(k);
        proof {
            assert(keys.subrange(0, i + 1) =~= keys.subrange(0, i as int).push(k));
            keys.subrange(0, i as int).lemma_push_to_set_commute(k);
            assert(seen@.1 =~= old_seen.1.union(keys.subrange(0, i + 1).to_set()));
        }
        i = i + 1;
    }
    proof {
        assert(keys.subrange(0, i as int) =~= keys);
    }
    let removed = seen.sweep();
    let removed = if removed.len() == 0 {
        proof {
            assert(removed@.to_set() =~= Set::<u64>::empty());
        }
        None
    } else {
        proof {
            assert(removed@.to_set().contains(removed@[0]));
        }
        Some(removed)
    };
    let sections = if sections.len() == 0 {
        None
    } else {
        Some(sections)
    };
    SyncRound { removed, sections }
}

} // verus!
