//! The tileset arena as a mathematical object: a sequence of slots, each
//! free or holding a tileset under a generation, and the order in which free
//! slots will be handed out again.

use vstd::prelude::*;
use crate::tile::TileSetReference;

verus! {

/// Number of slots that a handle can tell apart.
pub const ARENA_SLOTS: usize = 0x1_0000;

/// An occupied arena slot: the tileset's words and the generation under which
/// it was stored.
pub struct ArenaEntry {
    pub generation: u16,
    pub words: Seq<u32>,
}

/// The state of the tileset arena.
pub struct ArenaView {
    /// Slot by slot, the entry it holds, if any.
    pub slots: Seq<Option<ArenaEntry>>,
    /// The free slots, the next one to be reused first.
    pub free: Seq<int>,
    /// The generation that the next tileset will get.
    pub next_generation: u16,
}

/// The generation after `g`; the counter wraps.
pub open spec fn generation_after(g: u16) -> u16 {
    if g == 0xFFFF {
        0
    } else {
        (g + 1) as u16
    }
}

impl ArenaView {
    /// The free list names exactly the empty slots, each once.
    pub open spec fn wf(self) -> bool {
        &&& self.slots.len() <= ARENA_SLOTS
        &&& self.free.no_duplicates()
        &&& forall|i: int|
            0 <= i < self.free.len() ==> 0 <= #[trigger] self.free[i] < self.slots.len()
                && self.slots[self.free[i]] is None
        &&& forall|s: int|
            0 <= s < self.slots.len() && (#[trigger] self.slots[s]) is None ==> self.free.contains(
                s,
            )
    }

    /// A handle is live while its slot is occupied under the handle's own
    /// generation.
    pub open spec fn is_live(self, handle: TileSetReference) -> bool {
        &&& 0 <= handle.slot() < self.slots.len()
        &&& self.slots[handle.slot()] is Some
        &&& self.slots[handle.slot()]->0.generation == handle.issued()
    }

    /// The words of the tileset behind a live handle.
    pub open spec fn words(self, handle: TileSetReference) -> Seq<u32> {
        self.slots[handle.slot()]->0.words
    }

    /// Whether one more tileset can be given a handle.
    pub open spec fn has_room(self) -> bool {
        self.free.len() > 0 || self.slots.len() < ARENA_SLOTS
    }

    /// The slot that the next tileset will occupy.
    pub open spec fn next_slot(self) -> int {
        if self.free.len() > 0 {
            self.free[0]
        } else {
            self.slots.len() as int
        }
    }

    /// The arena after storing a tileset with the given words.
    pub open spec fn add(self, words: Seq<u32>) -> ArenaView {
        let entry = Some(ArenaEntry { generation: self.next_generation, words });
        ArenaView {
            slots: if self.free.len() > 0 {
                self.slots.update(self.free[0], entry)
            } else {
                self.slots.push(entry)
            },
            free: if self.free.len() > 0 {
                self.free.drop_first()
            } else {
                self.free
            },
            next_generation: generation_after(self.next_generation),
        }
    }

    /// The arena after giving up the slot of `handle`.
    pub open spec fn remove(self, handle: TileSetReference) -> ArenaView {
        ArenaView {
            slots: self.slots.update(handle.slot(), None),
            free: seq![handle.slot()] + self.free,
            next_generation: self.next_generation,
        }
    }

    /// Storing a tileset keeps the arena well formed.
    pub proof fn lemma_add_wf(self, words: Seq<u32>)
        requires
            self.wf(),
            self.has_room(),
        ensures
            self.add(words).wf(),
    {
        let after = self.add(words);
        if self.free.len() > 0 {
            let head = self.free[0];
            assert forall|i: int| 0 <= i < after.free.len() implies 0 <= #[trigger] after.free[i]
                < after.slots.len() && after.slots[after.free[i]] is None by {
                assert(after.free[i] == self.free[i + 1]);
                assert(self.free[i + 1] != self.free[0]);
            }
            assert forall|s: int|
                0 <= s < after.slots.len() && (#[trigger] after.slots[s]) is None implies after.free.contains(
                s,
            ) by {
                assert(s != head);
                assert(self.slots[s] is None);
                let j = choose|j: int| 0 <= j < self.free.len() && self.free[j] == s;
                assert(j != 0);
                assert(after.free[j - 1] == s);
            }
            assert(after.free.no_duplicates()) by {
                assert forall|i: int, j: int|
                    0 <= i < after.free.len() && 0 <= j < after.free.len() && i != j implies after.free[i]
                    != after.free[j] by {
                    assert(after.free[i] == self.free[i + 1]);
                    assert(after.free[j] == self.free[j + 1]);
                }
            }
        } else {
            assert forall|s: int|
                0 <= s < after.slots.len() && (#[trigger] after.slots[s]) is None implies after.free.contains(
                s,
            ) by {
                assert(s < self.slots.len());
                assert(self.slots[s] is None);
            }
        }
    }

    /// Giving up the slot of a live handle keeps the arena well formed.
    pub proof fn lemma_remove_wf(self, handle: TileSetReference)
        requires
            self.wf(),
            self.is_live(handle),
        ensures
            self.remove(handle).wf(),
    {
        let after = self.remove(handle);
        let slot = handle.slot();
        assert(!self.free.contains(slot));
        assert forall|i: int| 0 <= i < after.free.len() implies 0 <= #[trigger] after.free[i]
            < after.slots.len() && after.slots[after.free[i]] is None by {
            if i > 0 {
                assert(after.free[i] == self.free[i - 1]);
            }
        }
        assert forall|s: int|
            0 <= s < after.slots.len() && (#[trigger] after.slots[s]) is None implies after.free.contains(
            s,
        ) by {
            if s == slot {
                assert(after.free[0] == s);
            } else {
                assert(self.slots[s] is None);
                let j = choose|j: int| 0 <= j < self.free.len() && self.free[j] == s;
                assert(after.free[j + 1] == s);
            }
        }
        assert(after.free.no_duplicates()) by {
            assert forall|i: int, j: int|
                0 <= i < after.free.len() && 0 <= j < after.free.len() && i != j implies after.free[i]
                != after.free[j] by {
                if i > 0 {
                    assert(after.free[i] == self.free[i - 1]);
                }
                if j > 0 {
                    assert(after.free[j] == self.free[j - 1]);
                }
            }
        }
    }

    /// Two live handles that name the same slot are the same handle.
    pub proof fn lemma_live_handles_own_their_slots(
        self,
        first: TileSetReference,
        second: TileSetReference,
    )
        requires
            self.is_live(first),
            self.is_live(second),
            first.slot() == second.slot(),
        ensures
            first == second,
    {
        first.lemma_same(second);
    }

    /// Storing a tileset makes its handle live on a slot that no live handle
    /// named, and leaves every other handle as live as it was.
    pub proof fn lemma_add_live(self, words: Seq<u32>, handle: TileSetReference, other: TileSetReference)
        requires
            self.wf(),
            self.has_room(),
            handle.slot() == self.next_slot(),
            handle.issued() == self.next_generation,
        ensures
            self.add(words).is_live(handle),
            self.add(words).words(handle) == words,
            !self.is_live(other) || other.slot() != handle.slot(),
            other.slot() != handle.slot() ==> self.add(words).is_live(other) == self.is_live(other),
            self.is_live(other) ==> self.add(words).is_live(other) && self.add(words).words(other)
                == self.words(other),
    {
    }

    /// Storing a tileset, where the arena has room for it, takes exactly one
    /// slot into use: the slot of the new handle held nothing before, holds
    /// the tileset under the handle's generation afterwards, and every other
    /// slot is as it was. Room there is while a slot is free or fewer than
    /// 65536 slots exist, which is as many as a handle can tell apart.
    pub proof fn lemma_add_occupies_one_slot(self, words: Seq<u32>)
        requires
            self.wf(),
            self.has_room(),
        ensures
            0 <= self.next_slot() < ARENA_SLOTS,
            self.next_slot() >= self.slots.len() || self.slots[self.next_slot()] is None,
            self.add(words).slots.len() == (if self.free.len() > 0 {
                self.slots.len()
            } else {
                self.slots.len() + 1
            }),
            self.add(words).slots[self.next_slot()] == Some(
                ArenaEntry { generation: self.next_generation, words },
            ),
            forall|slot: int|
                0 <= slot < self.slots.len() && slot != self.next_slot() ==> self.add(
                    words,
                ).slots[slot] == self.slots[slot],
            self.add(words).next_generation == generation_after(self.next_generation),
    {
    }

    /// Giving up a live handle ends it and no other: every handle on another
    /// slot stays as live as it was.
    pub proof fn lemma_remove_live(self, handle: TileSetReference, other: TileSetReference)
        requires
            self.wf(),
            self.is_live(handle),
        ensures
            !self.remove(handle).is_live(handle),
            self.remove(handle).is_live(other) == (self.is_live(other) && other != handle),
    {
        if self.is_live(other) && other.slot() == handle.slot() {
            self.lemma_live_handles_own_their_slots(handle, other);
        }
    }
}

/// One step in the life of an arena: a tileset is stored, or a handle is
/// given up.
pub enum ArenaStep {
    Add(Seq<u32>),
    Remove(TileSetReference),
}

/// An arena together with the handles that were issued by it and not given
/// up since.
pub struct ArenaHistory {
    pub arena: ArenaView,
    pub held: Set<TileSetReference>,
}

/// The arena that has stored nothing yet.
pub open spec fn empty_arena() -> ArenaView {
    ArenaView { slots: Seq::empty(), free: Seq::empty(), next_generation: 0 }
}

/// The arena and the handles held after `steps`, carried out in turn on an
/// arena that had stored nothing. A step that cannot be carried out, because
/// the arena is full or the handle is not held, is passed over.
pub open spec fn after_steps(steps: Seq<ArenaStep>) -> ArenaHistory
    decreases steps.len(),
{
    if steps.len() == 0 {
        ArenaHistory { arena: empty_arena(), held: Set::empty() }
    } else {
        let before = after_steps(steps.drop_last());
        match steps.last() {
            ArenaStep::Add(words) => if before.arena.has_room() {
                ArenaHistory {
                    arena: before.arena.add(words),
                    held: before.held.insert(
                        TileSetReference::of(
                            before.arena.next_slot() as u16,
                            before.arena.next_generation,
                        ),
                    ),
                }
            } else {
                before
            },
            ArenaStep::Remove(handle) => if before.held.contains(handle) {
                ArenaHistory {
                    arena: before.arena.remove(handle),
                    held: before.held.remove(handle),
                }
            } else {
                before
            },
        }
    }
}

/// After any sequence of steps, every handle that is held is live, so that
/// its generation is that of its slot, and no two handles that are held
/// name the same slot.
pub proof fn lemma_held_handles_are_live(steps: Seq<ArenaStep>)
    ensures
        after_steps(steps).arena.wf(),
        forall|handle: TileSetReference| #[trigger]
            after_steps(steps).held.contains(handle) ==> after_steps(steps).arena.is_live(
                handle,
            ),
        forall|first: TileSetReference, second: TileSetReference|
            after_steps(steps).held.contains(first) && after_steps(steps).held.contains(second)
                && first.slot() == second.slot() ==> first == second,
    decreases steps.len(),
{
    let now = after_steps(steps);
    if steps.len() > 0 {
        let before = after_steps(steps.drop_last());
        lemma_held_handles_are_live(steps.drop_last());
        match steps.last() {
            ArenaStep::Add(words) => {
                if before.arena.has_room() {
                    let issued = TileSetReference::of(
                        before.arena.next_slot() as u16,
                        before.arena.next_generation,
                    );
                    TileSetReference::lemma_of(
                        before.arena.next_slot() as u16,
                        before.arena.next_generation,
                    );
                    before.arena.lemma_add_wf(words);
                    assert forall|handle: TileSetReference| #[trigger]
                        now.held.contains(handle) implies now.arena.is_live(handle) by {
                        before.arena.lemma_add_live(words, issued, handle);
                    }
                }
            },
            ArenaStep::Remove(handle) => {
                if before.held.contains(handle) {
                    before.arena.lemma_remove_wf(handle);
                    assert forall|other: TileSetReference| #[trigger]
                        now.held.contains(other) implies now.arena.is_live(other) by {
                        before.arena.lemma_remove_live(handle, other);
                    }
                }
            },
        }
    }
    assert forall|first: TileSetReference, second: TileSetReference|
        now.held.contains(first) && now.held.contains(second) && first.slot()
            == second.slot() implies first == second by {
        now.arena.lemma_live_handles_own_their_slots(first, second);
    }
}

} // verus!
