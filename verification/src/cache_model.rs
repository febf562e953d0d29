//! The tile cache as a mathematical object: which physical slot of the
//! background tile store shows which tile of which tileset, how many cells
//! refer to it, and in which order freed slots are reused.

use vstd::prelude::*;

verus! {

/// Number of physical tile slots that a background cell can name.
pub const TILE_SLOTS: usize = 1024;

/// The greatest reference count that a slot can carry.
pub const MAX_COUNT: u16 = 0xFFFF;

/// A tile of a tileset: the arena slot of the set, and the tile within it.
#[derive(Clone, Copy, Debug, PartialEq, Eq, Structural)]
pub struct TileReference(pub u16, pub u16);

/// A physical slot in use: the tile it shows and the number of references
/// to it.
pub struct TileUse {
    pub key: TileReference,
    pub count: int,
}

/// The state of the tile cache.
#[verifier::ext_equal]
pub struct CacheView {
    /// Slot by slot, its use, if it is in use. Slot 0 is never in use: it
    /// stands for the empty tile.
    pub slots: Seq<Option<TileUse>>,
    /// For each cached tile, the slot that shows it and the generation of
    /// the tileset it was copied from.
    pub lookup: Map<TileReference, (int, u16)>,
    /// The free slots, the next one to be reused first.
    pub free: Seq<int>,
}

impl CacheView {
    /// Slot 0 is never in use, the free list names exactly the other slots
    /// that are not, every count lies between 1 and the greatest count, and
    /// every cached tile is shown by the slot that the lookup names for it.
    pub open spec fn wf(self) -> bool {
        &&& 1 <= self.slots.len() <= TILE_SLOTS
        &&& self.slots[0] is None
        &&& self.free.no_duplicates()
        &&& forall|i: int|
            0 <= i < self.free.len() ==> 1 <= #[trigger] self.free[i] < self.slots.len()
                && self.slots[self.free[i]] is None
        &&& forall|s: int|
            1 <= s < self.slots.len() && (#[trigger] self.slots[s]) is None ==> self.free.contains(
                s,
            )
        &&& forall|s: int|
            0 <= s < self.slots.len() && (#[trigger] self.slots[s]) is Some ==> 1
                <= self.slots[s]->0.count <= MAX_COUNT
        &&& forall|k: TileReference| #[trigger]
            self.lookup.contains_key(k) ==> 1 <= self.lookup[k].0 < self.slots.len()
                && self.slots[self.lookup[k].0] is Some && self.slots[self.lookup[k].0]->0.key
                == k
    }

    /// Whether `slot` is in use.
    pub open spec fn is_counted(self, slot: int) -> bool {
        0 <= slot < self.slots.len() && self.slots[slot] is Some
    }

    /// The number of references to `slot`; 0 for a slot not in use.
    pub open spec fn count(self, slot: int) -> int {
        if self.is_counted(slot) {
            self.slots[slot]->0.count
        } else {
            0
        }
    }

    /// Whether the tile is cached from the tileset generation asked for.
    pub open spec fn is_hit(self, key: TileReference, generation: u16) -> bool {
        self.lookup.contains_key(key) && self.lookup[key].1 == generation
    }

    /// Whether a slot can be taken into use.
    pub open spec fn has_room(self) -> bool {
        self.free.len() > 0 || self.slots.len() < TILE_SLOTS
    }

    /// The number of slots that can still be taken into use.
    pub open spec fn room(self) -> int {
        TILE_SLOTS - self.slots.len() + self.free.len()
    }

    /// Whether `n` more requests can be served whatever they ask for: `n`
    /// slots can be taken into use, and every count can grow by `n`.
    pub open spec fn headroom(self, n: int) -> bool {
        &&& self.room() >= n
        &&& forall|slot: int| #[trigger] self.count(slot) + n <= MAX_COUNT
    }

    /// The slot that will be taken into use next.
    pub open spec fn next_slot(self) -> int {
        if self.free.len() > 0 {
            self.free[0]
        } else {
            self.slots.len() as int
        }
    }

    /// The slot that a request for the tile resolves to.
    pub open spec fn slot_for(self, key: TileReference, generation: u16) -> int {
        if self.is_hit(key, generation) {
            self.lookup[key].0
        } else {
            self.next_slot()
        }
    }

    /// Whether a request for the tile can be served: on a hit the count has
    /// to fit, on a miss a slot has to be free.
    pub open spec fn can_add(self, key: TileReference, generation: u16) -> bool {
        if self.is_hit(key, generation) {
            self.count(self.lookup[key].0) < MAX_COUNT
        } else {
            self.has_room()
        }
    }

    /// The cache after one more reference to the tile.
    pub open spec fn add(self, key: TileReference, generation: u16) -> CacheView {
        if self.is_hit(key, generation) {
            let slot = self.lookup[key].0;
            let used = self.slots[slot]->0;
            CacheView {
                slots: self.slots.update(
                    slot,
                    Some(TileUse { key: used.key, count: used.count + 1 }),
                ),
                ..self
            }
        } else {
            let slot = self.next_slot();
            let used = Some(TileUse { key, count: 1 });
            CacheView {
                slots: if self.free.len() > 0 {
                    self.slots.update(slot, used)
                } else {
                    self.slots.push(used)
                },
                lookup: self.lookup.insert(key, (slot, generation)),
                free: if self.free.len() > 0 {
                    self.free.drop_first()
                } else {
                    self.free
                },
            }
        }
    }

    /// The cache after one reference to `slot` is given up. With the last
    /// reference the slot becomes the first to be reused, and its tile is
    /// forgotten.
    pub open spec fn release(self, slot: int) -> CacheView {
        let used = self.slots[slot]->0;
        if used.count > 1 {
            CacheView {
                slots: self.slots.update(
                    slot,
                    Some(TileUse { key: used.key, count: used.count - 1 }),
                ),
                ..self
            }
        } else {
            CacheView {
                slots: self.slots.update(slot, None),
                lookup: self.lookup.remove(used.key),
                free: seq![slot] + self.free,
            }
        }
    }

    /// `n` requests for the same tile, one after the other.
    pub open spec fn add_times(self, key: TileReference, generation: u16, n: nat) -> CacheView
        decreases n,
    {
        if n == 0 {
            self
        } else {
            self.add_times(key, generation, (n - 1) as nat).add(key, generation)
        }
    }

    /// `n` references to `slot` given up, one after the other.
    pub open spec fn release_times(self, slot: int, n: nat) -> CacheView
        decreases n,
    {
        if n == 0 {
            self
        } else {
            self.release_times(slot, (n - 1) as nat).release(slot)
        }
    }

    /// A request that can be served keeps the cache well formed, resolves to
    /// a slot in use, and takes at most one slot into use.
    pub proof fn lemma_add_wf(self, key: TileReference, generation: u16)
        requires
            self.wf(),
            self.can_add(key, generation),
        ensures
            self.add(key, generation).wf(),
            1 <= self.slot_for(key, generation) < TILE_SLOTS,
            self.add(key, generation).is_counted(self.slot_for(key, generation)),
            self.add(key, generation).room() >= self.room() - 1,
    {
        let after = self.add(key, generation);
        if self.is_hit(key, generation) {
            let slot = self.lookup[key].0;
            assert forall|i: int| 0 <= i < after.free.len() implies 1 <= #[trigger] after.free[i]
                < after.slots.len() && after.slots[after.free[i]] is None by {
                assert(self.slots[self.free[i]] is None);
            }
            assert forall|s: int|
                1 <= s < after.slots.len() && (#[trigger] after.slots[s]) is None implies after.free.contains(
                s,
            ) by {
                assert(self.slots[s] is None);
            }
            assert forall|k: TileReference| #[trigger] after.lookup.contains_key(k) implies 1
                <= after.lookup[k].0 < after.slots.len() && after.slots[after.lookup[k].0] is Some
                && after.slots[after.lookup[k].0]->0.key == k by {
                assert(self.lookup.contains_key(k));
            }
        } else if self.free.len() > 0 {
            let head = self.free[0];
            assert forall|i: int| 0 <= i < after.free.len() implies 1 <= #[trigger] after.free[i]
                < after.slots.len() && after.slots[after.free[i]] is None by {
                assert(after.free[i] == self.free[i + 1]);
                assert(self.free[i + 1] != self.free[0]);
            }
            assert forall|s: int|
                1 <= s < after.slots.len() && (#[trigger] after.slots[s]) is None implies after.free.contains(
                s,
            ) by {
                assert(s != head);
                assert(self.slots[s] is None);
                let j = choose|j: int| 0 <= j < self.free.len() && self.free[j] == s;
                assert(j != 0);
                assert(after.free[j - 1] == s);
            }
            assert(after.free.no_duplicates()) by {
                assert forall|i: int, j: int|
                    0 <= i < after.free.len() && 0 <= j < after.free.len() && i != j implies after.free[i]
                    != after.free[j] by {
                    assert(after.free[i] == self.free[i + 1]);
                    assert(after.free[j] == self.free[j + 1]);
                }
            }
            assert forall|k: TileReference| #[trigger] after.lookup.contains_key(k) implies 1
                <= after.lookup[k].0 < after.slots.len() && after.slots[after.lookup[k].0] is Some
                && after.slots[after.lookup[k].0]->0.key == k by {
                if k != key {
                    assert(self.lookup.contains_key(k));
                    assert(self.slots[self.lookup[k].0] is Some);
                }
            }
        } else {
            assert forall|s: int|
                1 <= s < after.slots.len() && (#[trigger] after.slots[s]) is None implies after.free.contains(
                s,
            ) by {
                assert(s < self.slots.len());
                assert(self.slots[s] is None);
            }
            assert forall|k: TileReference| #[trigger] after.lookup.contains_key(k) implies 1
                <= after.lookup[k].0 < after.slots.len() && after.slots[after.lookup[k].0] is Some
                && after.slots[after.lookup[k].0]->0.key == k by {
                if k != key {
                    assert(self.lookup.contains_key(k));
                }
            }
        }
    }

    /// A request for a tile that is cached from the generation asked for
    /// resolves to the tile's slot and counts one reference more; no slot is
    /// taken into use, and the lookup, the free list and every other slot
    /// are as they were. The count has to fit its 16 bits.
    pub proof fn lemma_hit_counts_once_more(self, key: TileReference, generation: u16)
        requires
            self.wf(),
            self.is_hit(key, generation),
            self.count(self.lookup[key].0) < MAX_COUNT,
        ensures
            self.can_add(key, generation),
            self.slot_for(key, generation) == self.lookup[key].0,
            self.is_counted(self.lookup[key].0),
            self.slots[self.lookup[key].0]->0.key == key,
            self.add(key, generation).slots == self.slots.update(
                self.lookup[key].0,
                Some(TileUse { key, count: self.count(self.lookup[key].0) + 1 }),
            ),
            self.add(key, generation).lookup == self.lookup,
            self.add(key, generation).free == self.free,
            self.add(key, generation).room() == self.room(),
    {
    }

    /// Giving up a reference to a slot in use keeps the cache well formed and
    /// never takes a slot into use.
    pub proof fn lemma_release_wf(self, slot: int)
        requires
            self.wf(),
            self.is_counted(slot),
        ensures
            self.release(slot).wf(),
            self.release(slot).room() >= self.room(),
            self.release(slot).slots.len() == self.slots.len(),
    {
        let after = self.release(slot);
        let used = self.slots[slot]->0;
        if used.count > 1 {
            assert forall|i: int| 0 <= i < after.free.len() implies 1 <= #[trigger] after.free[i]
                < after.slots.len() && after.slots[after.free[i]] is None by {
                assert(self.slots[self.free[i]] is None);
            }
            assert forall|s: int|
                1 <= s < after.slots.len() && (#[trigger] after.slots[s]) is None implies after.free.contains(
                s,
            ) by {
                assert(self.slots[s] is None);
            }
            assert forall|k: TileReference| #[trigger] after.lookup.contains_key(k) implies 1
                <= after.lookup[k].0 < after.slots.len() && after.slots[after.lookup[k].0] is Some
                && after.slots[after.lookup[k].0]->0.key == k by {
                assert(self.lookup.contains_key(k));
            }
        } else {
            assert(!self.free.contains(slot));
            assert forall|i: int| 0 <= i < after.free.len() implies 1 <= #[trigger] after.free[i]
                < after.slots.len() && after.slots[after.free[i]] is None by {
                if i > 0 {
                    assert(after.free[i] == self.free[i - 1]);
                }
            }
            assert forall|s: int|
                1 <= s < after.slots.len() && (#[trigger] after.slots[s]) is None implies after.free.contains(
                s,
            ) by {
                if s == slot {
                    assert(after.free[0] == s);
                } else {
                    assert(self.slots[s] is None);
                    let j = choose|j: int| 0 <= j < self.free.len() && self.free[j] == s;
                    assert(after.free[j + 1] == s);
                }
            }
            assert(after.free.no_duplicates()) by {
                assert forall|i: int, j: int|
                    0 <= i < after.free.len() && 0 <= j < after.free.len() && i != j implies after.free[i]
                    != after.free[j] by {
                    if i > 0 {
                        assert(after.free[i] == self.free[i - 1]);
                    }
                    if j > 0 {
                        assert(after.free[j] == self.free[j - 1]);
                    }
                }
            }
            assert forall|k: TileReference| #[trigger] after.lookup.contains_key(k) implies 1
                <= after.lookup[k].0 < after.slots.len() && after.slots[after.lookup[k].0] is Some
                && after.slots[after.lookup[k].0]->0.key == k by {
                assert(self.lookup.contains_key(k));
                assert(k != used.key);
            }
        }
    }

    /// The cache in which `slot` shows `key` with `count` references, and
    /// which is otherwise `self`.
    pub open spec fn with_count(self, slot: int, key: TileReference, count: int) -> CacheView {
        CacheView { slots: self.slots.update(slot, Some(TileUse { key, count })), ..self }
    }

    proof fn lemma_add_times_counts(self, key: TileReference, generation: u16, n: nat)
        requires
            self.wf(),
            !self.lookup.contains_key(key),
            self.has_room(),
            1 <= n <= MAX_COUNT,
        ensures
            self.add_times(key, generation, n) == self.add(key, generation).with_count(
                self.next_slot(),
                key,
                n as int,
            ),
            self.add_times(key, generation, n).wf(),
        decreases n,
    {
        let first = self.add(key, generation);
        let slot = self.next_slot();
        self.lemma_add_wf(key, generation);
        if n == 1 {
            assert(self.add_times(key, generation, 0) == self);
            assert(first.with_count(slot, key, 1) =~= first);
        } else {
            self.lemma_add_times_counts(key, generation, (n - 1) as nat);
            let before = self.add_times(key, generation, (n - 1) as nat);
            assert(before.is_hit(key, generation));
            before.lemma_add_wf(key, generation);
            assert(before.add(key, generation) =~= first.with_count(slot, key, n as int));
        }
    }

    proof fn lemma_release_times_counts(self, slot: int, key: TileReference, n: nat, j: nat)
        requires
            self.wf(),
            self.is_counted(slot),
            self.slots[slot]->0.key == key,
            self.count(slot) == n,
            j < n,
        ensures
            self.release_times(slot, j) == self.with_count(slot, key, n - j),
            self.release_times(slot, j).wf(),
        decreases j,
    {
        if j == 0 {
            assert(self.with_count(slot, key, n as int) =~= self);
        } else {
            self.lemma_release_times_counts(slot, key, n, (j - 1) as nat);
            let before = self.release_times(slot, (j - 1) as nat);
            before.lemma_release_wf(slot);
            assert(before.release(slot) =~= self.with_count(slot, key, n - j));
        }
    }

    /// Requesting a tile that is not cached `n` times in a row takes exactly
    /// one slot into use and counts `n` references to it. Giving up those `n`
    /// references frees the slot again, first in line for reuse, and the
    /// cache forgets the tile.
    pub proof fn lemma_repeated_requests(self, key: TileReference, generation: u16, n: nat)
        requires
            self.wf(),
            !self.lookup.contains_key(key),
            self.has_room(),
            1 <= n <= MAX_COUNT,
        ensures
            ({
                let slot = self.next_slot();
                let full = self.add_times(key, generation, n);
                let back = full.release_times(slot, n);
                &&& full.wf()
                &&& full.is_counted(slot)
                &&& full.count(slot) == n
                &&& full.slots[slot]->0.key == key
                &&& full.is_hit(key, generation)
                &&& full.lookup[key].0 == slot
                &&& full.room() == self.room() - 1
                &&& forall|s: int|
                    0 <= s < self.slots.len() && s != slot ==> full.slots[s] == self.slots[s]
                &&& back.wf()
                &&& !back.is_counted(slot)
                &&& back.free.len() > 0
                &&& back.free[0] == slot
                &&& !back.lookup.contains_key(key)
                &&& back.lookup == self.lookup
                &&& back.room() == self.room()
            }),
    {
        let slot = self.next_slot();
        let full = self.add_times(key, generation, n);
        self.lemma_add_wf(key, generation);
        self.lemma_add_times_counts(key, generation, n);
        full.lemma_release_times_counts(slot, key, n, (n - 1) as nat);
        let last = full.release_times(slot, (n - 1) as nat);
        last.lemma_release_wf(slot);
        let back = full.release_times(slot, n);
        assert(back == last.release(slot));
        assert(back.lookup =~= self.lookup);
    }

    /// With headroom for `n` requests, any one request can be served, and
    /// headroom for `n - 1` is left.
    pub proof fn lemma_add_headroom(self, key: TileReference, generation: u16, n: int)
        requires
            self.wf(),
            self.headroom(n),
            n >= 1,
        ensures
            self.can_add(key, generation),
            self.add(key, generation).headroom(n - 1),
    {
        let after = self.add(key, generation);
        if self.is_hit(key, generation) {
            assert(self.count(self.lookup[key].0) + n <= MAX_COUNT);
        }
        self.lemma_add_wf(key, generation);
        assert forall|slot: int| #[trigger] after.count(slot) + (n - 1) <= MAX_COUNT by {
            assert(self.count(slot) + n <= MAX_COUNT);
        }
    }

    /// Giving up a reference leaves the headroom that there was.
    pub proof fn lemma_release_headroom(self, slot: int, n: int)
        requires
            self.wf(),
            self.is_counted(slot),
            self.headroom(n),
        ensures
            self.release(slot).headroom(n),
    {
        let after = self.release(slot);
        self.lemma_release_wf(slot);
        assert forall|s: int| #[trigger] after.count(s) + n <= MAX_COUNT by {
            assert(self.count(s) + n <= MAX_COUNT);
        }
    }
}

} // verus!
