use crate::atomic_f32::AtomicF32;
use crate::graph::NodeId;
use vstd::prelude::*;

verus! {

/// Parameter storage shared by the user-interface thread and the audio thread:
/// a fixed number of atomic float slots. Each processor owns a contiguous range
/// of slots, fixed when the processing chain is compiled.
pub struct ParamStore {
    slots: Vec<AtomicF32>,
}

impl ParamStore {
    /// The number of slots.
    pub closed spec fn spec_len(&self) -> nat {
        self.slots@.len()
    }

    /// A store with `num_slots` slots, each holding 0.0.
    pub fn new(num_slots: usize) -> (r: ParamStore)
        ensures
            r.spec_len() == num_slots,
    {
        let mut slots: Vec<AtomicF32> = Vec::new();
        let mut i: usize = 0;
        while i < num_slots
            invariant
                i <= num_slots,
                slots@.len() == i,
            decreases num_slots - i,
        {
            slots.push(AtomicF32::new_bits(0));
            i += 1;
        }
        ParamStore { slots }
    }

    /// Sets slot `slot` to the float with bit pattern `bits`; a slot outside the
    /// store is ignored.
    pub fn set_bits(&self, slot: usize, bits: u32) {
        if slot < self.slots.len() {
            self.slots[slot].store_bits(bits);
        }
    }

    /// The bit pattern held by slot `slot`; a slot outside the store reads as 0.0,
    /// whose bit pattern is 0.
    pub fn get_bits(&self, slot: usize) -> (r: u32)
        ensures
            slot >= self.spec_len() ==> r == 0,
    {
        if slot < self.slots.len() {
            self.slots[slot].load_bits()
        } else {
            0
        }
    }

    /// Reads the slots `start..start + count` into the front of `out` (as many as
    /// fit); the rest of `out` is left as it was.
    pub fn read_range_bits(&self, start: usize, count: usize, out: &mut Vec<u32>)
        requires
            start + (if count < old(out)@.len() { count as int } else { old(out)@.len() as int }) <= usize::MAX + 1,
        ensures
            final(out)@.len() == old(out)@.len(),
            forall|i: int|
                0 <= i < final(out)@.len() && (i >= count || start + i >= self.spec_len()) ==> #[trigger] final(out)@[i]
                    == (if i >= count { old(out)@[i] } else { 0u32 }),
    {
        let m = if count < out.len() { count } else { out.len() };
        let mut i: usize = 0;
        while i < m
            invariant
                m <= count,
                m <= out@.len(),
                out@.len() == old(out)@.len(),
                i <= m,
                start + m <= usize::MAX + 1,
                forall|j: int|
                    0 <= j < out@.len() && (j >= i || start + j >= self.spec_len()) && j < m ==> #[trigger] out@[j]
                        == (if j >= i { old(out)@[j] } else { 0u32 }),
                forall|j: int| m <= j < out@.len() ==> #[trigger] out@[j] == old(out)@[j],
            decreases m - i,
        {
            let v = self.get_bits(start + i);
            out.set(i, v);
            i += 1;
        }
    }

    /// The number of slots.
    pub fn len(&self) -> (r: usize)
        ensures
            r == self.spec_len(),
    {
        self.slots.len()
    }
}

/// The slot allocation after giving parameters `first..first + count` of `node`
/// the `count` slots from `start` on: parameter `first + i` (its index taken
/// modulo 2^16) maps to slot `start + i`, later parameters overriding earlier
/// ones with the same index.
pub open spec fn spec_allocate_from(
    m: Map<(NodeId, u16), usize>,
    node: NodeId,
    first: nat,
    start: nat,
    count: nat,
) -> Map<(NodeId, u16), usize>
    decreases count,
{
    if count == 0 {
        m
    } else {
        spec_allocate_from(m, node, first, start, (count - 1) as nat).insert(
            (node, ((first + count - 1) % 65536) as u16),
            (start + count - 1) as usize,
        )
    }
}

/// The slot allocation after giving `node` the `count` slots from `start` on,
/// for its parameters `0..count`.
pub open spec fn spec_allocate(m: Map<(NodeId, u16), usize>, node: NodeId, start: nat, count: nat) -> Map<
    (NodeId, u16),
    usize,
> {
    spec_allocate_from(m, node, 0, start, count)
}

/// Which slots of a parameter store belong to which parameter of which node.
pub struct ParamMap {
    entries: Vec<(NodeId, u16, usize)>,
    next_slot: usize,
}

/// The map of an entry list in which no key occurs twice.
pub open spec fn entries_map(entries: Seq<(NodeId, u16, usize)>) -> Map<(NodeId, u16), usize> {
    Map::new(
        |k: (NodeId, u16)| exists|i: int| 0 <= i < entries.len() && #[trigger] entries[i].0 == k.0 && entries[i].1 == k.1,
        |k: (NodeId, u16)| {
            let i = choose|i: int| 0 <= i < entries.len() && #[trigger] entries[i].0 == k.0 && entries[i].1 == k.1;
            entries[i].2
        },
    )
}

pub open spec fn keys_unique(entries: Seq<(NodeId, u16, usize)>) -> bool {
    forall|i: int, j: int|
        0 <= i < j < entries.len() ==> !(#[trigger] entries[i].0 == #[trigger] entries[j].0 && entries[i].1 == entries[j].1)
}

impl ParamMap {
    /// The slot of each (node, parameter index) that has one.
    pub closed spec fn spec_map(&self) -> Map<(NodeId, u16), usize> {
        entries_map(self.entries@)
    }

    /// The number of slots handed out so far.
    pub closed spec fn spec_total(&self) -> nat {
        self.next_slot as nat
    }

    /// No key occurs twice, every slot handed out lies below the total, and no
    /// two keys share a slot.
    pub closed spec fn wf(&self) -> bool {
        &&& keys_unique(self.entries@)
        &&& slots_apart(self.spec_map(), self.spec_total())
    }

    /// An empty allocation.
    pub fn new() -> (r: ParamMap)
        ensures
            r.wf(),
            r.spec_map() == Map::<(NodeId, u16), usize>::empty(),
            r.spec_total() == 0,
            slots_apart(r.spec_map(), r.spec_total()),
    {
        let r = ParamMap { entries: Vec::new(), next_slot: 0 };
        proof {
            assert(r.spec_map() =~= Map::<(NodeId, u16), usize>::empty());
        }
        r
    }

    /// Maps key `(node, index)` to `slot`, replacing an earlier slot of that key.
    fn insert(&mut self, node: NodeId, index: u16, slot: usize)
        requires
            keys_unique(old(self).entries@),
        ensures
            keys_unique(final(self).entries@),
            final(self).spec_map() == old(self).spec_map().insert((node, index), slot),
            final(self).next_slot == old(self).next_slot,
    {
        let ghost old_e = self.entries@;
        let mut i: usize = 0;
        while i < self.entries.len()
            invariant
                self.entries@ == old_e,
                old_e == old(self).entries@,
                keys_unique(old_e),
                self.next_slot == old(self).next_slot,
                i <= old_e.len(),
                forall|j: int| 0 <= j < i ==> !(#[trigger] old_e[j].0 == node && old_e[j].1 == index),
            decreases old_e.len() - i,
        {
            if self.entries[i].0 == node && self.entries[i].1 == index {
                self.entries.set(i, (node, index, slot));
                proof {
                    let e = self.entries@;
                    assert(e == old_e.update(i as int, (node, index, slot)));
                    assert forall|a: int, b: int| 0 <= a < b < e.len() implies !(#[trigger] e[a].0 == #[trigger] e[b].0 && e[a].1 == e[b].1) by {
                        if a != i && b != i {
                            assert(e[a] == old_e[a] && e[b] == old_e[b]);
                        } else if a == i {
                            assert(e[b] == old_e[b]);
                            assert(!(old_e[a].0 == old_e[b].0 && old_e[a].1 == old_e[b].1));
                        } else {
                            assert(e[a] == old_e[a]);
                            assert(!(old_e[a].0 == old_e[b].0 && old_e[a].1 == old_e[b].1));
                        }
                    }
                    assert(entries_map(e) =~= entries_map(old_e).insert((node, index), slot)) by {
                        assert forall|k: (NodeId, u16)| #[trigger] entries_map(e).contains_key(k) == entries_map(old_e).insert((node, index), slot).contains_key(k) by {
                            if exists|j: int| 0 <= j < old_e.len() && #[trigger] old_e[j].0 == k.0 && old_e[j].1 == k.1 {
                                let j = choose|j: int| 0 <= j < old_e.len() && #[trigger] old_e[j].0 == k.0 && old_e[j].1 == k.1;
                                if j == i {
                                    assert(e[j].0 == k.0 && e[j].1 == k.1);
                                } else {
                                    assert(e[j] == old_e[j]);
                                }
                            }
                            if exists|j: int| 0 <= j < e.len() && #[trigger] e[j].0 == k.0 && e[j].1 == k.1 {
                                let j = choose|j: int| 0 <= j < e.len() && #[trigger] e[j].0 == k.0 && e[j].1 == k.1;
                                if j != i {
                                    assert(e[j] == old_e[j]);
                                }
                            }
                        }
                        assert forall|k: (NodeId, u16)| #[trigger] entries_map(e).contains_key(k) implies entries_map(e)[k] == entries_map(old_e).insert((node, index), slot)[k] by {
                            let j = choose|j: int| 0 <= j < e.len() && #[trigger] e[j].0 == k.0 && e[j].1 == k.1;
                            if k == (node, index) {
                                if j != i {
                                    assert(!(e[j].0 == e[i as int].0 && e[j].1 == e[i as int].1));
                                }
                            } else {
                                assert(j != i);
                                assert(e[j] == old_e[j]);
                                let j2 = choose|j2: int| 0 <= j2 < old_e.len() && #[trigger] old_e[j2].0 == k.0 && old_e[j2].1 == k.1;
                                if j2 != j {
                                    if j2 < j {
                                        assert(!(old_e[j2].0 == old_e[j].0 && old_e[j2].1 == old_e[j].1));
                                    } else {
                                        assert(!(old_e[j].0 == old_e[j2].0 && old_e[j].1 == old_e[j2].1));
                                    }
                                }
                            }
                        }
                    }
                    assert(old_e == old(self).entries@);
                    assert(self.spec_map() == entries_map(e));
                    assert(old(self).spec_map() == entries_map(old_e));
                    assert(self.spec_map() == old(self).spec_map().insert((node, index), slot));
                }
                return;
            }
            i += 1;
        }
        self.entries.push((node, index, slot));
        proof {
            let e = self.entries@;
            assert(e == old_e.push((node, index, slot)));
            assert forall|a: int, b: int| 0 <= a < b < e.len() implies !(#[trigger] e[a].0 == #[trigger] e[b].0 && e[a].1 == e[b].1) by {
                if b == old_e.len() {
                    assert(e[a] == old_e[a]);
                } else {
                    assert(e[a] == old_e[a] && e[b] == old_e[b]);
                }
            }
            assert(entries_map(e) =~= entries_map(old_e).insert((node, index), slot)) by {
                assert forall|k: (NodeId, u16)| #[trigger] entries_map(e).contains_key(k) == entries_map(old_e).insert((node, index), slot).contains_key(k) by {
                    if exists|j: int| 0 <= j < old_e.len() && #[trigger] old_e[j].0 == k.0 && old_e[j].1 == k.1 {
                        let j = choose|j: int| 0 <= j < old_e.len() && #[trigger] old_e[j].0 == k.0 && old_e[j].1 == k.1;
                        assert(e[j] == old_e[j]);
                    }
                    if k == (node, index) {
                        assert(e[old_e.len() as int].0 == k.0 && e[old_e.len() as int].1 == k.1);
                    }
                    if exists|j: int| 0 <= j < e.len() && #[trigger] e[j].0 == k.0 && e[j].1 == k.1 {
                        let j = choose|j: int| 0 <= j < e.len() && #[trigger] e[j].0 == k.0 && e[j].1 == k.1;
                        if j < old_e.len() {
                            assert(e[j] == old_e[j]);
                        }
                    }
                }
                assert forall|k: (NodeId, u16)| #[trigger] entries_map(e).contains_key(k) implies entries_map(e)[k] == entries_map(old_e).insert((node, index), slot)[k] by {
                    let j = choose|j: int| 0 <= j < e.len() && #[trigger] e[j].0 == k.0 && e[j].1 == k.1;
                    if k == (node, index) {
                        assert(j == old_e.len());
                    } else {
                        assert(j < old_e.len());
                        assert(e[j] == old_e[j]);
                        let j2 = choose|j2: int| 0 <= j2 < old_e.len() && #[trigger] old_e[j2].0 == k.0 && old_e[j2].1 == k.1;
                        if j2 != j {
                            if j2 < j {
                                assert(!(old_e[j2].0 == old_e[j].0 && old_e[j2].1 == old_e[j].1));
                            } else {
                                assert(!(old_e[j].0 == old_e[j2].0 && old_e[j].1 == old_e[j2].1));
                            }
                        }
                    }
                }
            }
        }
    }

    /// Gives `node` the next `param_count` slots and returns the first of them:
    /// parameter `i` of `node` gets slot `start + i`.
    pub fn allocate(&mut self, node_id: NodeId, param_count: usize) -> (start: usize)
        requires
            old(self).wf(),
            old(self).spec_total() + param_count <= usize::MAX,
        ensures
            final(self).wf(),
            start == old(self).spec_total(),
            final(self).spec_total() == old(self).spec_total() + param_count,
            final(self).spec_map() == spec_allocate(old(self).spec_map(), node_id, start as nat, param_count as nat),
    {
        self.allocate_from(node_id, 0, param_count)
    }

    /// Gives parameters `first..first + param_count` of `node` the next
    /// `param_count` slots and returns the first of them: parameter `first + i`
    /// gets slot `start + i`.
    pub fn allocate_from(&mut self, node_id: NodeId, first: usize, param_count: usize) -> (start: usize)
        requires
            old(self).wf(),
            old(self).spec_total() + param_count <= usize::MAX,
            first + param_count <= usize::MAX,
        ensures
            final(self).wf(),
            start == old(self).spec_total(),
            final(self).spec_total() == old(self).spec_total() + param_count,
            final(self).spec_map() == spec_allocate_from(
                old(self).spec_map(),
                node_id,
                first as nat,
                start as nat,
                param_count as nat,
            ),
    {
        let start = self.next_slot;
        let mut i: usize = 0;
        while i < param_count
            invariant
                keys_unique(self.entries@),
                slots_apart(old(self).spec_map(), start as nat),
                slots_apart(self.spec_map(), (start + i) as nat),
                i <= param_count,
                start == old(self).next_slot,
                self.next_slot == start,
                start + param_count <= usize::MAX,
                first + param_count <= usize::MAX,
                self.spec_map() == spec_allocate_from(old(self).spec_map(), node_id, first as nat, start as nat, i as nat),
            decreases param_count - i,
        {
            let k = first + i;
            #[verifier::truncate]
            let idx = k as u16;
            proof {
                assert(idx == (k % 65536) as u16) by (bit_vector)
                    requires idx == k as u16;
            }
            self.insert(node_id, idx, start + i);
            proof {
                law_allocation_keeps_slots_apart(
                    old(self).spec_map(),
                    node_id,
                    first as nat,
                    start as nat,
                    (i + 1) as nat,
                );
            }
            i += 1;
        }
        self.next_slot = start + param_count;
        start
    }

    /// The slot of parameter `param_index` of `node_id`, if it has one.
    pub fn get_slot(&self, node_id: NodeId, param_index: u16) -> (r: Option<usize>)
        requires
            self.wf(),
        ensures
            r == (if self.spec_map().contains_key((node_id, param_index)) {
                Some(self.spec_map()[(node_id, param_index)])
            } else {
                None
            }),
    {
        let mut i: usize = 0;
        while i < self.entries.len()
            invariant
                self.wf(),
                i <= self.entries@.len(),
                forall|j: int| 0 <= j < i ==> !(#[trigger] self.entries@[j].0 == node_id && self.entries@[j].1 == param_index),
            decreases self.entries@.len() - i,
        {
            if self.entries[i].0 == node_id && self.entries[i].1 == param_index {
                proof {
                    let e = self.entries@;
                    assert(e[i as int].0 == node_id && e[i as int].1 == param_index);
                    let j = choose|j: int| 0 <= j < e.len() && #[trigger] e[j].0 == node_id && e[j].1 == param_index;
                    if j != i {
                        if j < i {
                            assert(false);
                        } else {
                            assert(!(e[i as int].0 == e[j].0 && e[i as int].1 == e[j].1));
                        }
                    }
                }
                return Some(self.entries[i].2);
            }
            i += 1;
        }
        None
    }

    /// The number of slots handed out so far.
    pub fn total_slots(&self) -> (r: usize)
        ensures
            r == self.spec_total(),
    {
        self.next_slot
    }
}

/// After giving a node `count` slots from `start` with fewer than 2^16 parameters,
/// parameter `i` of that node maps to slot `start + i` and no other key changes.
pub proof fn law_allocate_slots(m: Map<(NodeId, u16), usize>, node: NodeId, start: nat, count: nat)
    requires
        count <= 65536,
        start + count <= usize::MAX,
    ensures
        forall|i: nat| i < count ==> #[trigger] spec_allocate(m, node, start, count).contains_key((node, i as u16))
            && spec_allocate(m, node, start, count)[(node, i as u16)] == start + i,
        forall|k: (NodeId, u16)| k.0 != node ==> (#[trigger] spec_allocate(m, node, start, count).contains_key(k)
            == m.contains_key(k)),
        forall|k: (NodeId, u16)| k.0 != node && m.contains_key(k) ==> #[trigger] spec_allocate(m, node, start, count)[k] == m[k],
    decreases count,
{
    if count > 0 {
        law_allocate_slots(m, node, start, (count - 1) as nat);
        let prev = spec_allocate(m, node, start, (count - 1) as nat);
        let c1 = (count - 1) as nat;
        assert(c1 % 65536 == c1);
        let key = (node, (c1 % 65536) as u16);
        assert(spec_allocate(m, node, start, count) == prev.insert(key, (start + count - 1) as usize));
        assert forall|i: nat| i < count implies #[trigger] spec_allocate(m, node, start, count).contains_key((node, i as u16))
            && spec_allocate(m, node, start, count)[(node, i as u16)] == start + i by {
            if i < c1 {
                assert(prev.contains_key((node, i as u16)));
                assert((i as u16) != (c1 as u16));
                assert((node, i as u16) != key);
            } else {
                assert((node, i as u16) == key);
            }
        }
        assert forall|k: (NodeId, u16)| k.0 != node implies (#[trigger] spec_allocate(m, node, start, count).contains_key(k)
            == m.contains_key(k)) by {
            assert(prev.contains_key(k) == m.contains_key(k));
            assert(k != key);
        }
        assert forall|k: (NodeId, u16)| k.0 != node && m.contains_key(k) implies #[trigger] spec_allocate(m, node, start, count)[k] == m[k] by {
            assert(prev.contains_key(k) == m.contains_key(k));
            assert(prev[k] == m[k]);
            assert(k != key);
        }
    } else {
        assert(spec_allocate(m, node, start, count) == m);
    }
}

/// In a well-formed parameter map (as `ParamMap::new` gives and `allocate` keeps),
/// every slot handed out lies below the total and no two parameters share one.
pub proof fn law_map_slots_apart(m: ParamMap)
    requires
        m.wf(),
    ensures
        slots_apart(m.spec_map(), m.spec_total()),
{
}

/// Every slot of the mapping lies below `total`, and no two keys share a slot.
pub open spec fn slots_apart(m: Map<(NodeId, u16), usize>, total: nat) -> bool {
    &&& forall|k: (NodeId, u16)| #[trigger] m.contains_key(k) ==> m[k] < total
    &&& forall|k1: (NodeId, u16), k2: (NodeId, u16)|
        #[trigger] m.contains_key(k1) && #[trigger] m.contains_key(k2) && k1 != k2 ==> m[k1] != m[k2]
}

/// Handed-out slots stay below the total and are never shared: when this holds of
/// a mapping with `start` slots handed out, it holds after `count` more are given
/// to a node from `start` on. An empty mapping, as `ParamMap::new` gives, holds
/// it with no slots, so it holds after any sequence of allocations.
pub proof fn law_allocation_keeps_slots_apart(
    m: Map<(NodeId, u16), usize>,
    node: NodeId,
    first: nat,
    start: nat,
    count: nat,
)
    requires
        slots_apart(m, start),
        start + count <= usize::MAX,
    ensures
        slots_apart(spec_allocate_from(m, node, first, start, count), start + count),
    decreases count,
{
    if count > 0 {
        let c1 = (count - 1) as nat;
        law_allocation_keeps_slots_apart(m, node, first, start, c1);
        let prev = spec_allocate_from(m, node, first, start, c1);
        let key = (node, ((first + c1) % 65536) as u16);
        let v = (start + c1) as usize;
        let next = spec_allocate_from(m, node, first, start, count);
        assert(next == prev.insert(key, v));
        assert forall|k1: (NodeId, u16), k2: (NodeId, u16)|
            #[trigger] next.contains_key(k1) && #[trigger] next.contains_key(k2) && k1 != k2 implies next[k1]
            != next[k2] by {
            if k1 == key {
                assert(prev[k2] < start + c1);
            } else if k2 == key {
                assert(prev[k1] < start + c1);
            } else {
                assert(prev.contains_key(k1) && prev.contains_key(k2));
            }
        }
        assert forall|k: (NodeId, u16)| #[trigger] next.contains_key(k) implies next[k] < start + count by {
            if k != key {
                assert(prev.contains_key(k));
            }
        }
    }
}

} // verus!
