use crate::graph::NodeId;
use vstd::prelude::*;

verus! {

/// The processor of a speaker node. The engine mixes speaker outputs itself, so
/// this processor only marks its node as an output.
pub struct SpeakerProcessor;

impl SpeakerProcessor {
    /// A speaker processor.
    pub fn new() -> (r: Self) {
        SpeakerProcessor
    }

    /// The processor's type name.
    pub fn type_id(&self) -> (r: &'static str)
        ensures
            r@ == "speaker"@,
    {
        "speaker"
    }

    /// Its parameters: volume, active, pan and channel offset.
    pub fn param_count(&self) -> (r: usize)
        ensures
            r == 4,
    {
        4
    }
}

/// A topology change the user interface sends to the audio engine.
#[derive(Clone, Copy, Debug)]
pub enum RoutingCommand {
    /// A processor for `node_id` (replacing any it had); `is_speaker` when the
    /// processor is an output.
    Add { node_id: NodeId, is_speaker: bool },
    /// Removes the processor of `node_id` and every input that reads from it.
    Remove { node_id: NodeId },
    /// Input `to_port` of `to_node` reads the output of `from_node`.
    Connect { from_node: NodeId, to_node: NodeId, to_port: usize },
    /// Input `to_port` of `to_node` reads nothing.
    Disconnect { to_node: NodeId, to_port: usize },
    /// Marks or unmarks the processor of `node_id` as mixed to the master output.
    SetSpeaker { node_id: NodeId, active: bool },
}

/// The routing of one processor: which node each input port reads from, and
/// whether it is mixed to the master output.
pub struct RoutingSlot {
    pub node_id: NodeId,
    pub inputs: Vec<Option<NodeId>>,
    pub is_speaker: bool,
}

/// The mathematical value of a slot.
pub struct SlotView {
    pub node_id: NodeId,
    pub inputs: Seq<Option<NodeId>>,
    pub is_speaker: bool,
}

impl RoutingSlot {
    pub open spec fn view(&self) -> SlotView {
        SlotView { node_id: self.node_id, inputs: self.inputs@, is_speaker: self.is_speaker }
    }
}

/// `inputs` with every input reading from `id` disconnected.
pub open spec fn without_source(inputs: Seq<Option<NodeId>>, id: NodeId) -> Seq<Option<NodeId>> {
    inputs.map_values(|s: Option<NodeId>| if s == Some(id) { None } else { s })
}

/// `inputs` padded with disconnected ports so that port `port` exists.
pub open spec fn grown(inputs: Seq<Option<NodeId>>, port: nat) -> Seq<Option<NodeId>> {
    if port < inputs.len() {
        inputs
    } else {
        inputs + Seq::new((port + 1 - inputs.len()) as nat, |i: int| None::<NodeId>)
    }
}

/// The position of the slot of `id`, if there is one.
pub open spec fn slot_pos(slots: Seq<SlotView>, id: NodeId) -> Option<int> {
    if exists|i: int| 0 <= i < slots.len() && #[trigger] slots[i].node_id == id {
        Some(choose|i: int| 0 <= i < slots.len() && #[trigger] slots[i].node_id == id)
    } else {
        None
    }
}

/// The slots after one command.
pub open spec fn apply_command(slots: Seq<SlotView>, cmd: RoutingCommand) -> Seq<SlotView> {
    match cmd {
        RoutingCommand::Add { node_id, is_speaker } => {
            let fresh = SlotView { node_id, inputs: Seq::empty(), is_speaker };
            match slot_pos(slots, node_id) {
                Some(i) => slots.update(i, fresh),
                None => slots.push(fresh),
            }
        },
        RoutingCommand::Remove { node_id } => {
            let rest = match slot_pos(slots, node_id) {
                Some(i) => slots.remove(i),
                None => slots,
            };
            rest.map_values(
                |s: SlotView|
                    SlotView { node_id: s.node_id, inputs: without_source(s.inputs, node_id), is_speaker: s.is_speaker },
            )
        },
        RoutingCommand::Connect { from_node, to_node, to_port } => match slot_pos(slots, to_node) {
            Some(i) => slots.update(
                i,
                SlotView {
                    inputs: grown(slots[i].inputs, to_port as nat).update(to_port as int, Some(from_node)),
                    ..slots[i]
                },
            ),
            None => slots,
        },
        RoutingCommand::Disconnect { to_node, to_port } => match slot_pos(slots, to_node) {
            Some(i) => if to_port < slots[i].inputs.len() {
                slots.update(i, SlotView { inputs: slots[i].inputs.update(to_port as int, None), ..slots[i] })
            } else {
                slots
            },
            None => slots,
        },
        RoutingCommand::SetSpeaker { node_id, active } => match slot_pos(slots, node_id) {
            Some(i) => slots.update(i, SlotView { is_speaker: active, ..slots[i] }),
            None => slots,
        },
    }
}

/// No two slots belong to the same node.
pub open spec fn slots_unique(slots: Seq<SlotView>) -> bool {
    forall|i: int, j: int| 0 <= i < j < slots.len() ==> #[trigger] slots[i].node_id != #[trigger] slots[j].node_id
}

/// The nodes of the slots, in order.
pub open spec fn slot_ids(slots: Seq<SlotView>) -> Seq<NodeId> {
    slots.map_values(|s: SlotView| s.node_id)
}

/// The nodes of the speaker slots, in order.
pub open spec fn speaker_ids_of(slots: Seq<SlotView>) -> Seq<NodeId>
    decreases slots.len(),
{
    if slots.len() == 0 {
        Seq::empty()
    } else {
        let pre = speaker_ids_of(slots.drop_last());
        if slots.last().is_speaker {
            pre.push(slots.last().node_id)
        } else {
            pre
        }
    }
}

/// Two slot lists that agree on every slot's node and speaker flag have the same
/// processor and speaker lists.
proof fn lemma_same_ids(a: Seq<SlotView>, b: Seq<SlotView>)
    requires
        a.len() == b.len(),
        forall|m: int| 0 <= m < a.len() ==> #[trigger] a[m].node_id == b[m].node_id && a[m].is_speaker == b[m].is_speaker,
    ensures
        slot_ids(a) == slot_ids(b),
        speaker_ids_of(a) == speaker_ids_of(b),
    decreases a.len(),
{
    assert(slot_ids(a) =~= slot_ids(b));
    if a.len() > 0 {
        lemma_same_ids(a.drop_last(), b.drop_last());
        assert(a.last().node_id == b.last().node_id);
    }
}

/// The routing state of the audio engine: one slot per processor, and the
/// cached lists of processors and speakers, rebuilt after a change to either.
pub struct EngineRouting {
    slots: Vec<RoutingSlot>,
    processor_ids: Vec<NodeId>,
    speaker_ids: Vec<NodeId>,
    ids_dirty: bool,
}

impl EngineRouting {
    /// The slots, in the order they were first added.
    pub closed spec fn slot_views(&self) -> Seq<SlotView> {
        self.slots@.map_values(|s: RoutingSlot| s.view())
    }

    /// Slots are unique per node, and the cached lists are current unless marked
    /// stale.
    pub closed spec fn wf(&self) -> bool {
        &&& slots_unique(self.slot_views())
        &&& !self.ids_dirty ==> self.processor_ids@ == slot_ids(self.slot_views()) && self.speaker_ids@
            == speaker_ids_of(self.slot_views())
    }

    /// No processors.
    pub fn new() -> (r: Self)
        ensures
            r.wf(),
            r.slot_views() == Seq::<SlotView>::empty(),
    {
        let r = EngineRouting { slots: Vec::new(), processor_ids: Vec::new(), speaker_ids: Vec::new(), ids_dirty: true };
        proof {
            assert(r.slot_views() =~= Seq::<SlotView>::empty());
        }
        r
    }

    /// The position of the slot of `id`.
    fn find(&self, id: NodeId) -> (r: Option<usize>)
        requires
            self.wf(),
        ensures
            match r {
                Some(i) => slot_pos(self.slot_views(), id) == Some(i as int) && i < self.slots@.len(),
                None => slot_pos(self.slot_views(), id) == None::<int>,
            },
    {
        let ghost v = self.slot_views();
        let mut i: usize = 0;
        while i < self.slots.len()
            invariant
                v == self.slot_views(),
                slots_unique(v),
                i <= self.slots@.len(),
                forall|j: int| 0 <= j < i ==> #[trigger] v[j].node_id != id,
            decreases self.slots@.len() - i,
        {
            if self.slots[i].node_id == id {
                proof {
                    assert(v[i as int].node_id == id);
                    let j = choose|j: int| 0 <= j < v.len() && #[trigger] v[j].node_id == id;
                    if j != i {
                        if j < i {
                            assert(v[j].node_id != v[i as int].node_id);
                        } else {
                            assert(v[i as int].node_id != v[j].node_id);
                        }
                    }
                }
                return Some(i);
            }
            i += 1;
        }
        None
    }

    /// Takes slot `i` out, lets `f`-style edits happen on the copy, and puts it back:
    /// here, replaces input `port` of slot `i` with `src`, padding the inputs first.
    fn set_input(&mut self, i: usize, port: usize, src: Option<NodeId>, grow: bool)
        requires
            old(self).wf(),
            i < old(self).slots@.len(),
            port < usize::MAX,
            !grow ==> port < old(self).slots@[i as int].inputs@.len(),
        ensures
            final(self).slots@.len() == old(self).slots@.len(),
            final(self).slot_views() == old(self).slot_views().update(
                i as int,
                SlotView {
                    inputs: grown(old(self).slot_views()[i as int].inputs, port as nat).update(port as int, src),
                    ..old(self).slot_views()[i as int]
                },
            ),
            final(self).wf(),
            final(self).processor_ids == old(self).processor_ids,
            final(self).speaker_ids == old(self).speaker_ids,
            final(self).ids_dirty == old(self).ids_dirty,
    {
        let ghost v0 = self.slot_views();
        let ghost s0 = self.slots@;
        let mut slot = self.slots.remove(i);
        let ghost before = slot.inputs@;
        while slot.inputs.len() <= port
            invariant
                port < usize::MAX,
                slot.node_id == s0[i as int].node_id,
                slot.is_speaker == s0[i as int].is_speaker,
                before.len() <= slot.inputs@.len(),
                slot.inputs@.len() <= (if port < before.len() { before.len() } else { (port + 1) as nat }),
                slot.inputs@ == before + Seq::new((slot.inputs@.len() - before.len()) as nat, |k: int| None::<NodeId>),
            decreases port + 1 - slot.inputs@.len(),
        {
            slot.inputs.push(None);
            proof {
                assert(slot.inputs@ =~= before + Seq::new((slot.inputs@.len() - before.len()) as nat, |k: int| None::<NodeId>));
            }
        }
        proof {
            assert(slot.inputs@ =~= grown(before, port as nat));
        }
        slot.inputs.set(port, src);
        let ghost sv = slot.view();
        self.slots.insert(i, slot);
        proof {
            let v = self.slot_views();
            assert(self.slots@ =~= s0.update(i as int, self.slots@[i as int]));
            assert(self.slots@[i as int].view() == sv);
            lemma_same_ids(v, v0);
            assert(v =~= v0.update(
                i as int,
                SlotView { inputs: grown(v0[i as int].inputs, port as nat).update(port as int, src), ..v0[i as int] },
            ));
            assert forall|a: int, b: int| 0 <= a < b < v.len() implies #[trigger] v[a].node_id != #[trigger] v[b].node_id by {
                assert(v[a].node_id == v0[a].node_id && v[b].node_id == v0[b].node_id);
            }
        }
    }

    /// Disconnects every input of slot `k` that reads from `id`.
    fn clear_source(&mut self, k: usize, id: NodeId)
        requires
            old(self).wf(),
            k < old(self).slots@.len(),
        ensures
            final(self).slots@.len() == old(self).slots@.len(),
            final(self).slot_views() == old(self).slot_views().update(
                k as int,
                SlotView {
                    inputs: without_source(old(self).slot_views()[k as int].inputs, id),
                    ..old(self).slot_views()[k as int]
                },
            ),
            final(self).wf(),
            final(self).processor_ids == old(self).processor_ids,
            final(self).speaker_ids == old(self).speaker_ids,
            final(self).ids_dirty == old(self).ids_dirty,
    {
        let ghost v0 = self.slot_views();
        let ghost s0 = self.slots@;
        let mut slot = self.slots.remove(k);
        let ghost before = slot.inputs@;
        let mut j: usize = 0;
        while j < slot.inputs.len()
            invariant
                slot.node_id == s0[k as int].node_id,
                slot.is_speaker == s0[k as int].is_speaker,
                slot.inputs@.len() == before.len(),
                j <= before.len(),
                forall|m: int| 0 <= m < j ==> #[trigger] slot.inputs@[m] == without_source(before, id)[m],
                forall|m: int| j <= m < before.len() ==> #[trigger] slot.inputs@[m] == before[m],
            decreases before.len() - j,
        {
            if slot.inputs[j] == Some(id) {
                slot.inputs.set(j, None);
            }
            j += 1;
        }
        proof {
            assert(slot.inputs@ =~= without_source(before, id));
        }
        let ghost sv = slot.view();
        self.slots.insert(k, slot);
        proof {
            let v = self.slot_views();
            assert(self.slots@ =~= s0.update(k as int, self.slots@[k as int]));
            assert(self.slots@[k as int].view() == sv);
            lemma_same_ids(v, v0);
            assert(v =~= v0.update(
                k as int,
                SlotView { inputs: without_source(v0[k as int].inputs, id), ..v0[k as int] },
            ));
            assert forall|a: int, b: int| 0 <= a < b < v.len() implies #[trigger] v[a].node_id != #[trigger] v[b].node_id by {
                assert(v[a].node_id == v0[a].node_id && v[b].node_id == v0[b].node_id);
            }
        }
    }

    /// Applies one topology command.
    pub fn apply(&mut self, cmd: RoutingCommand)
        requires
            old(self).wf(),
            cmd matches RoutingCommand::Connect { to_port, .. } ==> to_port < usize::MAX,
        ensures
            final(self).wf(),
            final(self).slot_views() == apply_command(old(self).slot_views(), cmd),
    {
        match cmd {
            RoutingCommand::Add { node_id, is_speaker } => {
                let ghost v0 = self.slot_views();
                let fresh = RoutingSlot { node_id, inputs: Vec::new(), is_speaker };
                match self.find(node_id) {
                    Some(i) => {
                        self.slots.set(i, fresh);
                    },
                    None => {
                        self.slots.push(fresh);
                    },
                }
                self.ids_dirty = true;
                proof {
                    let v = self.slot_views();
                    let fv = SlotView { node_id, inputs: Seq::empty(), is_speaker };
                    assert(fresh.view() == fv);
                    assert(v =~= apply_command(v0, cmd));
                    assert forall|a: int, b: int| 0 <= a < b < v.len() implies #[trigger] v[a].node_id
                        != #[trigger] v[b].node_id by {
                        if a < v0.len() && b < v0.len() {
                            if v[a].node_id == node_id || v[b].node_id == node_id {
                            }
                        }
                        match slot_pos(v0, node_id) {
                            Some(i) => {
                                if a == i {
                                    assert(v0[i].node_id == node_id);
                                    assert(v0[a].node_id != v0[b].node_id);
                                } else if b == i {
                                    assert(v0[i].node_id == node_id);
                                    assert(v0[a].node_id != v0[b].node_id);
                                } else {
                                    assert(v0[a].node_id != v0[b].node_id);
                                }
                            },
                            None => {
                                if b == v0.len() {
                                    assert(v0[a].node_id != node_id);
                                } else {
                                    assert(v0[a].node_id != v0[b].node_id);
                                }
                            },
                        }
                    }
                }
            },
            RoutingCommand::Remove { node_id } => {
                let ghost v0 = self.slot_views();
                match self.find(node_id) {
                    Some(i) => {
                        self.slots.remove(i);
                        proof {
                            let v = self.slot_views();
                            assert(v =~= v0.remove(i as int));
                            assert forall|a: int, b: int| 0 <= a < b < v.len() implies #[trigger] v[a].node_id
                                != #[trigger] v[b].node_id by {
                                let a0 = if a < i { a } else { a + 1 };
                                let b0 = if b < i { b } else { b + 1 };
                                assert(v[a] == v0[a0] && v[b] == v0[b0]);
                            }
                        }
                    },
                    None => {},
                }
                self.ids_dirty = true;
                let ghost rest = self.slot_views();
                let mut k: usize = 0;
                while k < self.slots.len()
                    invariant
                        self.wf(),
                        self.slots@.len() == rest.len(),
                        k <= rest.len(),
                        forall|m: int| 0 <= m < k ==> #[trigger] self.slot_views()[m] == (SlotView {
                            node_id: rest[m].node_id,
                            inputs: without_source(rest[m].inputs, node_id),
                            is_speaker: rest[m].is_speaker,
                        }),
                        forall|m: int| k <= m < rest.len() ==> #[trigger] self.slot_views()[m] == rest[m],
                    decreases rest.len() - k,
                {
                    self.clear_source(k, node_id);
                    k += 1;
                }
                proof {
                    assert(self.slot_views() =~= apply_command(v0, cmd));
                }
            },
            RoutingCommand::Connect { from_node, to_node, to_port } => {
                match self.find(to_node) {
                    Some(i) => {
                        self.set_input(i, to_port, Some(from_node), true);
                    },
                    None => {},
                }
            },
            RoutingCommand::Disconnect { to_node, to_port } => {
                match self.find(to_node) {
                    Some(i) => {
                        if to_port < self.slots[i].inputs.len() {
                            self.set_input(i, to_port, None, false);
                        }
                    },
                    None => {},
                }
            },
            RoutingCommand::SetSpeaker { node_id, active } => {
                let ghost v0 = self.slot_views();
                match self.find(node_id) {
                    Some(i) => {
                        let mut slot = self.slots.remove(i);
                        slot.is_speaker = active;
                        self.slots.insert(i, slot);
                        proof {
                            let v = self.slot_views();
                            assert(v =~= v0.update(i as int, SlotView { is_speaker: active, ..v0[i as int] }));
                            assert forall|a: int, b: int| 0 <= a < b < v.len() implies #[trigger] v[a].node_id
                                != #[trigger] v[b].node_id by {
                                assert(v[a].node_id == v0[a].node_id && v[b].node_id == v0[b].node_id);
                            }
                        }
                    },
                    None => {},
                }
                self.ids_dirty = true;
            },
        }
    }

    /// The cached list of processors.
    pub closed spec fn cached_processors(&self) -> Seq<NodeId> {
        self.processor_ids@
    }

    /// The cached list of speakers.
    pub closed spec fn cached_speakers(&self) -> Seq<NodeId> {
        self.speaker_ids@
    }

    /// Rebuilds the cached processor and speaker lists.
    fn refresh_ids(&mut self)
        requires
            old(self).wf(),
        ensures
            final(self).wf(),
            !final(self).ids_dirty,
            final(self).slots == old(self).slots,
    {
        let ghost v = self.slot_views();
        let mut procs: Vec<NodeId> = Vec::new();
        let mut speakers: Vec<NodeId> = Vec::new();
        let mut k: usize = 0;
        while k < self.slots.len()
            invariant
                v == self.slot_views(),
                k <= v.len(),
                procs@ == slot_ids(v.take(k as int)),
                speakers@ == speaker_ids_of(v.take(k as int)),
            decreases v.len() - k,
        {
            proof {
                assert(v.take(k + 1).drop_last() == v.take(k as int));
                assert(v.take(k + 1).last() == v[k as int]);
            }
            procs.push(self.slots[k].node_id);
            if self.slots[k].is_speaker {
                speakers.push(self.slots[k].node_id);
            }
            proof {
                assert(procs@ =~= slot_ids(v.take(k + 1)));
            }
            k += 1;
        }
        proof {
            assert(v.take(v.len() as int) == v);
        }
        self.processor_ids = procs;
        self.speaker_ids = speakers;
        self.ids_dirty = false;
    }

    /// Applies the commands in order, then brings the processor and speaker lists
    /// up to date if any command changed them.
    pub fn process_commands(&mut self, cmds: &Vec<RoutingCommand>)
        requires
            old(self).wf(),
            forall|k: int| 0 <= k < cmds@.len() ==> (#[trigger] cmds@[k] matches RoutingCommand::Connect {
                to_port,
                ..
            } ==> to_port < usize::MAX),
        ensures
            final(self).wf(),
            final(self).slot_views() == apply_all(old(self).slot_views(), cmds@),
            final(self).cached_processors() == slot_ids(final(self).slot_views()),
            final(self).cached_speakers() == speaker_ids_of(final(self).slot_views()),
    {
        let ghost v0 = self.slot_views();
        let mut k: usize = 0;
        while k < cmds.len()
            invariant
                self.wf(),
                k <= cmds@.len(),
                forall|m: int| 0 <= m < cmds@.len() ==> (#[trigger] cmds@[m] matches RoutingCommand::Connect {
                    to_port,
                    ..
                } ==> to_port < usize::MAX),
                self.slot_views() == apply_all(v0, cmds@.take(k as int)),
            decreases cmds@.len() - k,
        {
            proof {
                assert(cmds@.take(k + 1).drop_last() == cmds@.take(k as int));
                assert(cmds@.take(k + 1).last() == cmds@[k as int]);
            }
            self.apply(cmds[k]);
            k += 1;
        }
        proof {
            assert(cmds@.take(cmds@.len() as int) == cmds@);
        }
        if self.ids_dirty {
            self.refresh_ids();
        }
    }

    /// The processors, in slot order, as of the last command batch.
    pub fn processor_ids(&self) -> (r: &Vec<NodeId>)
        ensures
            r@ == self.cached_processors(),
    {
        &self.processor_ids
    }

    /// The speakers, in slot order, as of the last command batch.
    pub fn speaker_ids(&self) -> (r: &Vec<NodeId>)
        ensures
            r@ == self.cached_speakers(),
    {
        &self.speaker_ids
    }

    /// The inputs of `node_id` that read from a node that has a processor, as
    /// (port, source) pairs in port order; `None` when `node_id` has no processor.
    pub fn live_inputs(&self, node_id: NodeId) -> (r: Option<Vec<(usize, NodeId)>>)
        requires
            self.wf(),
        ensures
            match slot_pos(self.slot_views(), node_id) {
                Some(i) => r is Some && r->Some_0@ == live_from(self.slot_views(), self.slot_views()[i].inputs),
                None => r is None,
            },
    {
        match self.find(node_id) {
            None => None,
            Some(i) => {
                let ghost v = self.slot_views();
                let ghost ins = v[i as int].inputs;
                let mut r: Vec<(usize, NodeId)> = Vec::new();
                let mut p: usize = 0;
                while p < self.slots[i].inputs.len()
                    invariant
                        self.wf(),
                        v == self.slot_views(),
                        i < self.slots@.len(),
                        ins == self.slots@[i as int].inputs@,
                        p <= ins.len(),
                        r@ == live_from(v, ins.take(p as int)),
                    decreases ins.len() - p,
                {
                    proof {
                        assert(ins.take(p + 1).drop_last() == ins.take(p as int));
                        assert(ins.take(p + 1).last() == ins[p as int]);
                    }
                    match self.slots[i].inputs[p] {
                        Some(src) => {
                            if self.find(src).is_some() {
                                r.push((p, src));
                            }
                        },
                        None => {},
                    }
                    p += 1;
                }
                proof {
                    assert(ins.take(ins.len() as int) == ins);
                }
                Some(r)
            },
        }
    }
}

/// The slots after the commands `cmds`, in order.
pub open spec fn apply_all(slots: Seq<SlotView>, cmds: Seq<RoutingCommand>) -> Seq<SlotView>
    decreases cmds.len(),
{
    if cmds.len() == 0 {
        slots
    } else {
        apply_command(apply_all(slots, cmds.drop_last()), cmds.last())
    }
}

/// The (port, source) pairs of `inputs` whose source has a slot, in port order.
pub open spec fn live_from(slots: Seq<SlotView>, inputs: Seq<Option<NodeId>>) -> Seq<(usize, NodeId)>
    decreases inputs.len(),
{
    if inputs.len() == 0 {
        Seq::empty()
    } else {
        let pre = live_from(slots, inputs.drop_last());
        match inputs.last() {
            Some(src) => if slot_pos(slots, src) is Some {
                pre.push(((inputs.len() - 1) as usize, src))
            } else {
                pre
            },
            None => pre,
        }
    }
}

/// In a slot list without repeated nodes, the slot of a node is where it is.
proof fn lemma_pos_at(slots: Seq<SlotView>, id: NodeId, i: int)
    requires
        slots_unique(slots),
        0 <= i < slots.len(),
        slots[i].node_id == id,
    ensures
        slot_pos(slots, id) == Some(i),
{
    let j = choose|j: int| 0 <= j < slots.len() && #[trigger] slots[j].node_id == id;
    if j != i {
        if j < i {
            assert(slots[j].node_id != slots[i].node_id);
        } else {
            assert(slots[i].node_id != slots[j].node_id);
        }
    }
}

/// Removing a processor leaves no slot for it and no input reading from it.
pub proof fn law_remove_disconnects(slots: Seq<SlotView>, id: NodeId)
    requires
        slots_unique(slots),
    ensures
        slot_pos(apply_command(slots, RoutingCommand::Remove { node_id: id }), id) is None,
        forall|k: int, p: int|
            0 <= k < apply_command(slots, RoutingCommand::Remove { node_id: id }).len() && 0 <= p
                < apply_command(slots, RoutingCommand::Remove { node_id: id })[k].inputs.len() ==> #[trigger] apply_command(
                slots,
                RoutingCommand::Remove { node_id: id },
            )[k].inputs[p] != Some(id),
{
    let r = apply_command(slots, RoutingCommand::Remove { node_id: id });
    let rest = match slot_pos(slots, id) {
        Some(i) => slots.remove(i),
        None => slots,
    };
    if exists|k: int| 0 <= k < r.len() && #[trigger] r[k].node_id == id {
        let k = choose|k: int| 0 <= k < r.len() && #[trigger] r[k].node_id == id;
        match slot_pos(slots, id) {
            Some(i) => {
                let k0 = if k < i { k } else { k + 1 };
                assert(r[k].node_id == rest[k].node_id);
                assert(rest[k] == slots[k0]);
                if k0 < i {
                    assert(slots[k0].node_id != slots[i].node_id);
                } else {
                    assert(slots[i].node_id != slots[k0].node_id);
                }
            },
            None => {
                assert(r[k].node_id == slots[k].node_id);
            },
        }
    }
}

/// After a connection to an existing processor, the input reads from the new
/// source.
pub proof fn law_connect_reads_back(slots: Seq<SlotView>, from: NodeId, to: NodeId, port: usize)
    requires
        slots_unique(slots),
        slot_pos(slots, to) is Some,
    ensures
        ({
            let r = apply_command(slots, RoutingCommand::Connect { from_node: from, to_node: to, to_port: port });
            &&& slot_pos(r, to) == slot_pos(slots, to)
            &&& r[slot_pos(r, to)->Some_0].inputs[port as int] == Some(from)
        }),
{
    let r = apply_command(slots, RoutingCommand::Connect { from_node: from, to_node: to, to_port: port });
    let i = slot_pos(slots, to)->Some_0;
    assert(r == slots.update(
        i,
        SlotView { inputs: grown(slots[i].inputs, port as nat).update(port as int, Some(from)), ..slots[i] },
    ));
    lemma_pos_at(slots, to, i);
    assert(slots_unique(r)) by {
        assert forall|a: int, b: int| 0 <= a < b < r.len() implies #[trigger] r[a].node_id != #[trigger] r[b].node_id by {
            assert(r[a].node_id == slots[a].node_id && r[b].node_id == slots[b].node_id);
        }
    }
    lemma_pos_at(r, to, i);
}

/// Disconnecting an input that a connection just fed leaves it reading nothing.
pub proof fn law_disconnect_after_connect(slots: Seq<SlotView>, from: NodeId, to: NodeId, port: usize)
    requires
        slots_unique(slots),
        slot_pos(slots, to) is Some,
    ensures
        ({
            let r = apply_command(
                apply_command(slots, RoutingCommand::Connect { from_node: from, to_node: to, to_port: port }),
                RoutingCommand::Disconnect { to_node: to, to_port: port },
            );
            &&& slot_pos(r, to) == slot_pos(slots, to)
            &&& r[slot_pos(r, to)->Some_0].inputs[port as int] == None::<NodeId>
        }),
{
    let r1 = apply_command(slots, RoutingCommand::Connect { from_node: from, to_node: to, to_port: port });
    let i = slot_pos(slots, to)->Some_0;
    assert(r1 == slots.update(
        i,
        SlotView { inputs: grown(slots[i].inputs, port as nat).update(port as int, Some(from)), ..slots[i] },
    ));
    lemma_pos_at(slots, to, i);
    assert(slots_unique(r1)) by {
        assert forall|a: int, b: int| 0 <= a < b < r1.len() implies #[trigger] r1[a].node_id != #[trigger] r1[b].node_id by {
            assert(r1[a].node_id == slots[a].node_id && r1[b].node_id == slots[b].node_id);
        }
    }
    lemma_pos_at(r1, to, i);
    let r2 = apply_command(r1, RoutingCommand::Disconnect { to_node: to, to_port: port });
    assert(port < r1[i].inputs.len());
    assert(r2 == r1.update(i, SlotView { inputs: r1[i].inputs.update(port as int, None), ..r1[i] }));
    assert(slots_unique(r2)) by {
        assert forall|a: int, b: int| 0 <= a < b < r2.len() implies #[trigger] r2[a].node_id != #[trigger] r2[b].node_id by {
            assert(r2[a].node_id == r1[a].node_id && r2[b].node_id == r1[b].node_id);
        }
    }
    lemma_pos_at(r2, to, i);
}

/// One command keeps the slots one per node.
proof fn lemma_command_keeps_unique(slots: Seq<SlotView>, cmd: RoutingCommand)
    requires
        slots_unique(slots),
    ensures
        slots_unique(apply_command(slots, cmd)),
{
    let r = apply_command(slots, cmd);
    match cmd {
        RoutingCommand::Add { node_id, is_speaker } => {
            match slot_pos(slots, node_id) {
                Some(i) => {
                    lemma_pos_at(slots, node_id, i);
                    assert forall|a: int, b: int| 0 <= a < b < r.len() implies #[trigger] r[a].node_id
                        != #[trigger] r[b].node_id by {
                        assert(r[a].node_id == slots[a].node_id && r[b].node_id == slots[b].node_id);
                    }
                },
                None => {
                    assert forall|a: int, b: int| 0 <= a < b < r.len() implies #[trigger] r[a].node_id
                        != #[trigger] r[b].node_id by {
                        if b == slots.len() {
                            assert(slots[a].node_id != node_id);
                        } else {
                            assert(r[a] == slots[a] && r[b] == slots[b]);
                        }
                    }
                },
            }
        },
        RoutingCommand::Remove { node_id } => {
            let rest = match slot_pos(slots, node_id) {
                Some(i) => slots.remove(i),
                None => slots,
            };
            assert forall|a: int, b: int| 0 <= a < b < rest.len() implies #[trigger] rest[a].node_id
                != #[trigger] rest[b].node_id by {
                match slot_pos(slots, node_id) {
                    Some(i) => {
                        let a0 = if a < i { a } else { a + 1 };
                        let b0 = if b < i { b } else { b + 1 };
                        assert(rest[a] == slots[a0] && rest[b] == slots[b0]);
                    },
                    None => {},
                }
            }
            assert forall|a: int, b: int| 0 <= a < b < r.len() implies #[trigger] r[a].node_id
                != #[trigger] r[b].node_id by {
                assert(r[a].node_id == rest[a].node_id && r[b].node_id == rest[b].node_id);
            }
        },
        _ => {
            assert(r.len() == slots.len());
            assert forall|a: int, b: int| 0 <= a < b < r.len() implies #[trigger] r[a].node_id
                != #[trigger] r[b].node_id by {
                assert(r[a].node_id == slots[a].node_id && r[b].node_id == slots[b].node_id);
            }
        },
    }
}

/// A queue of commands keeps the slots one per node.
proof fn lemma_queue_keeps_unique(slots: Seq<SlotView>, cmds: Seq<RoutingCommand>)
    requires
        slots_unique(slots),
    ensures
        slots_unique(apply_all(slots, cmds)),
    decreases cmds.len(),
{
    if cmds.len() > 0 {
        lemma_queue_keeps_unique(slots, cmds.drop_last());
        lemma_command_keeps_unique(apply_all(slots, cmds.drop_last()), cmds.last());
    }
}

/// Applying a queue of commands is applying its first part, then the rest.
pub proof fn law_queue_in_parts(slots: Seq<SlotView>, a: Seq<RoutingCommand>, b: Seq<RoutingCommand>)
    ensures
        apply_all(slots, a + b) == apply_all(apply_all(slots, a), b),
    decreases b.len(),
{
    if b.len() == 0 {
        assert(a + b == a);
    } else {
        law_queue_in_parts(slots, a, b.drop_last());
        assert((a + b).drop_last() == a + b.drop_last());
        assert((a + b).last() == b.last());
    }
}

/// Whatever a queue did before, a removal at its end leaves the node no slot and
/// no input reading from it.
pub proof fn law_queue_remove_disconnects(slots: Seq<SlotView>, cmds: Seq<RoutingCommand>, id: NodeId)
    requires
        slots_unique(slots),
    ensures
        ({
            let r = apply_all(slots, cmds.push(RoutingCommand::Remove { node_id: id }));
            &&& slot_pos(r, id) is None
            &&& forall|k: int, p: int| 0 <= k < r.len() && 0 <= p < r[k].inputs.len() ==> #[trigger] r[k].inputs[p] != Some(id)
        }),
{
    let q = cmds.push(RoutingCommand::Remove { node_id: id });
    assert(q.drop_last() == cmds);
    lemma_queue_keeps_unique(slots, cmds);
    law_remove_disconnects(apply_all(slots, cmds), id);
}

/// Whatever a queue did before, a connection at its end to a node that then has a
/// processor makes that input read from the new source.
pub proof fn law_queue_connect_reads_back(
    slots: Seq<SlotView>,
    cmds: Seq<RoutingCommand>,
    from: NodeId,
    to: NodeId,
    port: usize,
)
    requires
        slots_unique(slots),
        slot_pos(apply_all(slots, cmds), to) is Some,
    ensures
        ({
            let r = apply_all(slots, cmds.push(RoutingCommand::Connect { from_node: from, to_node: to, to_port: port }));
            &&& slot_pos(r, to) is Some
            &&& r[slot_pos(r, to)->Some_0].inputs[port as int] == Some(from)
        }),
{
    let q = cmds.push(RoutingCommand::Connect { from_node: from, to_node: to, to_port: port });
    assert(q.drop_last() == cmds);
    lemma_queue_keeps_unique(slots, cmds);
    law_connect_reads_back(apply_all(slots, cmds), from, to, port);
}

} // verus!
