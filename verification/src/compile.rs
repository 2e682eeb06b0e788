use crate::graph::NodeId;
use crate::params::{law_map_slots_apart, slots_apart, spec_allocate, spec_allocate_from, ParamMap};
use crate::schedule::{at, dependency_schedule, law_schedule_respects_deps, schedule};
use vstd::prelude::*;

verus! {

/// The kind of an audio effect. What the chain layout needs of an effect is the
/// number of parameter slots its processor reads.
#[derive(Clone, Copy, Debug, PartialEq, Eq, Structural)]
pub enum EffectKind {
    Gain,
    LowPass,
    HighPass,
    Delay,
    Distortion,
    Reverb,
    ParametricEq,
}

impl EffectKind {
    /// Gain, filters and distortion read one slot (level, cutoff, drive); delay
    /// reads two (time, feedback); reverb three (room size, damping, mix); the
    /// equalizer's bands are fixed when it is built, so it reads none.
    pub open spec fn spec_param_count(self) -> nat {
        match self {
            EffectKind::Gain => 1,
            EffectKind::LowPass => 1,
            EffectKind::HighPass => 1,
            EffectKind::Delay => 2,
            EffectKind::Distortion => 1,
            EffectKind::Reverb => 3,
            EffectKind::ParametricEq => 0,
        }
    }

    /// The number of parameter slots the effect's processor reads.
    pub fn param_count(&self) -> (r: usize)
        ensures
            r == self.spec_param_count(),
    {
        match self {
            EffectKind::Gain => 1,
            EffectKind::LowPass => 1,
            EffectKind::HighPass => 1,
            EffectKind::Delay => 2,
            EffectKind::Distortion => 1,
            EffectKind::Reverb => 3,
            EffectKind::ParametricEq => 0,
        }
    }
}

impl EffectKind {
    pub open spec fn spec_name(self) -> Seq<char> {
        match self {
            EffectKind::Gain => "Gain"@,
            EffectKind::LowPass => "Low Pass"@,
            EffectKind::HighPass => "High Pass"@,
            EffectKind::Delay => "Delay"@,
            EffectKind::Distortion => "Distortion"@,
            EffectKind::Reverb => "Reverb"@,
            EffectKind::ParametricEq => "Parametric EQ"@,
        }
    }

    /// The display name of the effect.
    pub fn name(&self) -> (r: &'static str)
        ensures
            r@ == self.spec_name(),
    {
        match self {
            EffectKind::Gain => "Gain",
            EffectKind::LowPass => "Low Pass",
            EffectKind::HighPass => "High Pass",
            EffectKind::Delay => "Delay",
            EffectKind::Distortion => "Distortion",
            EffectKind::Reverb => "Reverb",
            EffectKind::ParametricEq => "Parametric EQ",
        }
    }

    pub open spec fn spec_type_tag(self) -> u8 {
        match self {
            EffectKind::Gain => 0,
            EffectKind::LowPass => 1,
            EffectKind::HighPass => 2,
            EffectKind::Delay => 3,
            EffectKind::Distortion => 4,
            EffectKind::Reverb => 5,
            EffectKind::ParametricEq => 6,
        }
    }

    /// A number telling the kinds apart.
    pub fn type_tag(&self) -> (r: u8)
        ensures
            r == self.spec_type_tag(),
    {
        match self {
            EffectKind::Gain => 0,
            EffectKind::LowPass => 1,
            EffectKind::HighPass => 2,
            EffectKind::Delay => 3,
            EffectKind::Distortion => 4,
            EffectKind::Reverb => 5,
            EffectKind::ParametricEq => 6,
        }
    }
}

/// Whether two effect chains have the same kinds in the same order.
pub fn effects_same_types(a: &Vec<EffectKind>, b: &Vec<EffectKind>) -> (r: bool)
    ensures
        r == (a@ == b@),
{
    if a.len() != b.len() {
        return false;
    }
    let mut i: usize = 0;
    while i < a.len()
        invariant
            a@.len() == b@.len(),
            i <= a@.len(),
            forall|j: int| 0 <= j < i ==> a@[j] == b@[j],
        decreases a@.len() - i,
    {
        if a[i].type_tag() != b[i].type_tag() {
            return false;
        }
        i += 1;
    }
    proof {
        assert(a@ =~= b@);
    }
    true
}

/// What updating a node's effect chain does with the chain already there.
#[derive(Clone, Copy, Debug, PartialEq, Eq, Structural)]
pub enum ChainUpdate {
    /// The node had no chain: the new one is stored.
    Insert,
    /// The kinds changed: the new chain replaces the old, processing state and all.
    Replace,
    /// Same kinds in the same order: only the user parameters are copied over, so
    /// filter states and delay lines carry on.
    MergeParams,
}

/// How a node's chain `existing` (if any) takes the new chain `new`.
pub fn chain_update(existing: Option<&Vec<EffectKind>>, new: &Vec<EffectKind>) -> (r: ChainUpdate)
    ensures
        r == (match existing {
            None => ChainUpdate::Insert,
            Some(e) => if e@ == new@ {
                ChainUpdate::MergeParams
            } else {
                ChainUpdate::Replace
            },
        }),
{
    match existing {
        None => ChainUpdate::Insert,
        Some(e) => if e.len() != new.len() || !effects_same_types(e, new) {
            ChainUpdate::Replace
        } else {
            ChainUpdate::MergeParams
        },
    }
}

/// One input channel of a mixer: the node whose output it takes and the effects
/// applied to that channel before mixing.
pub struct MixerChannel {
    pub source: NodeId,
    pub effects: Vec<EffectKind>,
}

/// What produces the audio of an active chain.
pub enum SourceKind {
    /// An oscillator, optionally frequency-modulated by another node's output.
    Synth { fm_source: Option<NodeId> },
    /// A mixer of other nodes' outputs.
    Mixer { channels: Vec<MixerChannel> },
    /// The live audio input.
    LiveInput,
    /// A decoded audio file.
    FilePlayer,
    /// A sampler, optionally recording another node's output.
    Sampler { input_source: Option<NodeId> },
}

/// A node whose audio reaches an output: its source, the effects on its path,
/// and whether it is only rendered for other nodes (never mixed to the output
/// directly).
pub struct ActiveChain {
    pub node_id: NodeId,
    pub source: Option<SourceKind>,
    pub effects: Vec<EffectKind>,
    pub render_only: bool,
}

/// What a processor slot of the compiled chain runs.
#[derive(Clone, Copy, Debug, PartialEq, Eq, Structural)]
pub enum ProcessorRole {
    /// The source of the node.
    Source(NodeId),
    /// Effect `i` of the node's effect chain.
    ChainEffect(NodeId, usize),
    /// Effect `j` on channel `c` of the mixer node.
    ChannelEffect(NodeId, usize, usize),
}

/// One operation of the compiled chain: run a processor from one buffer into
/// another, reading its parameters from a slot range.
#[derive(Clone, Copy, Debug)]
pub struct DspOp {
    /// Which processor to run.
    pub processor_idx: usize,
    /// The buffer read (ignored by sources).
    pub input_buffer: usize,
    /// The buffer written.
    pub output_buffer: usize,
    /// The first parameter slot of the processor.
    pub param_start: usize,
    /// How many parameter slots it reads.
    pub param_count: usize,
    /// Whether the output goes to the master output.
    pub mix_to_output: bool,
    /// The slot holding the gain applied when mixing to the output.
    pub output_gain_slot: Option<usize>,
    /// The node the operation belongs to.
    pub node_id: NodeId,
}

/// A mixing operation: each channel's source buffer, through the channel's
/// effects, summed into the output buffer. The channel gains travel beside it,
/// in channel order.
pub struct MixerOp {
    pub processor_idx: usize,
    pub output_buffer: usize,
    /// The source buffer of each channel.
    pub input_buffers: Vec<usize>,
    /// The effect processors of each channel, in order.
    pub channel_effects: Vec<Vec<usize>>,
    /// The scratch buffer the channels are processed in.
    pub temp_buffer: usize,
    pub param_start: usize,
    pub param_count: usize,
    pub mix_to_output: bool,
    pub output_gain_slot: Option<usize>,
    pub node_id: NodeId,
}

/// The mathematical value of a mixing operation.
pub struct MixerView {
    pub processor_idx: usize,
    pub output_buffer: usize,
    pub input_buffers: Seq<usize>,
    pub channel_effects: Seq<Seq<usize>>,
    pub temp_buffer: usize,
    pub param_start: usize,
    pub param_count: usize,
    pub mix_to_output: bool,
    pub output_gain_slot: Option<usize>,
    pub node_id: NodeId,
}

impl MixerOp {
    pub open spec fn view(&self) -> MixerView {
        MixerView {
            processor_idx: self.processor_idx,
            output_buffer: self.output_buffer,
            input_buffers: self.input_buffers@,
            channel_effects: self.channel_effects@.map_values(|v: Vec<usize>| v@),
            temp_buffer: self.temp_buffer,
            param_start: self.param_start,
            param_count: self.param_count,
            mix_to_output: self.mix_to_output,
            output_gain_slot: self.output_gain_slot,
            node_id: self.node_id,
        }
    }
}

/// The layout built so far: operations, mixing operations, processor slots,
/// the number of buffers, the number of parameter slots and their owners.
pub struct PlanState {
    pub ops: Seq<DspOp>,
    pub mixers: Seq<MixerView>,
    pub procs: Seq<ProcessorRole>,
    pub buffers: nat,
    pub slots: nat,
    pub params: Map<(NodeId, u16), usize>,
}

/// The nodes whose output a chain needs before it can render.
pub open spec fn chain_deps(c: ActiveChain) -> Seq<NodeId> {
    match c.source {
        Some(SourceKind::Synth { fm_source }) => match fm_source {
            Some(f) => seq![f],
            None => Seq::empty(),
        },
        Some(SourceKind::Mixer { channels }) => channels@.map_values(|m: MixerChannel| m.source),
        Some(SourceKind::Sampler { input_source }) => match input_source {
            Some(s) => seq![s],
            None => Seq::empty(),
        },
        _ => Seq::empty(),
    }
}

/// The output buffer of node `id` in a layout rendering the nodes `order`:
/// buffer `k + 1` for the node at position `k`, the silent buffer 0 for any
/// other node.
pub open spec fn buffer_of(order: Seq<NodeId>, id: NodeId) -> nat {
    if order.contains(id) {
        (choose|k: int| 0 <= k < order.len() && order[k] == id) as nat + 1
    } else {
        0
    }
}

/// Effects `i..` of the chain of node `nid`, the first reading `current`: each
/// takes the next processor slot and, if it reads parameters, the next
/// parameter slots; all but the last write a fresh buffer, the last writes the
/// buffer it reads, and only the last goes to the output (unless the node is
/// render-only).
pub open spec fn fx_chain(
    s: PlanState,
    nid: NodeId,
    base: nat,
    effects: Seq<EffectKind>,
    i: nat,
    current: nat,
    render_only: bool,
) -> PlanState
    decreases effects.len() - i,
{
    if i >= effects.len() {
        s
    } else {
        let pc = effects[i as int].spec_param_count();
        let last = i + 1 == effects.len();
        let out: nat = if last { current } else { s.buffers };
        let op = DspOp {
            processor_idx: s.procs.len() as usize,
            input_buffer: current as usize,
            output_buffer: out as usize,
            param_start: (if pc > 0 { s.slots } else { 0 }) as usize,
            param_count: pc as usize,
            mix_to_output: last && !render_only,
            output_gain_slot: None,
            node_id: nid,
        };
        fx_chain(
            PlanState {
                ops: s.ops.push(op),
                mixers: s.mixers,
                procs: s.procs.push(ProcessorRole::ChainEffect(nid, i as usize)),
                buffers: if last { s.buffers } else { s.buffers + 1 },
                slots: s.slots + pc,
                params: if pc > 0 { spec_allocate_from(s.params, nid, (s.slots - base) as nat, s.slots, pc) } else { s.params },
            },
            nid,
            base,
            effects,
            i + 1,
            out,
            render_only,
        )
    }
}

/// The last operation, now sent to the output.
pub open spec fn to_output(s: PlanState) -> PlanState {
    let op = s.ops.last();
    PlanState {
        ops: s.ops.update(
            s.ops.len() - 1,
            DspOp {
                processor_idx: op.processor_idx,
                input_buffer: op.input_buffer,
                output_buffer: op.output_buffer,
                param_start: op.param_start,
                param_count: op.param_count,
                mix_to_output: true,
                output_gain_slot: op.output_gain_slot,
                node_id: op.node_id,
            },
        ),
        ..s
    }
}

/// The effect chain after a source operation writing `current`: with no
/// effects, the source operation itself goes to the output (unless the node is
/// render-only).
pub open spec fn finish_chain(
    s: PlanState,
    nid: NodeId,
    base: nat,
    effects: Seq<EffectKind>,
    current: nat,
    render_only: bool,
) -> PlanState {
    if effects.len() == 0 {
        if render_only {
            s
        } else {
            to_output(s)
        }
    } else {
        fx_chain(s, nid, base, effects, 0, current, render_only)
    }
}

/// Effects `j..` of mixer channel `ch`: each takes the next processor slot and
/// its parameter slots.
pub open spec fn channel_fx(s: PlanState, nid: NodeId, base: nat, ch: nat, effects: Seq<EffectKind>, j: nat) -> PlanState
    decreases effects.len() - j,
{
    if j >= effects.len() {
        s
    } else {
        let pc = effects[j as int].spec_param_count();
        channel_fx(
            PlanState {
                procs: s.procs.push(ProcessorRole::ChannelEffect(nid, ch as usize, j as usize)),
                slots: s.slots + pc,
                params: spec_allocate_from(s.params, nid, (s.slots - base) as nat, s.slots, pc),
                ..s
            },
            nid,
            base,
            ch,
            effects,
            j + 1,
        )
    }
}

/// Channels `c..` of a mixer, each with its effects.
pub open spec fn mixer_channels(s: PlanState, nid: NodeId, base: nat, channels: Seq<MixerChannel>, c: nat) -> PlanState
    decreases channels.len() - c,
{
    if c >= channels.len() {
        s
    } else {
        mixer_channels(channel_fx(s, nid, base, c, channels[c as int].effects@, 0), nid, base, channels, c + 1)
    }
}

/// How many channel effects precede channel `c`.
pub open spec fn fx_before(channels: Seq<MixerChannel>, c: int) -> nat
    decreases c,
{
    if c <= 0 {
        0
    } else {
        fx_before(channels, c - 1) + channels[c - 1].effects@.len()
    }
}

/// A source operation of node `nid` reading `input`, writing `out` and reading
/// `pc` parameter slots, followed by the node's effect chain.
pub open spec fn source_chain(
    s: PlanState,
    nid: NodeId,
    input: nat,
    out: nat,
    pc: nat,
    effects: Seq<EffectKind>,
    render_only: bool,
) -> PlanState {
    let op = DspOp {
        processor_idx: s.procs.len() as usize,
        input_buffer: input as usize,
        output_buffer: out as usize,
        param_start: (if pc > 0 { s.slots } else { 0 }) as usize,
        param_count: pc as usize,
        mix_to_output: false,
        output_gain_slot: None,
        node_id: nid,
    };
    finish_chain(
        PlanState {
            ops: s.ops.push(op),
            mixers: s.mixers,
            procs: s.procs.push(ProcessorRole::Source(nid)),
            buffers: s.buffers,
            slots: s.slots + pc,
            params: if pc > 0 { spec_allocate(s.params, nid, s.slots, pc) } else { s.params },
        },
        nid,
        s.slots,
        effects,
        out,
        render_only,
    )
}

/// A mixer operation of node `nid` writing `out`: the mixer takes the next
/// processor slot, then each channel's effects take the following ones in
/// channel order; each channel reads its source's buffer.
pub open spec fn mixer_layout(
    s: PlanState,
    nid: NodeId,
    channels: Seq<MixerChannel>,
    order: Seq<NodeId>,
    out: nat,
    temp: nat,
    render_only: bool,
) -> PlanState {
    let p = s.procs.len();
    let s1 = PlanState { procs: s.procs.push(ProcessorRole::Source(nid)), ..s };
    let s2 = mixer_channels(s1, nid, s.slots, channels, 0);
    let m = MixerView {
        processor_idx: p as usize,
        output_buffer: out as usize,
        input_buffers: channels.map_values(|m: MixerChannel| buffer_of(order, m.source) as usize),
        channel_effects: Seq::new(
            channels.len(),
            |ch: int| Seq::new(channels[ch].effects@.len(), |j: int| (p + 1 + fx_before(channels, ch) + j) as usize),
        ),
        temp_buffer: temp as usize,
        param_start: 0,
        param_count: 0,
        mix_to_output: !render_only,
        output_gain_slot: None,
        node_id: nid,
    };
    PlanState { mixers: s2.mixers.push(m), ..s2 }
}

/// The layout of one active chain, in a layout rendering the nodes `order` with
/// scratch buffer `temp`.
pub open spec fn node_step(s: PlanState, c: ActiveChain, order: Seq<NodeId>, temp: nat) -> PlanState {
    let nid = c.node_id;
    let out = buffer_of(order, nid);
    match c.source {
        None => s,
        Some(SourceKind::Mixer { channels }) => mixer_layout(s, nid, channels@, order, out, temp, c.render_only),
        Some(SourceKind::Synth { .. }) => source_chain(s, nid, 0, out, 4, c.effects@, c.render_only),
        Some(SourceKind::LiveInput) => source_chain(s, nid, 0, out, 0, c.effects@, c.render_only),
        Some(SourceKind::FilePlayer) => source_chain(s, nid, 0, out, 0, c.effects@, c.render_only),
        Some(SourceKind::Sampler { input_source }) => {
            let input = match input_source {
                Some(x) => buffer_of(order, x),
                None => 0,
            };
            source_chain(s, nid, input, out, 3, c.effects@, c.render_only)
        },
    }
}

/// The node of each chain, in order.
pub open spec fn chain_ids(chains: Seq<ActiveChain>) -> Seq<NodeId> {
    chains.map_values(|c: ActiveChain| c.node_id)
}

/// No two chains belong to the same node.
pub open spec fn ids_unique(chains: Seq<ActiveChain>) -> bool {
    forall|i: int, j: int| 0 <= i < j < chains.len() ==> #[trigger] chains[i].node_id != #[trigger] chains[j].node_id
}

/// The order in which the chains render: up to six passes over the chains still
/// waiting, each rendering a chain once every node it needs has rendered; the
/// chains still waiting after that follow in their order.
pub open spec fn render_order(chains: Seq<ActiveChain>) -> Seq<NodeId> {
    let s = schedule(
        chain_ids(chains),
        chains.map_values(|c: ActiveChain| chain_deps(c)),
        Seq::new(chains.len(), |i: int| true),
        6,
    );
    at(chain_ids(chains), s.order + s.waiting)
}

/// The chain of node `id`.
pub open spec fn chain_for(chains: Seq<ActiveChain>, id: NodeId) -> ActiveChain {
    chains[choose|i: int| 0 <= i < chains.len() && chains[i].node_id == id]
}

/// The layout after laying out the chains of `order[k..]`, in order, from `s`;
/// the scratch buffer follows the nodes' buffers.
pub open spec fn plan_from(chains: Seq<ActiveChain>, order: Seq<NodeId>, s: PlanState, k: nat) -> PlanState
    decreases order.len() - k,
{
    if k >= order.len() {
        s
    } else {
        plan_from(chains, order, node_step(s, chain_for(chains, order[k as int]), order, order.len() + 1), k + 1)
    }
}

/// The compiled layout of the active chains. With none, it is empty. Otherwise
/// buffer 0 is silent, buffers `1..=n` are the outputs of the nodes in render
/// order, buffer `n + 1` is the mixers' scratch buffer, and the chains are laid
/// out in render order.
pub open spec fn compiled_plan(chains: Seq<ActiveChain>) -> PlanState {
    let empty = PlanState {
        ops: Seq::empty(),
        mixers: Seq::empty(),
        procs: Seq::empty(),
        buffers: 0,
        slots: 0,
        params: Map::empty(),
    };
    if chains.len() == 0 {
        empty
    } else {
        plan_from(chains, render_order(chains), PlanState { buffers: chains.len() + 2, ..empty }, 0)
    }
}

/// An upper bound on how much laying out chain `c` grows any counter.
pub open spec fn chain_weight(c: ActiveChain) -> nat {
    4 + 3 * c.effects@.len() + match c.source {
        Some(SourceKind::Mixer { channels }) => 3 * fx_before(channels@, channels@.len() as int),
        _ => 0,
    }
}

/// The counts of channel effects before successive channels never decrease.
proof fn lemma_fx_before_mono(channels: Seq<MixerChannel>, a: int, b: int)
    requires
        0 <= a <= b <= channels.len(),
    ensures
        fx_before(channels, a) <= fx_before(channels, b),
    decreases b - a,
{
    if a < b {
        lemma_fx_before_mono(channels, a, b - 1);
    }
}

/// The sum of the weights of the first `m` chains.
pub open spec fn weight_upto(chains: Seq<ActiveChain>, m: int) -> nat
    decreases m,
{
    if m <= 0 {
        0
    } else {
        weight_upto(chains, m - 1) + chain_weight(chains[m - 1])
    }
}

/// The sum of the weights of the chains at positions `q`.
pub open spec fn pos_weight(chains: Seq<ActiveChain>, q: Seq<int>) -> nat
    decreases q.len(),
{
    if q.len() == 0 {
        0
    } else {
        pos_weight(chains, q.drop_last()) + chain_weight(chains[q.last()])
    }
}

proof fn lemma_pos_weight_remove(chains: Seq<ActiveChain>, q: Seq<int>, t: int)
    requires
        0 <= t < q.len(),
    ensures
        pos_weight(chains, q) == pos_weight(chains, q.remove(t)) + chain_weight(chains[q[t]]),
    decreases q.len(),
{
    if t == q.len() - 1 {
        assert(q.remove(t) == q.drop_last());
    } else {
        lemma_pos_weight_remove(chains, q.drop_last(), t);
        assert(q.remove(t).drop_last() == q.drop_last().remove(t));
        assert(q.remove(t).last() == q.last());
    }
}

/// Distinct positions among the first `m` weigh at most the first `m` chains.
proof fn lemma_pos_weight_bound(chains: Seq<ActiveChain>, q: Seq<int>, m: int)
    requires
        0 <= m,
        q.no_duplicates(),
        forall|j: int| 0 <= j < q.len() ==> 0 <= #[trigger] q[j] < m,
    ensures
        pos_weight(chains, q) <= weight_upto(chains, m),
    decreases m,
{
    if m == 0 {
        if q.len() > 0 {
            assert(0 <= q[0] < m);
        }
    } else if q.contains(m - 1) {
        let t = choose|t: int| 0 <= t < q.len() && q[t] == m - 1;
        let r = q.remove(t);
        lemma_pos_weight_remove(chains, q, t);
        assert forall|j: int| 0 <= j < r.len() implies 0 <= #[trigger] r[j] < m - 1 by {
            if j < t {
                assert(r[j] == q[j]);
            } else {
                assert(r[j] == q[j + 1]);
            }
        }
        assert(r.no_duplicates()) by {
            assert forall|a: int, b: int| 0 <= a < r.len() && 0 <= b < r.len() && a != b implies r[a] != r[b] by {
                let a0 = if a < t { a } else { a + 1 };
                let b0 = if b < t { b } else { b + 1 };
                assert(r[a] == q[a0] && r[b] == q[b0]);
            }
        }
        lemma_pos_weight_bound(chains, r, m - 1);
    } else {
        assert forall|j: int| 0 <= j < q.len() implies 0 <= #[trigger] q[j] < m - 1 by {
            assert(q[j] != m - 1);
        }
        lemma_pos_weight_bound(chains, q, m - 1);
    }
}

/// Increase of each counter from `a` to `b` (buffers, parameter slots,
/// processors, operations) is at most `w`, and nothing is removed.
pub open spec fn grew_within(a: PlanState, b: PlanState, w: nat) -> bool {
    &&& a.buffers <= b.buffers <= a.buffers + w
    &&& a.slots <= b.slots <= a.slots + w
    &&& a.procs.len() <= b.procs.len() <= a.procs.len() + w
    &&& a.ops.len() <= b.ops.len() <= a.ops.len() + w
}

/// The output buffer of node `id` when the nodes `order` are rendered.
fn buffer_index(order: &Vec<NodeId>, id: NodeId) -> (r: usize)
    requires
        order@.no_duplicates(),
        order@.len() < usize::MAX,
    ensures
        r == buffer_of(order@, id),
{
    let mut k: usize = 0;
    while k < order.len()
        invariant
            k <= order@.len(),
            order@.no_duplicates(),
            forall|j: int| 0 <= j < k ==> order@[j] != id,
        decreases order@.len() - k,
    {
        if order[k] == id {
            proof {
                assert(order@[k as int] == id);
                assert(order@.contains(id));
                let j = choose|j: int| 0 <= j < order@.len() && order@[j] == id;
                assert(0 <= j < order@.len() && order@[j] == id);
                if j != k {
                    assert(order@[j] == order@[k as int]);
                    assert(false);
                }
                assert(buffer_of(order@, id) == k + 1);
            }
            return k + 1;
        }
        k += 1;
    }
    0
}

/// The layout under construction.
struct Planner {
    ops: Vec<DspOp>,
    mixers: Vec<MixerOp>,
    procs: Vec<ProcessorRole>,
    buffers: usize,
    params: ParamMap,
}

impl Planner {
    spec fn view(&self) -> PlanState {
        PlanState {
            ops: self.ops@,
            mixers: self.mixers@.map_values(|m: MixerOp| m.view()),
            procs: self.procs@,
            buffers: self.buffers as nat,
            slots: self.params.spec_total(),
            params: self.params.spec_map(),
        }
    }

    /// The parameter map is well formed and every counter can still grow by `w`.
    spec fn room(&self, w: nat) -> bool {
        &&& self.params.wf()
        &&& self.buffers + w <= usize::MAX
        &&& self.params.spec_total() + w <= usize::MAX
        &&& self.procs@.len() + w <= usize::MAX
        &&& self.ops@.len() + w <= usize::MAX
    }

    /// Takes the next `pc` parameter slots for `nid` when `pc` is positive and
    /// returns the first (0 when there are none).
    fn take_slots(&mut self, nid: NodeId, base: usize, pc: usize) -> (start: usize)
        requires
            old(self).params.wf(),
            old(self).params.spec_total() + pc <= usize::MAX,
            base <= old(self).params.spec_total(),
        ensures
            final(self).params.wf(),
            start == (if pc > 0 { old(self).params.spec_total() } else { 0 }),
            final(self).params.spec_total() == old(self).params.spec_total() + pc,
            final(self).params.spec_map() == (if pc > 0 {
                spec_allocate_from(
                    old(self).params.spec_map(),
                    nid,
                    (old(self).params.spec_total() - base) as nat,
                    old(self).params.spec_total(),
                    pc as nat,
                )
            } else {
                old(self).params.spec_map()
            }),
            final(self).ops == old(self).ops,
            final(self).mixers == old(self).mixers,
            final(self).procs == old(self).procs,
            final(self).buffers == old(self).buffers,
    {
        if pc > 0 {
            let first = self.params.total_slots() - base;
            self.params.allocate_from(nid, first, pc)
        } else {
            0
        }
    }

    /// Lays out effects `effects` of node `nid` after an operation writing `current`.
    fn add_fx_chain(&mut self, nid: NodeId, base: usize, effects: &Vec<EffectKind>, current: usize, render_only: bool)
        requires
            base <= old(self).params.spec_total(),
            old(self).room(3 * effects@.len()),
        ensures
            final(self).params.wf(),
            final(self).view() == fx_chain(old(self).view(), nid, base as nat, effects@, 0, current as nat, render_only),
            grew_within(old(self).view(), final(self).view(), 3 * effects@.len()),
    {
        let ghost s0 = self.view();
        let ghost n = effects@.len();
        let mut cur = current;
        let mut i: usize = 0;
        while i < effects.len()
            invariant
                self.params.wf(),
                base <= self.params.spec_total(),
                i <= n,
                n == effects@.len(),
                s0.buffers + 3 * n <= usize::MAX,
                s0.slots + 3 * n <= usize::MAX,
                s0.procs.len() + 3 * n <= usize::MAX,
                s0.ops.len() + 3 * n <= usize::MAX,
                grew_within(s0, self.view(), 3 * i as nat),
                fx_chain(s0, nid, base as nat, effects@, 0, current as nat, render_only) == fx_chain(
                    self.view(),
                    nid,
                    base as nat,
                    effects@,
                    i as nat,
                    cur as nat,
                    render_only,
                ),
            decreases n - i,
        {
            let ghost s = self.view();
            let pc = effects[i].param_count();
            let last = i + 1 == effects.len();
            let proc_idx = self.procs.len();
            let start = self.take_slots(nid, base, pc);
            let out = if last {
                cur
            } else {
                let b = self.buffers;
                self.buffers = self.buffers + 1;
                b
            };
            self.ops.push(
                DspOp {
                    processor_idx: proc_idx,
                    input_buffer: cur,
                    output_buffer: out,
                    param_start: start,
                    param_count: pc,
                    mix_to_output: last && !render_only,
                    output_gain_slot: None,
                    node_id: nid,
                },
            );
            self.procs.push(ProcessorRole::ChainEffect(nid, i));
            proof {
                assert(self.view().mixers == s.mixers);
                assert(self.view() == PlanState {
                    ops: s.ops.push(
                        DspOp {
                            processor_idx: s.procs.len() as usize,
                            input_buffer: cur as usize,
                            output_buffer: out as usize,
                            param_start: (if pc > 0 { s.slots } else { 0 }) as usize,
                            param_count: pc as usize,
                            mix_to_output: last && !render_only,
                            output_gain_slot: None,
                            node_id: nid,
                        },
                    ),
                    mixers: s.mixers,
                    procs: s.procs.push(ProcessorRole::ChainEffect(nid, i as usize)),
                    buffers: if last { s.buffers } else { s.buffers + 1 },
                    slots: s.slots + effects@[i as int].spec_param_count(),
                    params: if pc > 0 {
                        spec_allocate_from(s.params, nid, (s.slots - base) as nat, s.slots, effects@[i as int].spec_param_count())
                    } else {
                        s.params
                    },
                });
            }
            cur = out;
            i += 1;
        }
        proof {
            assert(fx_chain(self.view(), nid, base as nat, effects@, i as nat, cur as nat, render_only) == self.view());
        }
    }

    /// Lays out the effect chain of `nid` after its source operation, which writes
    /// `current`; with no effects the source operation goes to the output
    /// (unless the node is render-only).
    fn add_finish_chain(&mut self, nid: NodeId, base: usize, effects: &Vec<EffectKind>, current: usize, render_only: bool)
        requires
            base <= old(self).params.spec_total(),
            old(self).room(3 * effects@.len()),
            old(self).ops@.len() > 0,
        ensures
            final(self).params.wf(),
            final(self).view() == finish_chain(old(self).view(), nid, base as nat, effects@, current as nat, render_only),
            grew_within(old(self).view(), final(self).view(), 3 * effects@.len()),
    {
        if effects.len() == 0 {
            if !render_only {
                let k = self.ops.len() - 1;
                let op = self.ops[k];
                self.ops.set(
                    k,
                    DspOp {
                        processor_idx: op.processor_idx,
                        input_buffer: op.input_buffer,
                        output_buffer: op.output_buffer,
                        param_start: op.param_start,
                        param_count: op.param_count,
                        mix_to_output: true,
                        output_gain_slot: op.output_gain_slot,
                        node_id: op.node_id,
                    },
                );
                proof {
                    assert(self.view() == to_output(old(self).view()));
                }
            }
        } else {
            self.add_fx_chain(nid, base, effects, current, render_only);
        }
    }

    /// Lays out a source operation of `nid` reading `input`, writing `out` and
    /// reading `pc` parameter slots, then the node's effect chain.
    fn add_source_chain(
        &mut self,
        nid: NodeId,
        input: usize,
        out: usize,
        pc: usize,
        effects: &Vec<EffectKind>,
        render_only: bool,
    )
        requires
            pc <= 4,
            old(self).room(4 + 3 * effects@.len()),
        ensures
            final(self).params.wf(),
            final(self).view() == source_chain(
                old(self).view(),
                nid,
                input as nat,
                out as nat,
                pc as nat,
                effects@,
                render_only,
            ),
            grew_within(old(self).view(), final(self).view(), 4 + 3 * effects@.len()),
    {
        let ghost s = self.view();
        let proc_idx = self.procs.len();
        let base = self.params.total_slots();
        let start = self.take_slots(nid, base, pc);
        self.ops.push(
            DspOp {
                processor_idx: proc_idx,
                input_buffer: input,
                output_buffer: out,
                param_start: start,
                param_count: pc,
                mix_to_output: false,
                output_gain_slot: None,
                node_id: nid,
            },
        );
        self.procs.push(ProcessorRole::Source(nid));
        let ghost s1 = self.view();
        proof {
            assert(s1.mixers == s.mixers);
            assert(s1 == PlanState {
                ops: s.ops.push(
                    DspOp {
                        processor_idx: s.procs.len() as usize,
                        input_buffer: input as usize,
                        output_buffer: out as usize,
                        param_start: (if pc > 0 { s.slots } else { 0 }) as usize,
                        param_count: pc as usize,
                        mix_to_output: false,
                        output_gain_slot: None,
                        node_id: nid,
                    },
                ),
                mixers: s.mixers,
                procs: s.procs.push(ProcessorRole::Source(nid)),
                buffers: s.buffers,
                slots: s.slots + pc as nat,
                params: if pc > 0 { spec_allocate(s.params, nid, s.slots, pc as nat) } else { s.params },
            });
        }
        self.add_finish_chain(nid, base, effects, out, render_only);
    }

    /// Lays out the effects of channel `ch` of mixer `nid` and returns their
    /// processor slots.
    fn add_channel_fx(&mut self, nid: NodeId, base: usize, ch: usize, effects: &Vec<EffectKind>) -> (r: Vec<usize>)
        requires
            base <= old(self).params.spec_total(),
            old(self).room(3 * effects@.len()),
        ensures
            final(self).params.wf(),
            final(self).view() == channel_fx(old(self).view(), nid, base as nat, ch as nat, effects@, 0),
            r@ == Seq::new(effects@.len(), |j: int| (old(self).procs@.len() + j) as usize),
            final(self).procs@.len() == old(self).procs@.len() + effects@.len(),
            final(self).ops@ == old(self).ops@,
            final(self).mixers@ == old(self).mixers@,
            final(self).buffers == old(self).buffers,
            grew_within(old(self).view(), final(self).view(), 3 * effects@.len()),
    {
        let ghost s0 = self.view();
        let ghost m0 = self.mixers@;
        let ghost n = effects@.len();
        let mut r: Vec<usize> = Vec::new();
        let mut j: usize = 0;
        while j < effects.len()
            invariant
                self.params.wf(),
                base <= self.params.spec_total(),
                j <= n,
                n == effects@.len(),
                s0.slots + 3 * n <= usize::MAX,
                s0.procs.len() + 3 * n <= usize::MAX,
                self.ops@ == s0.ops,
                self.mixers@ == m0,
                m0.map_values(|m: MixerOp| m.view()) == s0.mixers,
                self.buffers == s0.buffers,
                self.procs@.len() == s0.procs.len() + j,
                s0.slots <= self.params.spec_total() <= s0.slots + 3 * j,
                r@ == Seq::new(j as nat, |k: int| (s0.procs.len() + k) as usize),
                channel_fx(s0, nid, base as nat, ch as nat, effects@, 0) == channel_fx(self.view(), nid, base as nat, ch as nat, effects@, j as nat),
            decreases n - j,
        {
            let ghost s = self.view();
            let pc = effects[j].param_count();
            r.push(self.procs.len());
            let first = self.params.total_slots() - base;
            let _start = self.params.allocate_from(nid, first, pc);
            self.procs.push(ProcessorRole::ChannelEffect(nid, ch, j));
            proof {
                assert(self.view() == PlanState {
                    procs: s.procs.push(ProcessorRole::ChannelEffect(nid, ch, j)),
                    slots: s.slots + effects@[j as int].spec_param_count(),
                    params: spec_allocate_from(s.params, nid, (s.slots - base) as nat, s.slots, effects@[j as int].spec_param_count()),
                    ..s
                });
                assert(r@ =~= Seq::new((j + 1) as nat, |k: int| (s0.procs.len() + k) as usize));
            }
            j += 1;
        }
        proof {
            assert(channel_fx(self.view(), nid, base as nat, ch as nat, effects@, j as nat) == self.view());
        }
        r
    }

    /// Lays out the mixer node `nid` writing `out`, with scratch buffer `temp`.
    fn add_mixer(
        &mut self,
        nid: NodeId,
        channels: &Vec<MixerChannel>,
        order: &Vec<NodeId>,
        out: usize,
        temp: usize,
        render_only: bool,
    )
        requires
            old(self).room(1 + 3 * fx_before(channels@, channels@.len() as int)),
            order@.no_duplicates(),
            order@.len() < usize::MAX,
        ensures
            final(self).params.wf(),
            final(self).view() == mixer_layout(
                old(self).view(),
                nid,
                channels@,
                order@,
                out as nat,
                temp as nat,
                render_only,
            ),
            grew_within(old(self).view(), final(self).view(), 1 + 3 * fx_before(channels@, channels@.len() as int)),
    {
        let ghost s = self.view();
        let ghost chs = channels@;
        let ghost total = fx_before(chs, chs.len() as int);
        let p = self.procs.len();
        let base = self.params.total_slots();
        self.procs.push(ProcessorRole::Source(nid));
        let ghost s1 = self.view();
        proof {
            assert(s1 == PlanState { procs: s.procs.push(ProcessorRole::Source(nid)), ..s });
        }
        let mut inputs: Vec<usize> = Vec::new();
        let mut ch_fx: Vec<Vec<usize>> = Vec::new();
        let mut c: usize = 0;
        while c < channels.len()
            invariant
                self.params.wf(),
                base == s.slots,
                chs == channels@,
                total == fx_before(chs, chs.len() as int),
                order@.no_duplicates(),
                order@.len() < usize::MAX,
                c <= chs.len(),
                p == s.procs.len(),
                s1.procs.len() == p + 1,
                s.slots + 1 + 3 * total <= usize::MAX,
                s.procs.len() + 1 + 3 * total <= usize::MAX,
                s.ops.len() + 1 + 3 * total <= usize::MAX,
                s.buffers + 1 + 3 * total <= usize::MAX,
                self.procs@.len() == p + 1 + fx_before(chs, c as int),
                s.slots <= self.params.spec_total() <= s.slots + 3 * fx_before(chs, c as int),
                self.ops@ == s.ops,
                self.buffers == s.buffers,
                self.mixers@.map_values(|m: MixerOp| m.view()) == s.mixers,
                inputs@ == chs.take(c as int).map_values(|m: MixerChannel| buffer_of(order@, m.source) as usize),
                ch_fx@.map_values(|v: Vec<usize>| v@) == Seq::new(
                    c as nat,
                    |ch: int| Seq::new(chs[ch].effects@.len(), |j: int| (p + 1 + fx_before(chs, ch) + j) as usize),
                ),
                mixer_channels(s1, nid, base as nat, chs, 0) == mixer_channels(self.view(), nid, base as nat, chs, c as nat),
            decreases chs.len() - c,
        {
            proof {
                lemma_fx_before_mono(chs, c + 1, chs.len() as int);
                assert(fx_before(chs, c + 1) == fx_before(chs, c as int) + chs[c as int].effects@.len());
            }
            let ghost before_inputs = inputs@;
            let ghost before_fx = ch_fx@;
            let b = buffer_index(order, channels[c].source);
            inputs.push(b);
            let list = self.add_channel_fx(nid, base, c, &channels[c].effects);
            let ghost list_v = list@;
            ch_fx.push(list);
            proof {
                assert(inputs@ =~= chs.take(c + 1).map_values(|m: MixerChannel| buffer_of(order@, m.source) as usize));
                let want = Seq::new(
                    (c + 1) as nat,
                    |ch: int| Seq::new(chs[ch].effects@.len(), |j: int| (p + 1 + fx_before(chs, ch) + j) as usize),
                );
                let had = Seq::new(
                    c as nat,
                    |ch: int| Seq::new(chs[ch].effects@.len(), |j: int| (p + 1 + fx_before(chs, ch) + j) as usize),
                );
                assert(before_fx.map_values(|v: Vec<usize>| v@) == had);
                assert(before_fx.map_values(|v: Vec<usize>| v@).len() == before_fx.len());
                assert(before_fx.len() == c);
                assert(ch_fx@ == before_fx.push(ch_fx@.last()));
                let now = ch_fx@.map_values(|v: Vec<usize>| v@);
                let prev = before_fx.map_values(|v: Vec<usize>| v@);
                let pushed = had.push(list_v);
                assert(now =~= pushed) by {
                    assert forall|ch: int| 0 <= ch < c + 1 implies #[trigger] now[ch] == pushed[ch] by {
                        if ch < c {
                            assert(ch_fx@[ch] == before_fx[ch]);
                            assert(prev[ch] == had[ch]);
                        }
                    }
                }
                assert(list_v =~= Seq::new(
                    chs[c as int].effects@.len(),
                    |j: int| (p + 1 + fx_before(chs, c as int) + j) as usize,
                ));
                assert(had.push(list_v) =~= want);
            }
            c += 1;
        }
        proof {
            assert(chs.take(chs.len() as int) == chs);
            assert(mixer_channels(self.view(), nid, base as nat, chs, c as nat) == self.view());
        }
        let ghost s2 = self.view();
        self.mixers.push(
            MixerOp {
                processor_idx: p,
                output_buffer: out,
                input_buffers: inputs,
                channel_effects: ch_fx,
                temp_buffer: temp,
                param_start: 0,
                param_count: 0,
                mix_to_output: !render_only,
                output_gain_slot: None,
                node_id: nid,
            },
        );
        proof {
            let m = MixerView {
                processor_idx: p,
                output_buffer: out,
                input_buffers: chs.map_values(|m: MixerChannel| buffer_of(order@, m.source) as usize),
                channel_effects: Seq::new(
                    chs.len(),
                    |ch: int| Seq::new(chs[ch].effects@.len(), |j: int| (p + 1 + fx_before(chs, ch) + j) as usize),
                ),
                temp_buffer: temp,
                param_start: 0,
                param_count: 0,
                mix_to_output: !render_only,
                output_gain_slot: None,
                node_id: nid,
            };
            assert(self.mixers@.last().view() == m);
            assert(self.view().mixers =~= s2.mixers.push(m));
            assert(s2 == mixer_channels(s1, nid, base as nat, chs, 0));
            assert(self.view() == PlanState { mixers: s2.mixers.push(m), ..s2 });
            let pn = s.procs.len();
            let m2 = MixerView {
                processor_idx: pn as usize,
                output_buffer: out as nat as usize,
                input_buffers: chs.map_values(|m: MixerChannel| buffer_of(order@, m.source) as usize),
                channel_effects: Seq::new(
                    chs.len(),
                    |ch: int| Seq::new(chs[ch].effects@.len(), |j: int| (pn + 1 + fx_before(chs, ch) + j) as usize),
                ),
                temp_buffer: temp as nat as usize,
                param_start: 0,
                param_count: 0,
                mix_to_output: !render_only,
                output_gain_slot: None,
                node_id: nid,
            };
            assert(m.channel_effects =~~= m2.channel_effects);
            assert(m == m2);
        }
    }

    /// Lays out the active chain `c` in a layout rendering the nodes `order`, with
    /// scratch buffer `temp`.
    fn add_chain(&mut self, c: &ActiveChain, order: &Vec<NodeId>, temp: usize)
        requires
            old(self).room(chain_weight(*c)),
            order@.no_duplicates(),
            order@.len() < usize::MAX,
        ensures
            final(self).params.wf(),
            final(self).view() == node_step(old(self).view(), *c, order@, temp as nat),
            grew_within(old(self).view(), final(self).view(), chain_weight(*c)),
    {
        let nid = c.node_id;
        let out = buffer_index(order, nid);
        match &c.source {
            None => {},
            Some(SourceKind::Mixer { channels }) => {
                self.add_mixer(nid, channels, order, out, temp, c.render_only);
            },
            Some(SourceKind::Synth { .. }) => {
                self.add_source_chain(nid, 0, out, 4, &c.effects, c.render_only);
            },
            Some(SourceKind::LiveInput) => {
                self.add_source_chain(nid, 0, out, 0, &c.effects, c.render_only);
            },
            Some(SourceKind::FilePlayer) => {
                self.add_source_chain(nid, 0, out, 0, &c.effects, c.render_only);
            },
            Some(SourceKind::Sampler { input_source }) => {
                let input = match input_source {
                    Some(x) => buffer_index(order, *x),
                    None => 0,
                };
                self.add_source_chain(nid, input, out, 3, &c.effects, c.render_only);
            },
        }
    }
}

/// The nodes whose output chain `c` needs.
fn deps_of(c: &ActiveChain) -> (r: Vec<NodeId>)
    ensures
        r@ == chain_deps(*c),
{
    match &c.source {
        Some(SourceKind::Synth { fm_source }) => match fm_source {
            Some(f) => vec![*f],
            None => Vec::new(),
        },
        Some(SourceKind::Mixer { channels }) => {
            let mut r: Vec<NodeId> = Vec::new();
            let mut i: usize = 0;
            while i < channels.len()
                invariant
                    i <= channels@.len(),
                    r@ == channels@.take(i as int).map_values(|m: MixerChannel| m.source),
                decreases channels@.len() - i,
            {
                r.push(channels[i].source);
                proof {
                    assert(r@ =~= channels@.take(i + 1).map_values(|m: MixerChannel| m.source));
                }
                i += 1;
            }
            proof {
                assert(channels@.take(channels@.len() as int) == channels@);
            }
            r
        },
        Some(SourceKind::Sampler { input_source }) => match input_source {
            Some(x) => vec![*x],
            None => Vec::new(),
        },
        _ => Vec::new(),
    }
}

/// The position of the chain of node `id`.
fn chain_index(chains: &Vec<ActiveChain>, id: NodeId) -> (r: usize)
    requires
        exists|i: int| 0 <= i < chains@.len() && chains@[i].node_id == id,
    ensures
        r < chains@.len(),
        chains@[r as int].node_id == id,
{
    let mut i: usize = 0;
    while i < chains.len()
        invariant
            i <= chains@.len(),
            exists|j: int| i <= j < chains@.len() && chains@[j].node_id == id,
        decreases chains@.len() - i,
    {
        if chains[i].node_id == id {
            return i;
        }
        i += 1;
    }
    i
}

/// The layout of a compiled audio chain: the nodes in render order, the
/// operations, mixing operations and processor slots, the number of buffers,
/// and which parameter slots belong to which node.
pub struct DspPlan {
    pub order: Vec<NodeId>,
    pub ops: Vec<DspOp>,
    pub mixer_ops: Vec<MixerOp>,
    pub processors: Vec<ProcessorRole>,
    pub buffer_count: usize,
    pub param_map: ParamMap,
}

impl DspPlan {
    pub open spec fn view(&self) -> PlanState {
        PlanState {
            ops: self.ops@,
            mixers: self.mixer_ops@.map_values(|m: MixerOp| m.view()),
            procs: self.processors@,
            buffers: self.buffer_count as nat,
            slots: self.param_map.spec_total(),
            params: self.param_map.spec_map(),
        }
    }
}

/// Compiles the active chains into a flat layout: render order, buffers,
/// processors, operations and parameter slots (see `compiled_plan`).
pub fn compile_from_state(chains: &Vec<ActiveChain>) -> (plan: DspPlan)
    requires
        ids_unique(chains@),
        chains@.len() + 2 + weight_upto(chains@, chains@.len() as int) <= usize::MAX,
    ensures
        plan.param_map.wf(),
        plan.order@ == render_order(chains@),
        plan.view() == compiled_plan(chains@),
        slots_apart(plan.view().params, plan.view().slots),
{
    let n = chains.len();
    let ghost cs = chains@;
    let ghost w_total = weight_upto(cs, n as int);
    let mut ids: Vec<NodeId> = Vec::new();
    let mut deps: Vec<Vec<NodeId>> = Vec::new();
    let mut provides: Vec<bool> = Vec::new();
    let mut i: usize = 0;
    while i < n
        invariant
            n == cs.len(),
            cs == chains@,
            i <= n,
            ids@ == chain_ids(cs).take(i as int),
            deps@.map_values(|v: Vec<NodeId>| v@) == cs.map_values(|c: ActiveChain| chain_deps(c)).take(i as int),
            provides@ == Seq::new(i as nat, |k: int| true),
        decreases n - i,
    {
        let ghost before = deps@;
        ids.push(chains[i].node_id);
        let d = deps_of(&chains[i]);
        let ghost dv_i = d@;
        deps.push(d);
        provides.push(true);
        proof {
            assert(ids@ =~= chain_ids(cs).take(i + 1));
            let now = deps@.map_values(|v: Vec<NodeId>| v@);
            let want = cs.map_values(|c: ActiveChain| chain_deps(c)).take(i + 1);
            assert(before.map_values(|v: Vec<NodeId>| v@).len() == i);
            assert(before.len() == i);
            assert(deps@.len() == i + 1 && deps@[i as int]@ == dv_i);
            assert(now =~= want) by {
                assert forall|k: int| 0 <= k < i + 1 implies #[trigger] now[k] == want[k] by {
                    if k < i {
                        assert(deps@[k] == before[k]);
                        assert(before.map_values(|v: Vec<NodeId>| v@)[k] == now[k]);
                    }
                }
            }
            assert(provides@ =~= Seq::new((i + 1) as nat, |k: int| true));
        }
        i += 1;
    }
    let mut planner = Planner {
        ops: Vec::new(),
        mixers: Vec::new(),
        procs: Vec::new(),
        buffers: 0,
        params: ParamMap::new(),
    };
    if n == 0 {
        proof {
            assert(planner.view().mixers =~= Seq::<MixerView>::empty());
            let s = schedule(chain_ids(cs), cs.map_values(|c: ActiveChain| chain_deps(c)), Seq::new(0, |i: int| true), 6);
            law_schedule_respects_deps(chain_ids(cs), cs.map_values(|c: ActiveChain| chain_deps(c)), Seq::new(0, |i: int| true), 6);
            assert(at(chain_ids(cs), s.order + s.waiting) =~= Seq::<NodeId>::empty());
        }
        let plan = DspPlan {
            order: Vec::new(),
            ops: planner.ops,
            mixer_ops: planner.mixers,
            processors: planner.procs,
            buffer_count: 0,
            param_map: planner.params,
        };
        proof {
            law_map_slots_apart(plan.param_map);
        }
        return plan;
    }
    proof {
        assert(chain_ids(cs).take(n as int) == chain_ids(cs));
        assert(cs.map_values(|c: ActiveChain| chain_deps(c)).take(n as int) == cs.map_values(|c: ActiveChain| chain_deps(c)));
        assert(provides@ == Seq::new(cs.len(), |k: int| true));
    }
    let (first, rest) = dependency_schedule(&ids, &deps, &provides, 6);
    let ghost dv = deps@.map_values(|v: Vec<NodeId>| v@);
    let ghost sch = schedule(ids@, dv, provides@, 6);
    let ghost perm = sch.order + sch.waiting;
    proof {
        law_schedule_respects_deps(ids@, dv, provides@, 6);
    }
    let mut order = first;
    let mut j: usize = 0;
    while j < rest.len()
        invariant
            j <= rest@.len(),
            order@ == at(ids@, sch.order) + rest@.take(j as int),
        decreases rest@.len() - j,
    {
        order.push(rest[j]);
        proof {
            assert(order@ =~= at(ids@, sch.order) + rest@.take(j + 1));
        }
        j += 1;
    }
    proof {
        assert(rest@.take(rest@.len() as int) == rest@);
        assert(order@ =~= at(ids@, perm));
        assert(order@ == render_order(cs));
        assert(order@.no_duplicates()) by {
            assert forall|a: int, b: int| 0 <= a < order@.len() && 0 <= b < order@.len() && a != b implies order@[a]
                != order@[b] by {
                assert(order@[a] == ids@[perm[a]] && order@[b] == ids@[perm[b]]);
                assert(perm[a] != perm[b]);
                assert(ids@[perm[a]] == cs[perm[a]].node_id);
                assert(ids@[perm[b]] == cs[perm[b]].node_id);
                if perm[a] < perm[b] {
                    assert(cs[perm[a]].node_id != cs[perm[b]].node_id);
                } else {
                    assert(cs[perm[b]].node_id != cs[perm[a]].node_id);
                }
            }
        }
    }
    planner.buffers = n + 2;
    let temp = n + 1;
    let ghost init = planner.view();
    proof {
        assert(init.mixers =~= Seq::<MixerView>::empty());
    }
    let mut k: usize = 0;
    while k < order.len()
        invariant
            n == cs.len(),
            cs == chains@,
            ids_unique(cs),
            ids@ == chain_ids(cs),
            order@ == at(ids@, perm),
            order@.len() == n,
            order@.no_duplicates(),
            perm.len() == n,
            perm.no_duplicates(),
            forall|a: int| 0 <= a < perm.len() ==> 0 <= #[trigger] perm[a] < n,
            temp == n + 1,
            k <= n,
            w_total == weight_upto(cs, n as int),
            planner.room((w_total - pos_weight(cs, perm.take(k as int))) as nat),
            pos_weight(cs, perm.take(k as int)) <= w_total,
            plan_from(cs, order@, init, 0) == plan_from(cs, order@, planner.view(), k as nat),
        decreases n - k,
    {
        let id = order[k];
        proof {
            assert(ids@[perm[k as int]] == id);
            assert(cs[perm[k as int]].node_id == id);
        }
        let idx = chain_index(chains, id);
        proof {
            if idx != perm[k as int] {
                if (idx as int) < perm[k as int] {
                    assert(cs[idx as int].node_id != cs[perm[k as int]].node_id);
                } else {
                    assert(cs[perm[k as int]].node_id != cs[idx as int].node_id);
                }
            }
            let c = choose|i: int| 0 <= i < cs.len() && cs[i].node_id == id;
            if c != idx {
                if c < idx {
                    assert(cs[c].node_id != cs[idx as int].node_id);
                } else {
                    assert(cs[idx as int].node_id != cs[c].node_id);
                }
            }
            assert(chain_for(cs, id) == cs[idx as int]);
            assert(perm.take(k + 1).drop_last() == perm.take(k as int));
            assert(perm.take(k + 1).last() == perm[k as int]);
            assert(pos_weight(cs, perm.take(k + 1)) == pos_weight(cs, perm.take(k as int)) + chain_weight(cs[idx as int]));
            let pre = perm.take(k + 1);
            assert(pre.no_duplicates()) by {
                assert forall|a: int, b: int| 0 <= a < pre.len() && 0 <= b < pre.len() && a != b implies #[trigger] pre[a]
                    != #[trigger] pre[b] by {
                    assert(pre[a] == perm[a] && pre[b] == perm[b]);
                }
            }
            lemma_pos_weight_bound(cs, perm.take(k + 1), n as int);
        }
        planner.add_chain(&chains[idx], &order, temp);
        k += 1;
    }
    proof {
        assert(plan_from(cs, order@, planner.view(), k as nat) == planner.view());
        assert(init == PlanState {
            buffers: cs.len() + 2,
            ..PlanState {
                ops: Seq::empty(),
                mixers: Seq::empty(),
                procs: Seq::empty(),
                buffers: 0,
                slots: 0,
                params: Map::empty(),
            }
        });
    }
    let plan = DspPlan {
        order,
        ops: planner.ops,
        mixer_ops: planner.mixers,
        processors: planner.procs,
        buffer_count: planner.buffers,
        param_map: planner.params,
    };
    proof {
        law_map_slots_apart(plan.param_map);
    }
    plan
}

/// Every operation runs an existing processor between existing buffers.
pub open spec fn ops_in_range(ops: Seq<DspOp>, procs: nat, buffers: nat) -> bool {
    forall|i: int|
        0 <= i < ops.len() ==> (#[trigger] ops[i]).processor_idx < procs && ops[i].input_buffer < buffers
            && ops[i].output_buffer < buffers
}

/// Every mixing operation uses existing processors and buffers.
pub open spec fn mixers_in_range(mixers: Seq<MixerView>, procs: nat, buffers: nat) -> bool {
    forall|i: int|
        0 <= i < mixers.len() ==> {
            let m = #[trigger] mixers[i];
            &&& m.processor_idx < procs
            &&& m.output_buffer < buffers
            &&& m.temp_buffer < buffers
            &&& forall|c: int| 0 <= c < m.input_buffers.len() ==> #[trigger] m.input_buffers[c] < buffers
            &&& forall|c: int, j: int|
                0 <= c < m.channel_effects.len() && 0 <= j < m.channel_effects[c].len() ==> #[trigger] m.channel_effects[c][j]
                    < procs
        }
}

/// Every index a layout holds refers to a processor slot or buffer it has.
pub open spec fn plan_in_range(s: PlanState) -> bool {
    ops_in_range(s.ops, s.procs.len(), s.buffers) && mixers_in_range(s.mixers, s.procs.len(), s.buffers)
}

proof fn lemma_fx_chain_in_range(
    s: PlanState,
    nid: NodeId,
    base: nat,
    effects: Seq<EffectKind>,
    i: nat,
    current: nat,
    render_only: bool,
)
    requires
        plan_in_range(s),
        current < s.buffers,
    ensures
        plan_in_range(fx_chain(s, nid, base, effects, i, current, render_only)),
        fx_chain(s, nid, base, effects, i, current, render_only).buffers >= s.buffers,
    decreases effects.len() - i,
{
    if i < effects.len() {
        let pc = effects[i as int].spec_param_count();
        let last = i + 1 == effects.len();
        let out: nat = if last { current } else { s.buffers };
        let op = DspOp {
            processor_idx: s.procs.len() as usize,
            input_buffer: current as usize,
            output_buffer: out as usize,
            param_start: (if pc > 0 { s.slots } else { 0 }) as usize,
            param_count: pc as usize,
            mix_to_output: last && !render_only,
            output_gain_slot: None,
            node_id: nid,
        };
        let s2 = PlanState {
            ops: s.ops.push(op),
            mixers: s.mixers,
            procs: s.procs.push(ProcessorRole::ChainEffect(nid, i as usize)),
            buffers: if last { s.buffers } else { s.buffers + 1 },
            slots: s.slots + pc,
            params: if pc > 0 { spec_allocate_from(s.params, nid, (s.slots - base) as nat, s.slots, pc) } else { s.params },
        };
        assert(ops_in_range(s2.ops, s2.procs.len(), s2.buffers)) by {
            assert forall|k: int| 0 <= k < s2.ops.len() implies (#[trigger] s2.ops[k]).processor_idx < s2.procs.len()
                && s2.ops[k].input_buffer < s2.buffers && s2.ops[k].output_buffer < s2.buffers by {
                if k < s.ops.len() {
                    assert(s2.ops[k] == s.ops[k]);
                }
            }
        }
        assert(mixers_in_range(s2.mixers, s2.procs.len(), s2.buffers)) by {
            assert forall|k: int| 0 <= k < s2.mixers.len() implies {
                let m = #[trigger] s2.mixers[k];
                &&& m.processor_idx < s2.procs.len()
                &&& m.output_buffer < s2.buffers
                &&& m.temp_buffer < s2.buffers
                &&& forall|c: int| 0 <= c < m.input_buffers.len() ==> #[trigger] m.input_buffers[c] < s2.buffers
                &&& forall|c: int, j: int|
                    0 <= c < m.channel_effects.len() && 0 <= j < m.channel_effects[c].len()
                        ==> #[trigger] m.channel_effects[c][j] < s2.procs.len()
            } by {
                let m = s.mixers[k];
                assert(forall|c: int| 0 <= c < m.input_buffers.len() ==> #[trigger] m.input_buffers[c] < s.buffers);
                assert(forall|c: int, j: int|
                    0 <= c < m.channel_effects.len() && 0 <= j < m.channel_effects[c].len()
                        ==> #[trigger] m.channel_effects[c][j] < s.procs.len());
            }
        }
        lemma_fx_chain_in_range(s2, nid, base, effects, i + 1, out, render_only);
    }
}

/// Indices in range stay in range when there are more processors and buffers.
proof fn lemma_in_range_grow(s: PlanState, procs: nat, buffers: nat)
    requires
        plan_in_range(s),
        s.procs.len() <= procs,
        s.buffers <= buffers,
    ensures
        ops_in_range(s.ops, procs, buffers),
        mixers_in_range(s.mixers, procs, buffers),
{
    assert forall|k: int| 0 <= k < s.mixers.len() implies {
        let m = #[trigger] s.mixers[k];
        &&& m.processor_idx < procs
        &&& m.output_buffer < buffers
        &&& m.temp_buffer < buffers
        &&& forall|c: int| 0 <= c < m.input_buffers.len() ==> #[trigger] m.input_buffers[c] < buffers
        &&& forall|c: int, j: int|
            0 <= c < m.channel_effects.len() && 0 <= j < m.channel_effects[c].len() ==> #[trigger] m.channel_effects[c][j]
                < procs
    } by {
        let m = s.mixers[k];
        assert(forall|c: int| 0 <= c < m.input_buffers.len() ==> #[trigger] m.input_buffers[c] < s.buffers);
        assert(forall|c: int, j: int|
            0 <= c < m.channel_effects.len() && 0 <= j < m.channel_effects[c].len() ==> #[trigger] m.channel_effects[c][j]
                < s.procs.len());
    }
}

/// Channel effects add one processor slot each and touch nothing but processors
/// and parameter slots.
proof fn lemma_channel_fx_shape(s: PlanState, nid: NodeId, base: nat, ch: nat, effects: Seq<EffectKind>, j: nat)
    requires
        j <= effects.len(),
    ensures
        channel_fx(s, nid, base, ch, effects, j).ops == s.ops,
        channel_fx(s, nid, base, ch, effects, j).mixers == s.mixers,
        channel_fx(s, nid, base, ch, effects, j).buffers == s.buffers,
        channel_fx(s, nid, base, ch, effects, j).procs.len() == s.procs.len() + effects.len() - j,
    decreases effects.len() - j,
{
    if j < effects.len() {
        let pc = effects[j as int].spec_param_count();
        lemma_channel_fx_shape(
            PlanState {
                procs: s.procs.push(ProcessorRole::ChannelEffect(nid, ch as usize, j as usize)),
                slots: s.slots + pc,
                params: spec_allocate_from(s.params, nid, (s.slots - base) as nat, s.slots, pc),
                ..s
            },
            nid,
            base,
            ch,
            effects,
            j + 1,
        );
    }
}

/// The mixer channels from `c` on add one processor slot per channel effect and
/// touch nothing but processors and parameter slots.
proof fn lemma_mixer_channels_shape(s: PlanState, nid: NodeId, base: nat, channels: Seq<MixerChannel>, c: nat)
    requires
        c <= channels.len(),
    ensures
        mixer_channels(s, nid, base, channels, c).ops == s.ops,
        mixer_channels(s, nid, base, channels, c).mixers == s.mixers,
        mixer_channels(s, nid, base, channels, c).buffers == s.buffers,
        mixer_channels(s, nid, base, channels, c).procs.len() == s.procs.len() + fx_before(channels, channels.len() as int)
            - fx_before(channels, c as int),
    decreases channels.len() - c,
{
    if c < channels.len() {
        let s1 = channel_fx(s, nid, base, c, channels[c as int].effects@, 0);
        lemma_channel_fx_shape(s, nid, base, c, channels[c as int].effects@, 0);
        lemma_mixer_channels_shape(s1, nid, base, channels, c + 1);
        assert(fx_before(channels, (c + 1) as int) == fx_before(channels, c as int) + channels[c as int].effects@.len());
    }
}

/// The buffer of a node lies among the node buffers or is the silent one.
proof fn lemma_buffer_of_bound(order: Seq<NodeId>, id: NodeId)
    ensures
        buffer_of(order, id) <= order.len(),
{
    if order.contains(id) {
        let k = choose|k: int| 0 <= k < order.len() && order[k] == id;
    }
}

proof fn lemma_node_step_in_range(s: PlanState, c: ActiveChain, order: Seq<NodeId>, temp: nat)
    requires
        plan_in_range(s),
        order.len() < s.buffers,
        temp < s.buffers,
    ensures
        plan_in_range(node_step(s, c, order, temp)),
        node_step(s, c, order, temp).buffers >= s.buffers,
{
    let nid = c.node_id;
    let out = buffer_of(order, nid);
    lemma_buffer_of_bound(order, nid);
    match c.source {
        None => {},
        Some(SourceKind::Mixer { channels }) => {
            let chs = channels@;
            let p = s.procs.len();
            let s1 = PlanState { procs: s.procs.push(ProcessorRole::Source(nid)), ..s };
            let s2 = mixer_channels(s1, nid, s.slots, chs, 0);
            lemma_mixer_channels_shape(s1, nid, s.slots, chs, 0);
            lemma_in_range_grow(s, s2.procs.len(), s2.buffers);
            let m = MixerView {
                processor_idx: p as usize,
                output_buffer: out as usize,
                input_buffers: chs.map_values(|m: MixerChannel| buffer_of(order, m.source) as usize),
                channel_effects: Seq::new(
                    chs.len(),
                    |ch: int| Seq::new(chs[ch].effects@.len(), |j: int| (p + 1 + fx_before(chs, ch) + j) as usize),
                ),
                temp_buffer: temp as usize,
                param_start: 0,
                param_count: 0,
                mix_to_output: !c.render_only,
                output_gain_slot: None,
                node_id: nid,
            };
            let r = node_step(s, c, order, temp);
            assert(r == PlanState { mixers: s2.mixers.push(m), ..s2 });
            assert forall|ci: int| 0 <= ci < m.input_buffers.len() implies #[trigger] m.input_buffers[ci] < r.buffers by {
                lemma_buffer_of_bound(order, chs[ci].source);
            }
            assert forall|ci: int, j: int|
                0 <= ci < m.channel_effects.len() && 0 <= j < m.channel_effects[ci].len() implies #[trigger] m.channel_effects[ci][j]
                < r.procs.len() by {
                lemma_fx_before_mono(chs, ci + 1, chs.len() as int);
                assert(fx_before(chs, ci + 1) == fx_before(chs, ci) + chs[ci].effects@.len());
            }
            assert(mixers_in_range(r.mixers, r.procs.len(), r.buffers)) by {
                assert forall|k: int| 0 <= k < r.mixers.len() implies {
                    let mm = #[trigger] r.mixers[k];
                    &&& mm.processor_idx < r.procs.len()
                    &&& mm.output_buffer < r.buffers
                    &&& mm.temp_buffer < r.buffers
                    &&& forall|ci: int| 0 <= ci < mm.input_buffers.len() ==> #[trigger] mm.input_buffers[ci] < r.buffers
                    &&& forall|ci: int, j: int|
                        0 <= ci < mm.channel_effects.len() && 0 <= j < mm.channel_effects[ci].len()
                            ==> #[trigger] mm.channel_effects[ci][j] < r.procs.len()
                } by {
                    if k < s.mixers.len() {
                        assert(r.mixers[k] == s.mixers[k]);
                        let mm = s.mixers[k];
                        assert(mixers_in_range(s.mixers, r.procs.len(), r.buffers));
                        assert(forall|ci: int| 0 <= ci < mm.input_buffers.len() ==> #[trigger] mm.input_buffers[ci] < r.buffers);
                    } else {
                        assert(r.mixers[k] == m);
                    }
                }
            }
        },
        Some(SourceKind::Sampler { input_source }) => {
            let input = match input_source {
                Some(x) => buffer_of(order, x),
                None => 0,
            };
            if let Some(x) = input_source {
                lemma_buffer_of_bound(order, x);
            }
            lemma_source_chain_in_range(s, nid, input, out, 3, c.effects@, c.render_only);
        },
        Some(SourceKind::Synth { .. }) => {
            lemma_source_chain_in_range(s, nid, 0, out, 4, c.effects@, c.render_only);
        },
        Some(SourceKind::LiveInput) => {
            lemma_source_chain_in_range(s, nid, 0, out, 0, c.effects@, c.render_only);
        },
        Some(SourceKind::FilePlayer) => {
            lemma_source_chain_in_range(s, nid, 0, out, 0, c.effects@, c.render_only);
        },
    }
}

proof fn lemma_source_chain_in_range(
    s: PlanState,
    nid: NodeId,
    input: nat,
    out: nat,
    pc: nat,
    effects: Seq<EffectKind>,
    render_only: bool,
)
    requires
        plan_in_range(s),
        input < s.buffers,
        out < s.buffers,
    ensures
        plan_in_range(source_chain(s, nid, input, out, pc, effects, render_only)),
        source_chain(s, nid, input, out, pc, effects, render_only).buffers >= s.buffers,
{
    let op = DspOp {
        processor_idx: s.procs.len() as usize,
        input_buffer: input as usize,
        output_buffer: out as usize,
        param_start: (if pc > 0 { s.slots } else { 0 }) as usize,
        param_count: pc as usize,
        mix_to_output: false,
        output_gain_slot: None,
        node_id: nid,
    };
    let s1 = PlanState {
        ops: s.ops.push(op),
        mixers: s.mixers,
        procs: s.procs.push(ProcessorRole::Source(nid)),
        buffers: s.buffers,
        slots: s.slots + pc,
        params: if pc > 0 { spec_allocate(s.params, nid, s.slots, pc) } else { s.params },
    };
    lemma_in_range_grow(s, s1.procs.len(), s1.buffers);
    assert(ops_in_range(s1.ops, s1.procs.len(), s1.buffers)) by {
        assert forall|k: int| 0 <= k < s1.ops.len() implies (#[trigger] s1.ops[k]).processor_idx < s1.procs.len()
            && s1.ops[k].input_buffer < s1.buffers && s1.ops[k].output_buffer < s1.buffers by {
            if k < s.ops.len() {
                assert(s1.ops[k] == s.ops[k]);
            }
        }
    }
    assert(plan_in_range(s1));
    if effects.len() == 0 {
        if !render_only {
            let r = to_output(s1);
            assert(ops_in_range(r.ops, r.procs.len(), r.buffers)) by {
                assert forall|k: int| 0 <= k < r.ops.len() implies (#[trigger] r.ops[k]).processor_idx < r.procs.len()
                    && r.ops[k].input_buffer < r.buffers && r.ops[k].output_buffer < r.buffers by {
                    if k < s1.ops.len() - 1 {
                        assert(r.ops[k] == s1.ops[k]);
                    } else {
                        assert(s1.ops[k].processor_idx < s1.procs.len());
                    }
                }
            }
        }
    } else {
        lemma_fx_chain_in_range(s1, nid, s.slots, effects, 0, out, render_only);
    }
}

proof fn lemma_plan_from_in_range(chains: Seq<ActiveChain>, order: Seq<NodeId>, s: PlanState, k: nat)
    requires
        plan_in_range(s),
        order.len() + 1 < s.buffers,
    ensures
        plan_in_range(plan_from(chains, order, s, k)),
    decreases order.len() - k,
{
    if k < order.len() {
        let s1 = node_step(s, chain_for(chains, order[k as int]), order, order.len() + 1);
        lemma_node_step_in_range(s, chain_for(chains, order[k as int]), order, order.len() + 1);
        lemma_plan_from_in_range(chains, order, s1, k + 1);
    }
}

/// Every operation of a compiled layout runs an existing processor between
/// existing buffers, and every mixing operation reads and writes existing
/// buffers and runs existing processors.
pub proof fn law_plan_in_range(chains: Seq<ActiveChain>)
    ensures
        plan_in_range(compiled_plan(chains)),
{
    if chains.len() > 0 {
        let order = render_order(chains);
        let s = schedule(
            chain_ids(chains),
            chains.map_values(|c: ActiveChain| chain_deps(c)),
            Seq::new(chains.len(), |i: int| true),
            6,
        );
        law_schedule_respects_deps(
            chain_ids(chains),
            chains.map_values(|c: ActiveChain| chain_deps(c)),
            Seq::new(chains.len(), |i: int| true),
            6,
        );
        assert(order.len() == chains.len());
        let init = PlanState {
            ops: Seq::empty(),
            mixers: Seq::empty(),
            procs: Seq::empty(),
            buffers: chains.len() + 2,
            slots: 0,
            params: Map::empty(),
        };
        lemma_plan_from_in_range(chains, order, init, 0);
    }
}

/// The operations `b` extend `a`: `a` is a prefix of them and every added
/// operation belongs to node `nid`.
pub open spec fn ops_extend(a: Seq<DspOp>, b: Seq<DspOp>, nid: NodeId) -> bool {
    &&& a.len() <= b.len()
    &&& forall|m: int| 0 <= m < a.len() ==> #[trigger] b[m] == a[m]
    &&& forall|m: int| a.len() <= m < b.len() ==> (#[trigger] b[m]).node_id == nid
}

proof fn lemma_fx_chain_extends(
    s: PlanState,
    nid: NodeId,
    base: nat,
    effects: Seq<EffectKind>,
    i: nat,
    current: nat,
    render_only: bool,
)
    ensures
        ops_extend(s.ops, fx_chain(s, nid, base, effects, i, current, render_only).ops, nid),
    decreases effects.len() - i,
{
    if i < effects.len() {
        let pc = effects[i as int].spec_param_count();
        let last = i + 1 == effects.len();
        let out: nat = if last { current } else { s.buffers };
        let op = DspOp {
            processor_idx: s.procs.len() as usize,
            input_buffer: current as usize,
            output_buffer: out as usize,
            param_start: (if pc > 0 { s.slots } else { 0 }) as usize,
            param_count: pc as usize,
            mix_to_output: last && !render_only,
            output_gain_slot: None,
            node_id: nid,
        };
        let s2 = PlanState {
            ops: s.ops.push(op),
            mixers: s.mixers,
            procs: s.procs.push(ProcessorRole::ChainEffect(nid, i as usize)),
            buffers: if last { s.buffers } else { s.buffers + 1 },
            slots: s.slots + pc,
            params: if pc > 0 { spec_allocate_from(s.params, nid, (s.slots - base) as nat, s.slots, pc) } else { s.params },
        };
        lemma_fx_chain_extends(s2, nid, base, effects, i + 1, out, render_only);
        let r = fx_chain(s2, nid, base, effects, i + 1, out, render_only).ops;
        assert forall|m: int| 0 <= m < s.ops.len() implies #[trigger] r[m] == s.ops[m] by {
            assert(r[m] == s2.ops[m]);
        }
        assert forall|m: int| s.ops.len() <= m < r.len() implies (#[trigger] r[m]).node_id == nid by {
            if m == s.ops.len() {
                assert(r[m] == s2.ops[m]);
            }
        }
    }
}

proof fn lemma_node_step_extends(s: PlanState, c: ActiveChain, order: Seq<NodeId>, temp: nat)
    ensures
        ops_extend(s.ops, node_step(s, c, order, temp).ops, c.node_id),
{
    let nid = c.node_id;
    let out = buffer_of(order, nid);
    match c.source {
        None => {},
        Some(SourceKind::Mixer { channels }) => {
            let s1 = PlanState { procs: s.procs.push(ProcessorRole::Source(nid)), ..s };
            lemma_mixer_channels_shape(s1, nid, s.slots, channels@, 0);
        },
        _ => {
            let (input, pc): (nat, nat) = match c.source {
                Some(SourceKind::Synth { .. }) => (0, 4),
                Some(SourceKind::Sampler { input_source }) => (
                    match input_source {
                        Some(x) => buffer_of(order, x),
                        None => 0,
                    },
                    3,
                ),
                _ => (0, 0),
            };
            lemma_source_chain_extends(s, nid, input, out, pc, c.effects@, c.render_only);
        },
    }
}

proof fn lemma_source_chain_extends(
    s: PlanState,
    nid: NodeId,
    input: nat,
    out: nat,
    pc: nat,
    effects: Seq<EffectKind>,
    render_only: bool,
)
    ensures
        ops_extend(s.ops, source_chain(s, nid, input, out, pc, effects, render_only).ops, nid),
{
    let op = DspOp {
        processor_idx: s.procs.len() as usize,
        input_buffer: input as usize,
        output_buffer: out as usize,
        param_start: (if pc > 0 { s.slots } else { 0 }) as usize,
        param_count: pc as usize,
        mix_to_output: false,
        output_gain_slot: None,
        node_id: nid,
    };
    let s1 = PlanState {
        ops: s.ops.push(op),
        mixers: s.mixers,
        procs: s.procs.push(ProcessorRole::Source(nid)),
        buffers: s.buffers,
        slots: s.slots + pc,
        params: if pc > 0 { spec_allocate(s.params, nid, s.slots, pc) } else { s.params },
    };
    let r = source_chain(s, nid, input, out, pc, effects, render_only).ops;
    if effects.len() == 0 {
        if !render_only {
            assert forall|m: int| 0 <= m < s.ops.len() implies #[trigger] r[m] == s.ops[m] by {
                assert(r[m] == s1.ops[m]);
            }
        } else {
            assert forall|m: int| 0 <= m < s.ops.len() implies #[trigger] r[m] == s.ops[m] by {
                assert(r[m] == s1.ops[m]);
            }
        }
    } else {
        lemma_fx_chain_extends(s1, nid, s.slots, effects, 0, out, render_only);
        assert forall|m: int| 0 <= m < s.ops.len() implies #[trigger] r[m] == s.ops[m] by {
            assert(r[m] == s1.ops[m]);
        }
        assert forall|m: int| s.ops.len() <= m < r.len() implies (#[trigger] r[m]).node_id == nid by {
            if m == s.ops.len() {
                assert(r[m] == s1.ops[m]);
            }
        }
    }
}

/// The position of node `id` in `order`.
pub open spec fn order_pos(order: Seq<NodeId>, id: NodeId) -> int {
    choose|k: int| 0 <= k < order.len() && order[k] == id
}

/// The operations belong to nodes among the first `k` of `order`, grouped by
/// node in the order of `order`.
pub open spec fn ops_in_order(ops: Seq<DspOp>, order: Seq<NodeId>, k: int) -> bool {
    &&& forall|i: int| 0 <= i < ops.len() ==> 0 <= #[trigger] order_pos(order, ops[i].node_id) < k && order[order_pos(
        order,
        ops[i].node_id,
    )] == ops[i].node_id
    &&& forall|i: int, j: int|
        0 <= i < j < ops.len() ==> order_pos(order, #[trigger] ops[i].node_id) <= order_pos(order, #[trigger] ops[j].node_id)
}

proof fn lemma_plan_from_order(chains: Seq<ActiveChain>, order: Seq<NodeId>, s: PlanState, k: nat)
    requires
        order.no_duplicates(),
        k <= order.len(),
        forall|j: int| #![trigger order[j]] 0 <= j < order.len() ==> exists|i: int|
            0 <= i < chains.len() && #[trigger] chains[i].node_id == order[j],
        ops_in_order(s.ops, order, k as int),
    ensures
        ops_in_order(plan_from(chains, order, s, k).ops, order, order.len() as int),
    decreases order.len() - k,
{
    if k < order.len() {
        let id = order[k as int];
        let c = chain_for(chains, id);
        assert(exists|i: int| 0 <= i < chains.len() && #[trigger] chains[i].node_id == order[k as int]);
        assert(c.node_id == id);
        let s1 = node_step(s, c, order, order.len() + 1);
        lemma_node_step_extends(s, c, order, order.len() + 1);
        let pk = order_pos(order, id);
        assert(0 <= pk < order.len() && order[pk] == id) by {
            assert(order[k as int] == id);
        }
        assert(pk == k) by {
            if pk != k {
                assert(order[pk] == order[k as int]);
            }
        }
        assert(ops_in_order(s1.ops, order, (k + 1) as int)) by {
            assert forall|i: int, j: int| 0 <= i < j < s1.ops.len() implies order_pos(order, #[trigger] s1.ops[i].node_id)
                <= order_pos(order, #[trigger] s1.ops[j].node_id) by {
                if j < s.ops.len() {
                    assert(s1.ops[i] == s.ops[i] && s1.ops[j] == s.ops[j]);
                } else if i < s.ops.len() {
                    assert(s1.ops[i] == s.ops[i]);
                    assert(s1.ops[j].node_id == id);
                    assert(0 <= order_pos(order, s.ops[i].node_id) < k);
                } else {
                    assert(s1.ops[i].node_id == id && s1.ops[j].node_id == id);
                }
            }
            assert forall|i: int| 0 <= i < s1.ops.len() implies 0 <= #[trigger] order_pos(order, s1.ops[i].node_id) < k + 1
                && order[order_pos(order, s1.ops[i].node_id)] == s1.ops[i].node_id by {
                if i < s.ops.len() {
                    assert(s1.ops[i] == s.ops[i]);
                    assert(0 <= order_pos(order, s.ops[i].node_id) < k);
                } else {
                    assert(s1.ops[i].node_id == id);
                }
            }
        }
        lemma_plan_from_order(chains, order, s1, k + 1);
    }
}

/// The operations of a compiled layout are grouped by node in render order: an
/// operation of a node rendered earlier never follows one of a node rendered
/// later.
pub proof fn law_ops_in_render_order(chains: Seq<ActiveChain>)
    requires
        ids_unique(chains),
    ensures
        ops_in_order(compiled_plan(chains).ops, render_order(chains), render_order(chains).len() as int),
{
    if chains.len() > 0 {
        let ids = chain_ids(chains);
        let deps = chains.map_values(|c: ActiveChain| chain_deps(c));
        let provides = Seq::new(chains.len(), |i: int| true);
        let s = schedule(ids, deps, provides, 6);
        law_schedule_respects_deps(ids, deps, provides, 6);
        let perm = s.order + s.waiting;
        let order = render_order(chains);
        assert(order == at(ids, perm));
        assert forall|j: int| #![trigger order[j]] 0 <= j < order.len() implies exists|i: int|
            0 <= i < chains.len() && #[trigger] chains[i].node_id == order[j] by {
            assert(order[j] == ids[perm[j]]);
            assert(chains[perm[j]].node_id == order[j]);
        }
        assert(order.no_duplicates()) by {
            assert forall|a: int, b: int| 0 <= a < order.len() && 0 <= b < order.len() && a != b implies order[a]
                != order[b] by {
                assert(order[a] == chains[perm[a]].node_id && order[b] == chains[perm[b]].node_id);
                assert(perm[a] != perm[b]);
                if perm[a] < perm[b] {
                    assert(chains[perm[a]].node_id != chains[perm[b]].node_id);
                } else {
                    assert(chains[perm[b]].node_id != chains[perm[a]].node_id);
                }
            }
        }
        let init = PlanState {
            ops: Seq::empty(),
            mixers: Seq::empty(),
            procs: Seq::empty(),
            buffers: chains.len() + 2,
            slots: 0,
            params: Map::empty(),
        };
        lemma_plan_from_order(chains, order, init, 0);
    }
}


/// Whether some parameter of node `n` holds slot `slot`.
pub open spec fn owned_slot(m: Map<(NodeId, u16), usize>, n: NodeId, slot: int) -> bool {
    exists|j: u16| #[trigger] m.contains_key((n, j)) && m[(n, j)] == slot
}

/// Every parameter slot an operation reads is held by a parameter of the
/// operation's own node.
pub open spec fn ops_owned(m: Map<(NodeId, u16), usize>, ops: Seq<DspOp>) -> bool {
    forall|k: int, slot: int|
        0 <= k < ops.len() && ops[k].param_start <= slot < ops[k].param_start + ops[k].param_count
            ==> #[trigger] owned_slot(m, ops[k].node_id, slot)
}

/// The parameters of each node hold consecutive slots in index order: parameter
/// `j` of a node holds the node's first slot plus `j`.
pub open spec fn params_numbered(m: Map<(NodeId, u16), usize>) -> bool {
    forall|k1: (NodeId, u16), k2: (NodeId, u16)|
        #[trigger] m.contains_key(k1) && #[trigger] m.contains_key(k2) && k1.0 == k2.0 ==> m[k1] - k1.1 == m[k2] - k2.1
}

/// Parameter `j` of node `nid` holds slot `base + j`, below `slots`.
spec fn node_keys(m: Map<(NodeId, u16), usize>, nid: NodeId, base: nat, slots: nat) -> bool {
    forall|j: u16| #[trigger] m.contains_key((nid, j)) ==> m[(nid, j)] == base + j && m[(nid, j)] < slots
}

/// Every parameter of `a` keeps its slot in `b`.
spec fn grows(a: Map<(NodeId, u16), usize>, b: Map<(NodeId, u16), usize>) -> bool {
    forall|k: (NodeId, u16)| #[trigger] a.contains_key(k) ==> b.contains_key(k) && b[k] == a[k]
}

/// Every parameter of `b` not in `a` belongs to node `nid`.
spec fn new_keys_of(a: Map<(NodeId, u16), usize>, b: Map<(NodeId, u16), usize>, nid: NodeId) -> bool {
    forall|k: (NodeId, u16)| #[trigger] b.contains_key(k) ==> a.contains_key(k) || k.0 == nid
}

proof fn lemma_alloc_facts(m: Map<(NodeId, u16), usize>, nid: NodeId, first: nat, start: nat, count: nat)
    requires
        first + count <= 65536,
        start + count <= usize::MAX,
    ensures
        ({
            let r = spec_allocate_from(m, nid, first, start, count);
            &&& forall|k: (NodeId, u16)| #[trigger] r.contains_key(k) == (m.contains_key(k) || (k.0 == nid && first <= k.1 < first + count))
            &&& forall|k: (NodeId, u16)| #[trigger] r.contains_key(k) && k.0 == nid && first <= k.1 < first + count ==> r[k] == start + k.1 - first
            &&& forall|k: (NodeId, u16)| #[trigger] r.contains_key(k) && !(k.0 == nid && first <= k.1 < first + count) ==> r[k] == m[k]
        }),
    decreases count,
{
    if count > 0 {
        let c1 = (count - 1) as nat;
        lemma_alloc_facts(m, nid, first, start, c1);
        let prev = spec_allocate_from(m, nid, first, start, c1);
        let r = spec_allocate_from(m, nid, first, start, count);
        assert((first + c1) % 65536 == first + c1);
        let key = (nid, ((first + c1) % 65536) as u16);
        assert(key.1 == first + c1);
        assert(r == prev.insert(key, (start + c1) as usize));
        assert forall|k: (NodeId, u16)| #[trigger] r.contains_key(k) == (m.contains_key(k) || (k.0 == nid && first <= k.1
            < first + count)) by {
            if k.0 == nid && k.1 == first + c1 {
                assert(k == key);
            }
        }
        assert forall|k: (NodeId, u16)| #[trigger] r.contains_key(k) && k.0 == nid && first <= k.1 < first + count implies r[k]
            == start + k.1 - first by {
            if k.1 == first + c1 {
                assert(k == key);
            } else {
                assert(k != key);
                assert(prev.contains_key(k));
            }
        }
        assert forall|k: (NodeId, u16)| #[trigger] r.contains_key(k) && !(k.0 == nid && first <= k.1 < first + count) implies r[k]
            == m[k] by {
            assert(k != key);
            assert(prev.contains_key(k));
        }
    }
}

proof fn lemma_push_owned(m: Map<(NodeId, u16), usize>, ops: Seq<DspOp>, op: DspOp)
    requires
        ops_owned(m, ops),
        forall|slot: int| op.param_start <= slot < op.param_start + op.param_count ==> owned_slot(m, op.node_id, slot),
    ensures
        ops_owned(m, ops.push(op)),
{
    let o = ops.push(op);
    assert forall|k: int, slot: int|
        0 <= k < o.len() && o[k].param_start <= slot < o[k].param_start + o[k].param_count implies #[trigger] owned_slot(
        m,
        o[k].node_id,
        slot,
    ) by {
        if k < ops.len() {
            assert(o[k] == ops[k]);
        }
    }
}

proof fn lemma_grown_owned(a: Map<(NodeId, u16), usize>, b: Map<(NodeId, u16), usize>, ops: Seq<DspOp>)
    requires
        ops_owned(a, ops),
        grows(a, b),
    ensures
        ops_owned(b, ops),
{
    assert forall|k: int, slot: int|
        0 <= k < ops.len() && ops[k].param_start <= slot < ops[k].param_start + ops[k].param_count implies #[trigger] owned_slot(
        b,
        ops[k].node_id,
        slot,
    ) by {
        assert(owned_slot(a, ops[k].node_id, slot));
        let j = choose|j: u16| #[trigger] a.contains_key((ops[k].node_id, j)) && a[(ops[k].node_id, j)] == slot;
        assert(b.contains_key((ops[k].node_id, j)));
    }
}

/// Giving node `nid` the next `pc` parameters from its index `slots - base` on.
proof fn lemma_alloc_step(m: Map<(NodeId, u16), usize>, nid: NodeId, base: nat, slots: nat, pc: nat)
    requires
        node_keys(m, nid, base, slots),
        params_numbered(m),
        base <= slots,
        slots - base + pc <= 65536,
        slots + pc <= usize::MAX,
    ensures
        ({
            let m2 = spec_allocate_from(m, nid, (slots - base) as nat, slots, pc);
            &&& node_keys(m2, nid, base, slots + pc)
            &&& params_numbered(m2)
            &&& grows(m, m2)
            &&& new_keys_of(m, m2, nid)
            &&& forall|slot: int| slots <= slot < slots + pc ==> owned_slot(m2, nid, slot)
        }),
{
    let first = (slots - base) as nat;
    let m2 = spec_allocate_from(m, nid, first, slots, pc);
    lemma_alloc_facts(m, nid, first, slots, pc);
    assert forall|k: (NodeId, u16)| #[trigger] m.contains_key(k) implies m2.contains_key(k) && m2[k] == m[k] by {
        if k.0 == nid && first <= k.1 {
            assert(m.contains_key((nid, k.1)));
            assert(m[(nid, k.1)] < slots);
        }
    }
    assert forall|j: u16| #[trigger] m2.contains_key((nid, j)) implies m2[(nid, j)] == base + j && m2[(nid, j)] < slots + pc by {
        if !(first <= j < first + pc) {
            assert(m.contains_key((nid, j)));
        }
    }
    assert forall|k1: (NodeId, u16), k2: (NodeId, u16)|
        #[trigger] m2.contains_key(k1) && #[trigger] m2.contains_key(k2) && k1.0 == k2.0 implies m2[k1] - k1.1 == m2[k2] - k2.1 by {
        if k1.0 == nid {
            assert(m2.contains_key((nid, k1.1)) && m2.contains_key((nid, k2.1)));
        } else {
            assert(m.contains_key(k1) && m.contains_key(k2));
        }
    }
    assert forall|slot: int| slots <= slot < slots + pc implies owned_slot(m2, nid, slot) by {
        let j = (first + (slot - slots)) as u16;
        assert(j == first + (slot - slots));
        assert(m2.contains_key((nid, j)));
    }
}

proof fn lemma_fx_owned(
    s: PlanState,
    nid: NodeId,
    base: nat,
    effects: Seq<EffectKind>,
    i: nat,
    current: nat,
    render_only: bool,
)
    requires
        i <= effects.len(),
        node_keys(s.params, nid, base, s.slots),
        ops_owned(s.params, s.ops),
        params_numbered(s.params),
        base <= s.slots,
        s.slots - base + 3 * (effects.len() - i) <= 65536,
        s.slots + 3 * (effects.len() - i) <= usize::MAX,
    ensures
        ({
            let r = fx_chain(s, nid, base, effects, i, current, render_only);
            &&& node_keys(r.params, nid, base, r.slots)
            &&& ops_owned(r.params, r.ops)
            &&& params_numbered(r.params)
            &&& s.slots <= r.slots <= s.slots + 3 * (effects.len() - i)
            &&& grows(s.params, r.params)
            &&& new_keys_of(s.params, r.params, nid)
        }),
    decreases effects.len() - i,
{
    if i < effects.len() {
        let pc = effects[i as int].spec_param_count();
        let last = i + 1 == effects.len();
        let out: nat = if last { current } else { s.buffers };
        let op = DspOp {
            processor_idx: s.procs.len() as usize,
            input_buffer: current as usize,
            output_buffer: out as usize,
            param_start: (if pc > 0 { s.slots } else { 0 }) as usize,
            param_count: pc as usize,
            mix_to_output: last && !render_only,
            output_gain_slot: None,
            node_id: nid,
        };
        let m2 = if pc > 0 { spec_allocate_from(s.params, nid, (s.slots - base) as nat, s.slots, pc) } else { s.params };
        let s2 = PlanState {
            ops: s.ops.push(op),
            mixers: s.mixers,
            procs: s.procs.push(ProcessorRole::ChainEffect(nid, i as usize)),
            buffers: if last { s.buffers } else { s.buffers + 1 },
            slots: s.slots + pc,
            params: m2,
        };
        if pc > 0 {
            lemma_alloc_step(s.params, nid, base, s.slots, pc);
            lemma_grown_owned(s.params, m2, s.ops);
        }
        lemma_push_owned(m2, s.ops, op);
        lemma_fx_owned(s2, nid, base, effects, i + 1, out, render_only);
    }
}

proof fn lemma_channel_owned(s: PlanState, nid: NodeId, base: nat, ch: nat, effects: Seq<EffectKind>, j: nat)
    requires
        j <= effects.len(),
        node_keys(s.params, nid, base, s.slots),
        ops_owned(s.params, s.ops),
        params_numbered(s.params),
        base <= s.slots,
        s.slots - base + 3 * (effects.len() - j) <= 65536,
        s.slots + 3 * (effects.len() - j) <= usize::MAX,
    ensures
        ({
            let r = channel_fx(s, nid, base, ch, effects, j);
            &&& node_keys(r.params, nid, base, r.slots)
            &&& ops_owned(r.params, r.ops)
            &&& params_numbered(r.params)
            &&& s.slots <= r.slots <= s.slots + 3 * (effects.len() - j)
            &&& grows(s.params, r.params)
            &&& new_keys_of(s.params, r.params, nid)
        }),
    decreases effects.len() - j,
{
    if j < effects.len() {
        let pc = effects[j as int].spec_param_count();
        let m2 = spec_allocate_from(s.params, nid, (s.slots - base) as nat, s.slots, pc);
        let s2 = PlanState {
            procs: s.procs.push(ProcessorRole::ChannelEffect(nid, ch as usize, j as usize)),
            slots: s.slots + pc,
            params: m2,
            ..s
        };
        lemma_alloc_step(s.params, nid, base, s.slots, pc);
        lemma_grown_owned(s.params, m2, s.ops);
        lemma_channel_owned(s2, nid, base, ch, effects, j + 1);
    }
}

proof fn lemma_mixer_channels_owned(s: PlanState, nid: NodeId, base: nat, channels: Seq<MixerChannel>, c: nat)
    requires
        c <= channels.len(),
        node_keys(s.params, nid, base, s.slots),
        ops_owned(s.params, s.ops),
        params_numbered(s.params),
        base <= s.slots,
        s.slots - base + 3 * (fx_before(channels, channels.len() as int) - fx_before(channels, c as int)) <= 65536,
        s.slots + 3 * (fx_before(channels, channels.len() as int) - fx_before(channels, c as int)) <= usize::MAX,
    ensures
        ({
            let r = mixer_channels(s, nid, base, channels, c);
            &&& s.slots <= r.slots <= s.slots + 3 * (fx_before(channels, channels.len() as int) - fx_before(channels, c as int))
            &&& ops_owned(r.params, r.ops)
            &&& params_numbered(r.params)
            &&& grows(s.params, r.params)
            &&& new_keys_of(s.params, r.params, nid)
        }),
    decreases channels.len() - c,
{
    if c < channels.len() {
        lemma_fx_before_mono(channels, (c + 1) as int, channels.len() as int);
        assert(fx_before(channels, (c + 1) as int) == fx_before(channels, c as int) + channels[c as int].effects@.len());
        let s1 = channel_fx(s, nid, base, c, channels[c as int].effects@, 0);
        lemma_channel_owned(s, nid, base, c, channels[c as int].effects@, 0);
        lemma_mixer_channels_owned(s1, nid, base, channels, c + 1);
    }
}

proof fn lemma_finish_owned(
    s: PlanState,
    nid: NodeId,
    base: nat,
    effects: Seq<EffectKind>,
    current: nat,
    render_only: bool,
)
    requires
        s.ops.len() > 0,
        node_keys(s.params, nid, base, s.slots),
        ops_owned(s.params, s.ops),
        params_numbered(s.params),
        base <= s.slots,
        s.slots - base + 3 * effects.len() <= 65536,
        s.slots + 3 * effects.len() <= usize::MAX,
    ensures
        ({
            let r = finish_chain(s, nid, base, effects, current, render_only);
            &&& s.slots <= r.slots <= s.slots + 3 * effects.len()
            &&& ops_owned(r.params, r.ops)
            &&& params_numbered(r.params)
            &&& grows(s.params, r.params)
            &&& new_keys_of(s.params, r.params, nid)
        }),
{
    if effects.len() == 0 {
        if !render_only {
            let r = to_output(s);
            assert forall|k: int, slot: int|
                0 <= k < r.ops.len() && r.ops[k].param_start <= slot < r.ops[k].param_start + r.ops[k].param_count
                    implies #[trigger] owned_slot(r.params, r.ops[k].node_id, slot) by {
                assert(r.ops[k].param_start == s.ops[k].param_start && r.ops[k].param_count == s.ops[k].param_count
                    && r.ops[k].node_id == s.ops[k].node_id);
            }
        }
    } else {
        lemma_fx_owned(s, nid, base, effects, 0, current, render_only);
    }
}

proof fn lemma_node_step_owned(s: PlanState, c: ActiveChain, order: Seq<NodeId>, temp: nat)
    requires
        forall|j: u16| !(#[trigger] s.params.contains_key((c.node_id, j))),
        ops_owned(s.params, s.ops),
        params_numbered(s.params),
        chain_weight(c) <= 65536,
        s.slots + chain_weight(c) <= usize::MAX,
    ensures
        ({
            let r = node_step(s, c, order, temp);
            &&& s.slots <= r.slots <= s.slots + chain_weight(c)
            &&& ops_owned(r.params, r.ops)
            &&& params_numbered(r.params)
            &&& grows(s.params, r.params)
            &&& new_keys_of(s.params, r.params, c.node_id)
        }),
{
    let nid = c.node_id;
    let out = buffer_of(order, nid);
    assert(node_keys(s.params, nid, s.slots, s.slots));
    match c.source {
        None => {},
        Some(SourceKind::Mixer { channels }) => {
            let s1 = PlanState { procs: s.procs.push(ProcessorRole::Source(nid)), ..s };
            lemma_fx_before_mono(channels@, 0, channels@.len() as int);
            lemma_mixer_channels_owned(s1, nid, s.slots, channels@, 0);
        },
        _ => {
            let (input, pc): (nat, nat) = match c.source {
                Some(SourceKind::Synth { .. }) => (0, 4),
                Some(SourceKind::Sampler { input_source }) => (
                    match input_source {
                        Some(x) => buffer_of(order, x),
                        None => 0,
                    },
                    3,
                ),
                _ => (0, 0),
            };
            lemma_source_owned(s, nid, input, out, pc, c.effects@, c.render_only);
        },
    }
}

proof fn lemma_source_owned(
    s: PlanState,
    nid: NodeId,
    input: nat,
    out: nat,
    pc: nat,
    effects: Seq<EffectKind>,
    render_only: bool,
)
    requires
        node_keys(s.params, nid, s.slots, s.slots),
        ops_owned(s.params, s.ops),
        params_numbered(s.params),
        pc <= 4,
        pc + 3 * effects.len() <= 65536,
        s.slots + pc + 3 * effects.len() <= usize::MAX,
    ensures
        ({
            let r = source_chain(s, nid, input, out, pc, effects, render_only);
            &&& s.slots <= r.slots <= s.slots + pc + 3 * effects.len()
            &&& ops_owned(r.params, r.ops)
            &&& params_numbered(r.params)
            &&& grows(s.params, r.params)
            &&& new_keys_of(s.params, r.params, nid)
        }),
{
    let op = DspOp {
        processor_idx: s.procs.len() as usize,
        input_buffer: input as usize,
        output_buffer: out as usize,
        param_start: (if pc > 0 { s.slots } else { 0 }) as usize,
        param_count: pc as usize,
        mix_to_output: false,
        output_gain_slot: None,
        node_id: nid,
    };
    let m2 = if pc > 0 { spec_allocate(s.params, nid, s.slots, pc) } else { s.params };
    let s2 = PlanState {
        ops: s.ops.push(op),
        mixers: s.mixers,
        procs: s.procs.push(ProcessorRole::Source(nid)),
        buffers: s.buffers,
        slots: s.slots + pc,
        params: m2,
    };
    if pc > 0 {
        assert((s.slots - s.slots) as nat == 0);
        lemma_alloc_step(s.params, nid, s.slots, s.slots, pc);
        lemma_grown_owned(s.params, m2, s.ops);
    }
    lemma_push_owned(m2, s.ops, op);
    lemma_finish_owned(s2, nid, s.slots, effects, out, render_only);
}

proof fn lemma_plan_from_owned(chains: Seq<ActiveChain>, order: Seq<NodeId>, s: PlanState, k: nat)
    requires
        order.no_duplicates(),
        k <= order.len(),
        forall|j: int| #![trigger order[j]] 0 <= j < order.len() ==> exists|i: int|
            0 <= i < chains.len() && #[trigger] chains[i].node_id == order[j],
        forall|i: int| 0 <= i < chains.len() ==> chain_weight(#[trigger] chains[i]) <= 65536,
        s.slots + (order.len() - k) * 65536 <= usize::MAX,
        ops_owned(s.params, s.ops),
        params_numbered(s.params),
        forall|key: (NodeId, u16)| #[trigger] s.params.contains_key(key) ==> order.take(k as int).contains(key.0),
    ensures
        ({
            let r = plan_from(chains, order, s, k);
            &&& ops_owned(r.params, r.ops)
            &&& params_numbered(r.params)
        }),
    decreases order.len() - k,
{
    if k < order.len() {
        let id = order[k as int];
        let c = chain_for(chains, id);
        assert(exists|i: int| 0 <= i < chains.len() && #[trigger] chains[i].node_id == order[k as int]);
        let ci = choose|i: int| 0 <= i < chains.len() && chains[i].node_id == id;
        assert(c == chains[ci]);
        assert(c.node_id == id);
        assert(chain_weight(chains[ci]) <= 65536);
        assert forall|j: u16| !(#[trigger] s.params.contains_key((id, j))) by {
            if s.params.contains_key((id, j)) {
                assert(order.take(k as int).contains(id));
                let p = choose|p: int| 0 <= p < k && order.take(k as int)[p] == id;
                assert(order[p] == order[k as int]);
            }
        }
        let s1 = node_step(s, c, order, order.len() + 1);
        lemma_node_step_owned(s, c, order, order.len() + 1);
        assert forall|key: (NodeId, u16)| #[trigger] s1.params.contains_key(key) implies order.take((k + 1) as int).contains(
            key.0,
        ) by {
            if s.params.contains_key(key) {
                let p = choose|p: int| 0 <= p < k && order.take(k as int)[p] == key.0;
                assert(order.take((k + 1) as int)[p] == key.0);
            } else {
                assert(order.take((k + 1) as int)[k as int] == id);
            }
        }
        lemma_plan_from_owned(chains, order, s1, k + 1);
    }
}

/// No processor's parameter slots are taken over by another's: in a compiled
/// layout every slot an operation reads is held by a parameter of the
/// operation's own node, and each node's parameters hold consecutive slots in
/// index order (so parameter 0 of a node is its first slot). A node's parameters
/// are numbered by a 16-bit index, so this is for chains of at most 2^16 slots'
/// weight, and for at most `usize::MAX / 2^16` chains, so that no slot number
/// overflows.
pub proof fn law_params_owned(chains: Seq<ActiveChain>)
    requires
        ids_unique(chains),
        chains.len() * 65536 <= usize::MAX,
        forall|i: int| 0 <= i < chains.len() ==> chain_weight(#[trigger] chains[i]) <= 65536,
    ensures
        ops_owned(compiled_plan(chains).params, compiled_plan(chains).ops),
        params_numbered(compiled_plan(chains).params),
{
    if chains.len() > 0 {
        let ids = chain_ids(chains);
        let deps = chains.map_values(|c: ActiveChain| chain_deps(c));
        let provides = Seq::new(chains.len(), |i: int| true);
        let s = schedule(ids, deps, provides, 6);
        law_schedule_respects_deps(ids, deps, provides, 6);
        let perm = s.order + s.waiting;
        let order = render_order(chains);
        assert(order == at(ids, perm));
        assert forall|j: int| #![trigger order[j]] 0 <= j < order.len() implies exists|i: int|
            0 <= i < chains.len() && #[trigger] chains[i].node_id == order[j] by {
            assert(order[j] == ids[perm[j]]);
            assert(chains[perm[j]].node_id == order[j]);
        }
        assert(order.no_duplicates()) by {
            assert forall|a: int, b: int| 0 <= a < order.len() && 0 <= b < order.len() && a != b implies order[a]
                != order[b] by {
                assert(order[a] == chains[perm[a]].node_id && order[b] == chains[perm[b]].node_id);
                assert(perm[a] != perm[b]);
                if perm[a] < perm[b] {
                    assert(chains[perm[a]].node_id != chains[perm[b]].node_id);
                } else {
                    assert(chains[perm[b]].node_id != chains[perm[a]].node_id);
                }
            }
        }
        let init = PlanState {
            ops: Seq::empty(),
            mixers: Seq::empty(),
            procs: Seq::empty(),
            buffers: chains.len() + 2,
            slots: 0,
            params: Map::empty(),
        };
        lemma_plan_from_owned(chains, order, init, 0);
    }
}

/// How many parameter slots every effect reads, as the effect table gives it.
pub proof fn law_effect_param_counts(e: EffectKind)
    ensures
        match e {
            EffectKind::Gain => e.spec_param_count() == 1,
            EffectKind::LowPass => e.spec_param_count() == 1,
            EffectKind::HighPass => e.spec_param_count() == 1,
            EffectKind::Delay => e.spec_param_count() == 2,
            EffectKind::Distortion => e.spec_param_count() == 1,
            EffectKind::Reverb => e.spec_param_count() == 3,
            EffectKind::ParametricEq => e.spec_param_count() == 0,
        },
{
}

/// The name of every effect, as the effect table gives it.
pub proof fn law_effect_names(e: EffectKind)
    ensures
        match e {
            EffectKind::Gain => e.spec_name() == "Gain"@,
            EffectKind::LowPass => e.spec_name() == "Low Pass"@,
            EffectKind::HighPass => e.spec_name() == "High Pass"@,
            EffectKind::Delay => e.spec_name() == "Delay"@,
            EffectKind::Distortion => e.spec_name() == "Distortion"@,
            EffectKind::Reverb => e.spec_name() == "Reverb"@,
            EffectKind::ParametricEq => e.spec_name() == "Parametric EQ"@,
        },
{
}

/// The type tag of every effect, as the effect table gives it.
pub proof fn law_effect_type_tags(e: EffectKind)
    ensures
        match e {
            EffectKind::Gain => e.spec_type_tag() == 0,
            EffectKind::LowPass => e.spec_type_tag() == 1,
            EffectKind::HighPass => e.spec_type_tag() == 2,
            EffectKind::Delay => e.spec_type_tag() == 3,
            EffectKind::Distortion => e.spec_type_tag() == 4,
            EffectKind::Reverb => e.spec_type_tag() == 5,
            EffectKind::ParametricEq => e.spec_type_tag() == 6,
        },
{
}

} // verus!
