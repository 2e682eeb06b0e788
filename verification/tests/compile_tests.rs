use patchwork::compile::{
    chain_update, compile_from_state, effects_same_types, ActiveChain, ChainUpdate, DspOp, DspPlan, EffectKind,
    MixerChannel, ProcessorRole, SourceKind,
};

fn synth(id: u64, effects: Vec<EffectKind>, render_only: bool) -> ActiveChain {
    ActiveChain { node_id: id, source: Some(SourceKind::Synth { fm_source: None }), effects, render_only }
}

fn op(
    processor_idx: usize,
    input_buffer: usize,
    output_buffer: usize,
    param_start: usize,
    param_count: usize,
    mix_to_output: bool,
    node_id: u64,
) -> (usize, usize, usize, usize, usize, bool, Option<usize>, u64) {
    (processor_idx, input_buffer, output_buffer, param_start, param_count, mix_to_output, None, node_id)
}

fn flat(o: &DspOp) -> (usize, usize, usize, usize, usize, bool, Option<usize>, u64) {
    (o.processor_idx, o.input_buffer, o.output_buffer, o.param_start, o.param_count, o.mix_to_output, o.output_gain_slot, o.node_id)
}

fn in_range(plan: &DspPlan) {
    for o in &plan.ops {
        assert!(o.processor_idx < plan.processors.len());
        assert!(o.input_buffer < plan.buffer_count);
        assert!(o.output_buffer < plan.buffer_count);
    }
    for m in &plan.mixer_ops {
        assert!(m.processor_idx < plan.processors.len());
        assert!(m.output_buffer < plan.buffer_count);
        assert!(m.temp_buffer < plan.buffer_count);
        for b in &m.input_buffers {
            assert!(*b < plan.buffer_count);
        }
        for ch in &m.channel_effects {
            for p in ch {
                assert!(*p < plan.processors.len());
            }
        }
    }
}

#[test]
fn effect_parameter_counts() {
    assert_eq!(EffectKind::Gain.param_count(), 1);
    assert_eq!(EffectKind::LowPass.param_count(), 1);
    assert_eq!(EffectKind::HighPass.param_count(), 1);
    assert_eq!(EffectKind::Delay.param_count(), 2);
    assert_eq!(EffectKind::Distortion.param_count(), 1);
    assert_eq!(EffectKind::Reverb.param_count(), 3);
    assert_eq!(EffectKind::ParametricEq.param_count(), 0);
}

#[test]
fn no_active_chains_compile_to_nothing() {
    let plan = compile_from_state(&vec![]);
    assert!(plan.order.is_empty());
    assert!(plan.ops.is_empty());
    assert!(plan.mixer_ops.is_empty());
    assert!(plan.processors.is_empty());
    assert_eq!(plan.buffer_count, 0);
    assert_eq!(plan.param_map.total_slots(), 0);
}

#[test]
fn lone_synth_goes_straight_to_output() {
    let plan = compile_from_state(&vec![synth(5, vec![], false)]);
    assert_eq!(plan.order, vec![5]);
    assert_eq!(plan.buffer_count, 3);
    assert_eq!(plan.processors, vec![ProcessorRole::Source(5)]);
    assert_eq!(plan.ops.len(), 1);
    assert_eq!(flat(&plan.ops[0]), op(0, 0, 1, 0, 4, true, 5));
    assert_eq!(plan.param_map.total_slots(), 4);
    assert_eq!(plan.param_map.get_slot(5, 0), Some(0));
    assert_eq!(plan.param_map.get_slot(5, 3), Some(3));
    assert_eq!(plan.param_map.get_slot(5, 4), None);
    in_range(&plan);
}

#[test]
fn render_only_synth_is_not_mixed_to_output() {
    let plan = compile_from_state(&vec![synth(5, vec![], true)]);
    assert_eq!(flat(&plan.ops[0]), op(0, 0, 1, 0, 4, false, 5));
}

#[test]
fn effect_chain_runs_through_fresh_buffers_and_ends_in_place() {
    let plan = compile_from_state(&vec![synth(9, vec![EffectKind::Gain, EffectKind::Delay], false)]);
    assert_eq!(plan.buffer_count, 4);
    assert_eq!(
        plan.processors,
        vec![ProcessorRole::Source(9), ProcessorRole::ChainEffect(9, 0), ProcessorRole::ChainEffect(9, 1)]
    );
    assert_eq!(plan.ops.len(), 3);
    assert_eq!(flat(&plan.ops[0]), op(0, 0, 1, 0, 4, false, 9));
    assert_eq!(flat(&plan.ops[1]), op(1, 1, 3, 4, 1, false, 9));
    assert_eq!(flat(&plan.ops[2]), op(2, 3, 3, 5, 2, true, 9));
    assert_eq!(plan.param_map.total_slots(), 7);
    // the node's parameters are numbered across its processors: the synth's
    // first, then each effect's, so every processor keeps its own slots
    assert_eq!(plan.param_map.get_slot(9, 0), Some(0));
    assert_eq!(plan.param_map.get_slot(9, 3), Some(3));
    assert_eq!(plan.param_map.get_slot(9, 4), Some(4));
    assert_eq!(plan.param_map.get_slot(9, 5), Some(5));
    assert_eq!(plan.param_map.get_slot(9, 6), Some(6));
    assert_eq!(plan.param_map.get_slot(9, 7), None);
    in_range(&plan);
}

#[test]
fn equalizer_takes_no_parameter_slots() {
    let plan = compile_from_state(&vec![ActiveChain {
        node_id: 2,
        source: Some(SourceKind::LiveInput),
        effects: vec![EffectKind::ParametricEq],
        render_only: false,
    }]);
    assert_eq!(flat(&plan.ops[0]), op(0, 0, 1, 0, 0, false, 2));
    assert_eq!(flat(&plan.ops[1]), op(1, 1, 1, 0, 0, true, 2));
    assert_eq!(plan.param_map.total_slots(), 0);
}

#[test]
fn mixer_renders_after_its_sources() {
    let chains = vec![
        ActiveChain {
            node_id: 3,
            source: Some(SourceKind::Mixer {
                channels: vec![
                    MixerChannel { source: 1, effects: vec![EffectKind::LowPass] },
                    MixerChannel { source: 2, effects: vec![] },
                ],
            }),
            effects: vec![],
            render_only: false,
        },
        synth(1, vec![], true),
        synth(2, vec![], true),
    ];
    let plan = compile_from_state(&chains);
    assert_eq!(plan.order, vec![1, 2, 3]);
    assert_eq!(plan.buffer_count, 5);
    assert_eq!(
        plan.processors,
        vec![
            ProcessorRole::Source(1),
            ProcessorRole::Source(2),
            ProcessorRole::Source(3),
            ProcessorRole::ChannelEffect(3, 0, 0),
        ]
    );
    assert_eq!(flat(&plan.ops[0]), op(0, 0, 1, 0, 4, false, 1));
    assert_eq!(flat(&plan.ops[1]), op(1, 0, 2, 4, 4, false, 2));
    assert_eq!(plan.mixer_ops.len(), 1);
    let m = &plan.mixer_ops[0];
    assert_eq!(m.processor_idx, 2);
    assert_eq!(m.output_buffer, 3);
    assert_eq!(m.input_buffers, vec![1, 2]);
    assert_eq!(m.channel_effects, vec![vec![3], vec![]]);
    assert_eq!(m.temp_buffer, 4);
    assert!(m.mix_to_output);
    assert_eq!(m.node_id, 3);
    assert_eq!(plan.param_map.total_slots(), 9);
    assert_eq!(plan.param_map.get_slot(3, 0), Some(8));
    in_range(&plan);
}

#[test]
fn sampler_records_its_input_source() {
    let chains = vec![
        ActiveChain {
            node_id: 7,
            source: Some(SourceKind::Sampler { input_source: Some(4) }),
            effects: vec![],
            render_only: false,
        },
        ActiveChain { node_id: 4, source: Some(SourceKind::FilePlayer), effects: vec![], render_only: true },
    ];
    let plan = compile_from_state(&chains);
    assert_eq!(plan.order, vec![4, 7]);
    assert_eq!(flat(&plan.ops[0]), op(0, 0, 1, 0, 0, false, 4));
    assert_eq!(flat(&plan.ops[1]), op(1, 1, 2, 0, 3, true, 7));
}

#[test]
fn sampler_input_outside_the_chains_reads_silence() {
    let chains = vec![ActiveChain {
        node_id: 7,
        source: Some(SourceKind::Sampler { input_source: Some(40) }),
        effects: vec![],
        render_only: false,
    }];
    let plan = compile_from_state(&chains);
    assert_eq!(flat(&plan.ops[0]), op(0, 0, 1, 0, 3, true, 7));
}

#[test]
fn chain_without_source_only_takes_a_buffer() {
    let chains = vec![ActiveChain { node_id: 6, source: None, effects: vec![EffectKind::Gain], render_only: false }];
    let plan = compile_from_state(&chains);
    assert_eq!(plan.order, vec![6]);
    assert_eq!(plan.buffer_count, 3);
    assert!(plan.ops.is_empty());
    assert!(plan.processors.is_empty());
}

#[test]
fn frequency_modulation_orders_the_modulator_first() {
    let chains = vec![
        ActiveChain {
            node_id: 1,
            source: Some(SourceKind::Synth { fm_source: Some(2) }),
            effects: vec![],
            render_only: false,
        },
        synth(2, vec![], true),
    ];
    let plan = compile_from_state(&chains);
    assert_eq!(plan.order, vec![2, 1]);
    assert_eq!(flat(&plan.ops[0]), op(0, 0, 1, 0, 4, false, 2));
    assert_eq!(flat(&plan.ops[1]), op(1, 0, 2, 4, 4, true, 1));
}

#[test]
fn dependency_cycle_keeps_waiting_nodes_at_the_end() {
    let chains = vec![
        ActiveChain {
            node_id: 1,
            source: Some(SourceKind::Synth { fm_source: Some(2) }),
            effects: vec![],
            render_only: false,
        },
        ActiveChain {
            node_id: 2,
            source: Some(SourceKind::Synth { fm_source: Some(1) }),
            effects: vec![],
            render_only: false,
        },
        synth(3, vec![], false),
    ];
    let plan = compile_from_state(&chains);
    assert_eq!(plan.order, vec![3, 1, 2]);
    in_range(&plan);
}

#[test]
fn effect_names_and_tags() {
    let all = [
        EffectKind::Gain,
        EffectKind::LowPass,
        EffectKind::HighPass,
        EffectKind::Delay,
        EffectKind::Distortion,
        EffectKind::Reverb,
        EffectKind::ParametricEq,
    ];
    let names: Vec<&str> = all.iter().map(|e| e.name()).collect();
    assert_eq!(names, vec!["Gain", "Low Pass", "High Pass", "Delay", "Distortion", "Reverb", "Parametric EQ"]);
    let tags: Vec<u8> = all.iter().map(|e| e.type_tag()).collect();
    assert_eq!(tags, vec![0, 1, 2, 3, 4, 5, 6]);
}

#[test]
fn chain_updates_merge_only_same_kinds() {
    let a = vec![EffectKind::Gain, EffectKind::Delay];
    let b = vec![EffectKind::Gain, EffectKind::Delay];
    let c = vec![EffectKind::Delay, EffectKind::Gain];
    let d = vec![EffectKind::Gain];
    assert!(effects_same_types(&a, &b));
    assert!(!effects_same_types(&a, &c));
    assert!(!effects_same_types(&a, &d));
    assert!(effects_same_types(&vec![], &vec![]));
    assert_eq!(chain_update(None, &a), ChainUpdate::Insert);
    assert_eq!(chain_update(Some(&a), &b), ChainUpdate::MergeParams);
    assert_eq!(chain_update(Some(&a), &c), ChainUpdate::Replace);
    assert_eq!(chain_update(Some(&a), &d), ChainUpdate::Replace);
}

#[test]
fn synth_with_gain_keeps_its_own_first_slot() {
    let plan = compile_from_state(&vec![synth(1, vec![EffectKind::Gain], false)]);
    assert_eq!(plan.ops[0].param_start, 0);
    assert_eq!(plan.param_map.get_slot(1, 0), Some(plan.ops[0].param_start));
    assert_eq!(plan.param_map.get_slot(1, 4), Some(plan.ops[1].param_start));
}
