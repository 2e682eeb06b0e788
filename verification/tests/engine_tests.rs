use patchwork::engine::{EngineRouting, RoutingCommand, SpeakerProcessor};

fn routing_with(cmds: Vec<RoutingCommand>) -> EngineRouting {
    let mut r = EngineRouting::new();
    r.process_commands(&cmds);
    r
}

#[test]
fn speaker_processor_identity() {
    let s = SpeakerProcessor::new();
    assert_eq!(s.type_id(), "speaker");
    assert_eq!(s.param_count(), 4);
}

#[test]
fn processors_and_speakers_are_listed_after_a_batch() {
    let r = routing_with(vec![
        RoutingCommand::Add { node_id: 1, is_speaker: false },
        RoutingCommand::Add { node_id: 2, is_speaker: true },
        RoutingCommand::Add { node_id: 3, is_speaker: false },
    ]);
    assert_eq!(r.processor_ids(), &vec![1, 2, 3]);
    assert_eq!(r.speaker_ids(), &vec![2]);
}

#[test]
fn set_speaker_changes_the_speaker_list() {
    let mut r = routing_with(vec![
        RoutingCommand::Add { node_id: 1, is_speaker: false },
        RoutingCommand::Add { node_id: 2, is_speaker: true },
    ]);
    r.process_commands(&vec![
        RoutingCommand::SetSpeaker { node_id: 1, active: true },
        RoutingCommand::SetSpeaker { node_id: 2, active: false },
        RoutingCommand::SetSpeaker { node_id: 9, active: true },
    ]);
    assert_eq!(r.speaker_ids(), &vec![1]);
    assert_eq!(r.processor_ids(), &vec![1, 2]);
}

#[test]
fn connect_reads_back_and_grows_the_inputs() {
    let r = routing_with(vec![
        RoutingCommand::Add { node_id: 1, is_speaker: false },
        RoutingCommand::Add { node_id: 2, is_speaker: true },
        RoutingCommand::Connect { from_node: 1, to_node: 2, to_port: 2 },
    ]);
    assert_eq!(r.live_inputs(2), Some(vec![(2, 1)]));
    assert_eq!(r.live_inputs(1), Some(vec![]));
    assert_eq!(r.live_inputs(7), None);
}

#[test]
fn inputs_from_missing_processors_are_not_live() {
    let r = routing_with(vec![
        RoutingCommand::Add { node_id: 2, is_speaker: false },
        RoutingCommand::Connect { from_node: 5, to_node: 2, to_port: 0 },
    ]);
    assert_eq!(r.live_inputs(2), Some(vec![]));
}

#[test]
fn connect_to_missing_processor_is_ignored() {
    let r = routing_with(vec![
        RoutingCommand::Add { node_id: 1, is_speaker: false },
        RoutingCommand::Connect { from_node: 1, to_node: 4, to_port: 0 },
    ]);
    assert_eq!(r.processor_ids(), &vec![1]);
    assert_eq!(r.live_inputs(4), None);
}

#[test]
fn disconnect_after_connect_reads_nothing() {
    let r = routing_with(vec![
        RoutingCommand::Add { node_id: 1, is_speaker: false },
        RoutingCommand::Add { node_id: 2, is_speaker: false },
        RoutingCommand::Connect { from_node: 1, to_node: 2, to_port: 0 },
        RoutingCommand::Connect { from_node: 1, to_node: 2, to_port: 1 },
        RoutingCommand::Disconnect { to_node: 2, to_port: 0 },
        RoutingCommand::Disconnect { to_node: 2, to_port: 9 },
    ]);
    assert_eq!(r.live_inputs(2), Some(vec![(1, 1)]));
}

#[test]
fn remove_disconnects_every_reader() {
    let r = routing_with(vec![
        RoutingCommand::Add { node_id: 1, is_speaker: false },
        RoutingCommand::Add { node_id: 2, is_speaker: false },
        RoutingCommand::Add { node_id: 3, is_speaker: true },
        RoutingCommand::Connect { from_node: 1, to_node: 2, to_port: 0 },
        RoutingCommand::Connect { from_node: 1, to_node: 3, to_port: 1 },
        RoutingCommand::Connect { from_node: 2, to_node: 3, to_port: 0 },
        RoutingCommand::Remove { node_id: 1 },
    ]);
    assert_eq!(r.processor_ids(), &vec![2, 3]);
    assert_eq!(r.live_inputs(1), None);
    assert_eq!(r.live_inputs(2), Some(vec![]));
    assert_eq!(r.live_inputs(3), Some(vec![(0, 2)]));
    // re-adding the node does not restore the old wires
    let mut r = r;
    r.process_commands(&vec![RoutingCommand::Add { node_id: 1, is_speaker: false }]);
    assert_eq!(r.live_inputs(3), Some(vec![(0, 2)]));
    assert_eq!(r.processor_ids(), &vec![2, 3, 1]);
}

#[test]
fn adding_again_replaces_the_slot() {
    let r = routing_with(vec![
        RoutingCommand::Add { node_id: 1, is_speaker: false },
        RoutingCommand::Add { node_id: 2, is_speaker: false },
        RoutingCommand::Connect { from_node: 1, to_node: 2, to_port: 0 },
        RoutingCommand::Add { node_id: 2, is_speaker: true },
    ]);
    assert_eq!(r.processor_ids(), &vec![1, 2]);
    assert_eq!(r.speaker_ids(), &vec![2]);
    assert_eq!(r.live_inputs(2), Some(vec![]));
}

#[test]
fn a_removal_ending_a_queue_disconnects_the_node() {
    let r = routing_with(vec![
        RoutingCommand::Add { node_id: 1, is_speaker: false },
        RoutingCommand::Add { node_id: 2, is_speaker: true },
        RoutingCommand::Connect { from_node: 1, to_node: 2, to_port: 0 },
        RoutingCommand::Remove { node_id: 1 },
    ]);
    assert_eq!(r.processor_ids(), &vec![2]);
    assert_eq!(r.live_inputs(2), Some(vec![]));
    assert_eq!(r.live_inputs(1), None);
}
