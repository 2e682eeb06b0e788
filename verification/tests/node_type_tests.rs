use patchwork::graph::Graph;
use patchwork::node_type::{search_matches, NodeType};
use patchwork::ports::{MidiMode, PortKind};

fn names(ports: Vec<patchwork::ports::PortDef>) -> Vec<String> {
    ports.into_iter().map(|p| p.name).collect()
}

#[test]
fn fixed_ports() {
    let add = NodeType::Add;
    assert_eq!(add.title(), "Add");
    assert_eq!(names(add.inputs()), vec!["A", "B"]);
    assert_eq!(names(add.outputs()), vec!["Result"]);
    assert_eq!(NodeType::Speaker.title(), "Speaker");
    assert_eq!(names(NodeType::Speaker.inputs()), vec!["Audio", "Volume"]);
    assert_eq!(NodeType::Synth.color_hint(), [100, 220, 180]);
    assert!(NodeType::Synth.inline_ports());
    assert_eq!(NodeType::Slider.color_hint(), [80, 160, 255]);
    assert_eq!(names(NodeType::Serial.inputs()), vec!["Send"]);
    assert_eq!(names(NodeType::Serial.outputs()), vec!["Received"]);
    assert_eq!(NodeType::Serial.outputs()[0].kind, PortKind::Text);
}

#[test]
fn port_kinds_by_index() {
    let s = NodeType::Synth;
    assert_eq!(s.port_kind(0, false), Some(PortKind::Number));
    assert_eq!(s.port_kind(2, false), Some(PortKind::Gate));
    assert_eq!(s.port_kind(9, false), None);
    assert_eq!(NodeType::Add.port_kind(0, true), Some(PortKind::Number));
    assert_eq!(NodeType::Add.port_kind(1, true), None);
}

#[test]
fn math_has_one_input_per_variable() {
    let m = NodeType::Math { variables: vec!['x', 'y'] };
    assert_eq!(names(m.inputs()), vec!["x", "y"]);
    assert_eq!(m.title(), "Math");
}

#[test]
fn counted_ports() {
    assert_eq!(names(NodeType::OscOut { arg_count: 2 }.inputs()), vec!["Arg 0", "Arg 1"]);
    assert_eq!(
        names(NodeType::AudioMixer { channel_count: 2 }.inputs()),
        vec!["Ch1", "Gain1", "Ch2", "Gain2"]
    );
    assert_eq!(NodeType::AudioMixer { channel_count: 1 }.port_kind(1, false), Some(PortKind::Normalized));
    assert_eq!(NodeType::AudioMixer { channel_count: 0 }.inputs().len(), 0);
}

#[test]
fn midi_out_ports_follow_mode() {
    assert_eq!(names(NodeType::MidiOut { mode: MidiMode::Note }.inputs()), vec!["Channel", "Note", "Velocity"]);
    assert_eq!(names(NodeType::MidiOut { mode: MidiMode::CC }.inputs()), vec!["Channel", "CC#", "Value"]);
}

#[test]
fn script_trigger_input_unless_continuous() {
    let s = NodeType::Script { input_names: vec!["a".to_string()], output_names: vec!["o".to_string()], continuous: false };
    assert_eq!(names(s.inputs()), vec!["Exec", "Code", "a"]);
    let c = NodeType::Script { input_names: vec![], output_names: vec![], continuous: true };
    assert_eq!(names(c.inputs()), vec!["Code"]);
}

#[test]
fn hub_outputs_sorted_by_device() {
    let hub = NodeType::ObHub {
        detected_devices: vec![("joystick".to_string(), 2), ("encoder".to_string(), 1), ("joystick".to_string(), 1)],
    };
    assert_eq!(
        names(hub.outputs()),
        vec!["e1_turn", "e1_click", "e1_pos", "j1_x", "j1_y", "j1_btn", "j2_x", "j2_y", "j2_btn"]
    );
    let empty = NodeType::ObHub { detected_devices: vec![] };
    assert_eq!(names(empty.outputs()), vec!["(no devices)"]);
    let other = NodeType::ObHub { detected_devices: vec![("slider".to_string(), 3)] };
    assert_eq!(names(other.outputs()), vec!["s3_val"]);
}

#[test]
fn graph_port_kinds() {
    let mut g: Graph<NodeType> = Graph::new();
    let synth = g.add_node(NodeType::Synth);
    let text = g.add_node(NodeType::TextEditor);
    assert_eq!(g.port_kind(synth, 0, false), Some(PortKind::Number));
    assert_eq!(g.port_kind(synth, 1, false), Some(PortKind::Normalized));
    assert_eq!(g.port_kind(synth, 9, false), None);
    assert_eq!(g.port_kind(text, 0, true), Some(PortKind::Text));
    assert_eq!(g.port_kind(77, 0, false), None);
}

#[test]
fn self_drawn_nodes() {
    assert!(NodeType::Slider.custom_render());
    assert!(NodeType::Display.custom_render());
    assert!(NodeType::Comment.custom_render());
    assert!(!NodeType::Add.custom_render());
    assert!(!NodeType::Add.inline_ports());
}

#[test]
fn inputs_collected_per_node_type() {
    let mut g: Graph<NodeType> = Graph::new();
    let a = g.add_node(NodeType::Slider);
    let b = g.add_node(NodeType::Add);
    g.add_connection(a, 0, b, 1);
    g.add_connection(a, 0, b, 7);
    assert_eq!(g.collect_inputs(b), vec![None, Some((a, 0))]);
    assert_eq!(g.collect_inputs(999), vec![]);
}

#[test]
fn ports_from_the_node_table() {
    assert_eq!(names(NodeType::Slider.inputs()), vec!["In"]);
    assert_eq!(names(NodeType::Slider.outputs()), vec!["Value"]);
    assert!(NodeType::Theme.inputs().is_empty());
    assert!(NodeType::Theme.outputs().is_empty());
    let w = NodeType::WgslViewer { uniform_names: vec![], uniform_types: vec![] };
    assert_eq!(names(w.inputs()), vec!["WGSL"]);
    assert!(w.outputs().is_empty());
    assert_eq!(names(NodeType::OscIn { arg_count: 2 }.outputs()), vec!["Arg 0", "Arg 1"]);
}

#[test]
fn menu_search_matches_label_or_category_ignoring_case() {
    assert!(search_matches("", "Slider", "Input"));
    assert!(search_matches("SLI", "Slider", "Input"));
    assert!(search_matches("inp", "Slider", "Input"));
    assert!(!search_matches("audio", "Slider", "Input"));
}
