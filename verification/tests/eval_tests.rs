use patchwork::eval::{ai_status, string_format, AiStatus};
use patchwork::graph::Graph;

fn args(v: &[&str]) -> Vec<String> {
    v.iter().map(|s| s.to_string()).collect()
}

#[test]
fn template_placeholders_are_replaced_in_turn() {
    assert_eq!(string_format(None, "{0} + {1} = {0}{1}", &args(&["a", "b"])), "a + b = ab");
    assert_eq!(string_format(None, "x={0}, y={2}", &args(&["1", "2"])), "x=1, y={2}");
    assert_eq!(string_format(None, "{0}", &args(&[])), "{0}");
    // an argument may bring in a later placeholder, which is then replaced too
    assert_eq!(string_format(None, "{0}", &args(&["{1}", "z"])), "z");
    // but not an earlier one
    assert_eq!(string_format(None, "{1}", &args(&["q", "{0}"])), "{0}");
}

#[test]
fn template_input_overrides_stored_template_unless_empty() {
    assert_eq!(string_format(Some("in:{0}"), "stored:{0}", &args(&["v"])), "in:v");
    assert_eq!(string_format(Some(""), "stored:{0}", &args(&["v"])), "stored:v");
}

#[test]
fn placeholders_match_left_to_right_without_overlap() {
    assert_eq!(string_format(None, "{{0}}", &args(&["x"])), "{x}");
    assert_eq!(string_format(None, "{10}", &args(&["a", "b", "c", "d", "e", "f", "g", "h", "i", "j", "K"])), "K");
}

#[test]
fn ai_status_levels() {
    assert_eq!(ai_status("done in 2s"), AiStatus::Done);
    assert_eq!(ai_status("error: done badly"), AiStatus::Done);
    assert_eq!(ai_status("network error"), AiStatus::Error);
    assert_eq!(ai_status("thinking..."), AiStatus::Thinking);
    assert_eq!(ai_status("idle"), AiStatus::Idle);
    assert_eq!(ai_status(""), AiStatus::Idle);
    assert_eq!(ai_status("Done"), AiStatus::Idle);
}

#[test]
fn evaluation_visits_cyclic_part_three_times() {
    let mut g: Graph<u8> = Graph::new();
    let a = g.add_node(0);
    let b = g.add_node(0);
    let c = g.add_node(0);
    g.add_connection(a, 0, b, 0);
    g.add_connection(b, 0, a, 0);
    assert_eq!(g.evaluation_steps(), vec![c, a, b, a, b, a, b]);
    let mut h: Graph<u8> = Graph::new();
    let x = h.add_node(0);
    let y = h.add_node(0);
    h.add_connection(y, 0, x, 0);
    assert_eq!(h.evaluation_steps(), vec![y, x]);
}
