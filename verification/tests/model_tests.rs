use patchwork::atomic_f32::AtomicF32;
use patchwork::model::{
    default_bg_color, default_comment_color, default_device_id, default_display_color, default_grid_color,
    default_grid_style, default_max_tokens, default_mixer_channels, default_provider,
    default_resolution, default_scope_length, default_slider_color, default_string_format_args,
    default_text_color, default_true, default_video_h, default_video_w, default_window_alpha, default_window_bg,
    ImageData, MlPreset,
};
use patchwork::params::{ParamMap, ParamStore};
use patchwork::ports::{port_kinds_compatible, PortDef, PortKind, ValueKind};
use patchwork::ports::PortKind::{Audio, Color, Gate, Generic, Image, Normalized, Number, Text, Trigger};
use patchwork::undo::UndoHistory;
use patchwork::waveform::Waveform;

#[test]
fn defaults() {
    assert!(default_true());
    assert_eq!(default_bg_color(), [20, 20, 20]);
    assert_eq!(default_text_color(), [220, 220, 220]);
    assert_eq!(default_window_bg(), [24, 24, 24]);
    assert_eq!(default_window_alpha(), 240);
    assert_eq!(default_grid_color(), [28, 28, 28]);
    assert_eq!(default_slider_color(), [80, 160, 255]);
    assert_eq!(default_grid_style(), 2);
    assert_eq!(default_display_color(), [80, 200, 120]);
    assert_eq!(default_comment_color(), [45, 45, 50]);
    assert_eq!(default_scope_length(), 200);
    assert_eq!(default_resolution(), 120);
    assert_eq!(default_max_tokens(), 1024);
    assert_eq!(default_provider(), "anthropic");
    assert_eq!(default_string_format_args(), 2);
    assert_eq!(default_video_w(), 640);
    assert_eq!(default_video_h(), 480);
    assert_eq!(default_device_id(), 1);
    assert_eq!(default_mixer_channels(), 2);
}

#[test]
fn ml_presets() {
    assert_eq!(
        MlPreset::all(),
        vec![MlPreset::Classification, MlPreset::ObjectDetection, MlPreset::PoseEstimation, MlPreset::Custom]
    );
    assert_eq!(MlPreset::all()[0], MlPreset::default());
    assert_eq!(MlPreset::Classification.name(), "Classification");
    assert_eq!(MlPreset::ObjectDetection.name(), "Object Detection");
    assert_eq!(MlPreset::PoseEstimation.name(), "Pose Estimation");
    assert_eq!(MlPreset::Custom.name(), "Custom");
    assert_eq!(MlPreset::Classification.input_size(), 224);
    assert_eq!(MlPreset::ObjectDetection.input_size(), 640);
    assert_eq!(MlPreset::PoseEstimation.input_size(), 192);
    assert_eq!(MlPreset::Custom.input_size(), 224);
    assert!(MlPreset::Classification.imagenet_norm());
    assert!(!MlPreset::ObjectDetection.imagenet_norm());
    assert!(!MlPreset::PoseEstimation.is_nhwc());
}

#[test]
fn image_data() {
    let img = ImageData::new(1, 1, vec![9, 8, 7, 6]);
    assert_eq!((img.width, img.height), (1, 1));
    assert_eq!(img.pixels, vec![9, 8, 7, 6]);
    let solid = ImageData::solid(2, 1, 1, 2, 3, 4);
    assert_eq!((solid.width, solid.height), (2, 1));
    assert_eq!(solid.pixels, vec![1, 2, 3, 4, 1, 2, 3, 4]);
    assert!(ImageData::solid(0, 5, 1, 1, 1, 1).pixels.is_empty());
    let copy = solid.clone();
    assert_eq!(copy.pixels, solid.pixels);
}

#[test]
fn waveforms() {
    assert_eq!(Waveform::all(), vec![Waveform::Sine, Waveform::Saw, Waveform::Square, Waveform::Triangle, Waveform::Noise]);
    let names: Vec<&str> = Waveform::all().iter().map(|w| w.name()).collect();
    assert_eq!(names, vec!["Sine", "Saw", "Square", "Triangle", "Noise"]);
    assert_eq!(Waveform::all()[0], Waveform::default());
}

#[test]
fn port_colors_and_shapes() {
    assert_eq!(PortKind::Number.base_color(), [80, 100, 230]);
    assert_eq!(PortKind::Normalized.base_color(), [60, 160, 230]);
    assert_eq!(PortKind::Trigger.base_color(), [255, 160, 40]);
    assert_eq!(PortKind::Gate.base_color(), [220, 180, 60]);
    assert_eq!(PortKind::Text.base_color(), [60, 220, 80]);
    assert_eq!(PortKind::Image.base_color(), [200, 30, 255]);
    assert_eq!(PortKind::Audio.base_color(), [255, 220, 40]);
    assert_eq!(PortKind::Color.base_color(), [220, 220, 220]);
    assert_eq!(PortKind::Generic.base_color(), [140, 140, 140]);
    assert_eq!(PortKind::Number.shape_id(), 0);
    assert_eq!(PortKind::Trigger.shape_id(), 2);
    assert_eq!(PortKind::Gate.shape_id(), 4);
    assert_eq!(PortKind::Text.shape_id(), 1);
    assert_eq!(PortKind::Image.shape_id(), 3);
    assert_eq!(PortKind::Audio.shape_id(), 0);
}

#[test]
fn wiring_rules() {
    assert!(PortKind::compatible(Generic, Audio));
    assert!(PortKind::compatible(Image, Generic));
    assert!(PortKind::compatible(Trigger, Color));
    assert!(PortKind::compatible(Audio, Audio));
    assert!(!PortKind::compatible(Audio, Number));
    assert!(!PortKind::compatible(Text, Number));
    assert!(!PortKind::compatible(Image, Audio));
    let all = [Number, Normalized, Trigger, Gate, Text, Image, Audio, Color, Generic];
    for a in all {
        for b in all {
            assert_eq!(PortKind::compatible(a, b), PortKind::compatible(b, a));
            assert_eq!(port_kinds_compatible(a, b), port_kinds_compatible(b, a));
        }
    }
    // the menu filter is stricter: Generic only takes numbers and text
    assert!(port_kinds_compatible(Generic, Text));
    assert!(port_kinds_compatible(Gate, Generic));
    assert!(!port_kinds_compatible(Generic, Audio));
    assert!(!port_kinds_compatible(Image, Generic));
    assert!(port_kinds_compatible(Image, Image));
}

#[test]
fn port_defs() {
    let p = PortDef::new("Freq", PortKind::Number);
    assert_eq!(p.name, "Freq");
    assert_eq!(p.kind, PortKind::Number);
    let d = PortDef::dynamic(format!("Arg {}", 3), PortKind::Generic);
    assert_eq!(d.name, "Arg 3");
    let c = d.clone();
    assert_eq!(c.name, "Arg 3");
    assert_eq!(c.kind, PortKind::Generic);
}

#[test]
fn param_store_slots() {
    let store = ParamStore::new(3);
    assert_eq!(store.len(), 3);
    assert_eq!(store.get_bits(1), 0);
    store.set_bits(1, 0x3f80_0000);
    assert_eq!(store.get_bits(1), 0x3f80_0000);
    store.set_bits(7, 5);
    assert_eq!(store.get_bits(7), 0);
    let mut out = vec![9u32; 4];
    store.read_range_bits(1, 3, &mut out);
    assert_eq!(out, vec![0x3f80_0000, 0, 0, 9]);
    assert_eq!(ParamStore::new(0).len(), 0);
}

#[test]
fn param_map_allocates_contiguous_ranges() {
    let mut m = ParamMap::new();
    assert_eq!(m.total_slots(), 0);
    assert_eq!(m.allocate(10, 3), 0);
    assert_eq!(m.allocate(20, 2), 3);
    assert_eq!(m.allocate(30, 0), 5);
    assert_eq!(m.total_slots(), 5);
    assert_eq!(m.get_slot(10, 2), Some(2));
    assert_eq!(m.get_slot(20, 0), Some(3));
    assert_eq!(m.get_slot(20, 1), Some(4));
    assert_eq!(m.get_slot(20, 2), None);
    assert_eq!(m.get_slot(30, 0), None);
    // a second allocation for the same node points its parameters at the new range
    assert_eq!(m.allocate(10, 1), 5);
    assert_eq!(m.get_slot(10, 0), Some(5));
    assert_eq!(m.get_slot(10, 1), Some(1));
}

#[test]
fn atomic_cell_round_trip() {
    let a = AtomicF32::new_bits(0x4000_0000);
    assert_eq!(a.load_bits(), 0x4000_0000);
    a.store_bits(7);
    assert_eq!(a.load_bits(), 7);
    assert_eq!(f32::from_bits(AtomicF32::new_bits(1.5f32.to_bits()).load_bits()), 1.5);
}

#[test]
fn undo_then_redo_restores() {
    let mut h: UndoHistory<u32> = UndoHistory::new(10);
    assert!(!h.can_undo());
    h.push(1);
    h.push(2);
    assert!(h.can_undo());
    assert_eq!(h.undo(3), Some(2));
    assert!(h.can_redo());
    assert_eq!(h.redo(2), Some(3));
    assert_eq!(h.undo(3), Some(2));
    assert_eq!(h.undo(2), Some(1));
    assert_eq!(h.undo(1), None);
    assert_eq!(h.redo(1), Some(2));
}

#[test]
fn push_clears_redo_and_drops_oldest() {
    let mut h: UndoHistory<u32> = UndoHistory::new(2);
    h.push(1);
    h.push(2);
    h.push(3);
    assert_eq!(h.undo(4), Some(3));
    assert_eq!(h.undo(3), Some(2));
    assert_eq!(h.undo(2), None);
    h.push(9);
    assert!(!h.can_redo());
    h.clear();
    assert!(!h.can_undo());
    assert!(!h.can_redo());
}

#[test]
fn port_kind_from_value() {
    assert_eq!(PortKind::from_value(ValueKind::Float), Number);
    assert_eq!(PortKind::from_value(ValueKind::Text), Text);
    assert_eq!(PortKind::from_value(ValueKind::Image), Image);
    assert_eq!(PortKind::from_value(ValueKind::Nothing), Generic);
}

#[test]
fn handed_out_slots_stay_apart_and_below_the_total() {
    let mut m = ParamMap::new();
    m.allocate(1, 2);
    m.allocate(2, 3);
    m.allocate(1, 1);
    let mut seen: Vec<usize> = Vec::new();
    for node in [1u64, 2] {
        for i in 0u16..4 {
            if let Some(s) = m.get_slot(node, i) {
                assert!(s < m.total_slots());
                assert!(!seen.contains(&s));
                seen.push(s);
            }
        }
    }
    assert_eq!(seen.len(), 5);
}
