use patchwork::input::{decode_midi, dropped_file_kind, kind_of_extension, DropKind, MidiUpdate};

#[test]
fn midi_note_and_controller_messages() {
    assert_eq!(decode_midi(&vec![0x93, 60, 100]), Some(MidiUpdate { channel: 3, data: Some((60, 100)) }));
    assert_eq!(decode_midi(&vec![0x80, 61, 0]), Some(MidiUpdate { channel: 0, data: Some((61, 0)) }));
    assert_eq!(decode_midi(&vec![0xAF, 1, 2]), Some(MidiUpdate { channel: 15, data: Some((1, 2)) }));
    assert_eq!(decode_midi(&vec![0xB2, 7, 127, 9]), Some(MidiUpdate { channel: 2, data: Some((7, 127)) }));
}

#[test]
fn other_midi_messages_only_give_the_channel() {
    assert_eq!(decode_midi(&vec![0xC5, 10, 0]), Some(MidiUpdate { channel: 5, data: None }));
    assert_eq!(decode_midi(&vec![0xE1, 0, 64]), Some(MidiUpdate { channel: 1, data: None }));
    assert_eq!(decode_midi(&vec![0x7F, 1, 1]), Some(MidiUpdate { channel: 15, data: None }));
}

#[test]
fn short_midi_messages_give_nothing() {
    assert_eq!(decode_midi(&vec![0x90, 60]), None);
    assert_eq!(decode_midi(&vec![]), None);
}

#[test]
fn dropped_files() {
    assert_eq!(kind_of_extension("png"), DropKind::Image);
    assert_eq!(kind_of_extension("webp"), DropKind::Image);
    assert_eq!(kind_of_extension("mkv"), DropKind::Video);
    assert_eq!(kind_of_extension("txt"), DropKind::Text);
    assert_eq!(kind_of_extension("PNG"), DropKind::Text);
    assert_eq!(dropped_file_kind("PNG"), DropKind::Image);
    assert_eq!(dropped_file_kind("Mov"), DropKind::Video);
    assert_eq!(dropped_file_kind(""), DropKind::Text);
}
