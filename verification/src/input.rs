use crate::text::str_eq;
use vstd::prelude::*;

verus! {

/// What a MIDI input node takes from a message: the channel, and for note and
/// controller messages their two data bytes (note or controller number, and
/// velocity or value).
#[derive(Clone, Copy, Debug, PartialEq, Eq)]
pub struct MidiUpdate {
    pub channel: u8,
    pub data: Option<(u8, u8)>,
}

/// Whether a status byte starts a message whose two data bytes a MIDI input node
/// shows: note off, note on, polyphonic pressure or control change (high nibble
/// 8 to 11).
pub open spec fn carries_note(status: u8) -> bool {
    8 <= status / 16 <= 11
}

/// Reads a MIDI message of at least three bytes: the channel is the low nibble of
/// the status byte; note and controller messages also give their data bytes.
/// Shorter messages give nothing.
pub fn decode_midi(msg: &Vec<u8>) -> (r: Option<MidiUpdate>)
    ensures
        r is Some <==> msg@.len() >= 3,
        r matches Some(u) ==> (u.data is Some <==> 0x80 <= msg@[0] && msg@[0] < 0xC0),
        r matches Some(u) ==> u.channel == msg@[0] % 16 && u.data == (if carries_note(msg@[0]) {
            Some((msg@[1], msg@[2]))
        } else {
            None::<(u8, u8)>
        }),
{
    if msg.len() < 3 {
        return None;
    }
    let b = msg[0];
    let channel = b & 0x0F;
    let status = b & 0xF0;
    proof {
        assert(b & 0x0F == b % 16) by (bit_vector);
        assert((b & 0xF0 == 0x80u8 || b & 0xF0 == 0x90u8 || b & 0xF0 == 0xA0u8 || b & 0xF0 == 0xB0u8) == (8 <= b / 16
            <= 11)) by (bit_vector);
    }
    let data = if status == 0x80 || status == 0x90 || status == 0xA0 || status == 0xB0 {
        Some((msg[1], msg[2]))
    } else {
        None
    };
    Some(MidiUpdate { channel, data })
}

/// What a file dropped on the canvas becomes.
#[derive(Clone, Copy, Debug, PartialEq, Eq, Structural)]
pub enum DropKind {
    Image,
    Video,
    Text,
}

/// The text `s` in lower case, as `str::to_lowercase` gives it.
pub uninterp spec fn lower_text(s: Seq<char>) -> Seq<char>;

/// `str::to_lowercase`: its result is named by `lower_text` of the argument.
#[verifier::external_body]
pub(crate) fn to_lower(s: &str) -> (r: String)
    ensures
        r@ == lower_text(s@),
{
    s.to_lowercase()
}

/// The node a dropped file with lower-case extension `ext` becomes: an image
/// node for png, jpg, jpeg, gif, bmp and webp, a video player for mp4, mov, avi,
/// webm and mkv, a file node otherwise.
pub fn kind_of_extension(ext: &str) -> (r: DropKind)
    ensures
        r == kind_of_extension_spec(ext@),
        (ext@ == "png"@ || ext@ == "jpg"@ || ext@ == "jpeg"@ || ext@ == "gif"@ || ext@ == "bmp"@ || ext@ == "webp"@) ==> r == DropKind::Image,
        (ext@ == "mp4"@ || ext@ == "mov"@ || ext@ == "avi"@ || ext@ == "webm"@ || ext@ == "mkv"@) ==> r == DropKind::Video,
        !(ext@ == "png"@ || ext@ == "jpg"@ || ext@ == "jpeg"@ || ext@ == "gif"@ || ext@ == "bmp"@ || ext@ == "webp"@) && !(ext@ == "mp4"@ || ext@ == "mov"@ || ext@ == "avi"@ || ext@ == "webm"@ || ext@ == "mkv"@) ==> r == DropKind::Text,
{
    proof {
        law_drop_kinds(ext@);
    }
    if str_eq(ext, "png") || str_eq(ext, "jpg") || str_eq(ext, "jpeg") || str_eq(ext, "gif") || str_eq(ext, "bmp")
        || str_eq(ext, "webp") {
        DropKind::Image
    } else if str_eq(ext, "mp4") || str_eq(ext, "mov") || str_eq(ext, "avi") || str_eq(ext, "webm") || str_eq(
        ext,
        "mkv",
    ) {
        DropKind::Video
    } else {
        DropKind::Text
    }
}

/// The node a dropped file with extension `ext` (in any case) becomes.
pub fn dropped_file_kind(ext: &str) -> (r: DropKind)
    ensures
        r == kind_of_extension_spec(lower_text(ext@)),
        (lower_text(ext@) == "png"@ || lower_text(ext@) == "jpg"@ || lower_text(ext@) == "jpeg"@ || lower_text(ext@) == "gif"@ || lower_text(ext@) == "bmp"@ || lower_text(ext@) == "webp"@) ==> r == DropKind::Image,
        (lower_text(ext@) == "mp4"@ || lower_text(ext@) == "mov"@ || lower_text(ext@) == "avi"@ || lower_text(ext@) == "webm"@ || lower_text(ext@) == "mkv"@) ==> r == DropKind::Video,
        !(lower_text(ext@) == "png"@ || lower_text(ext@) == "jpg"@ || lower_text(ext@) == "jpeg"@ || lower_text(ext@) == "gif"@ || lower_text(ext@) == "bmp"@ || lower_text(ext@) == "webp"@) && !(lower_text(ext@) == "mp4"@ || lower_text(ext@) == "mov"@ || lower_text(ext@) == "avi"@ || lower_text(ext@) == "webm"@ || lower_text(ext@) == "mkv"@) ==> r == DropKind::Text,
{
    proof {
        law_drop_kinds(lower_text(ext@));
    }
    let lower = to_lower(ext);
    kind_of_extension(lower.as_str())
}

/// The kind `kind_of_extension` gives for a lower-case extension.
pub open spec fn kind_of_extension_spec(ext: Seq<char>) -> DropKind {
    if ext == "png"@ || ext == "jpg"@ || ext == "jpeg"@ || ext == "gif"@ || ext == "bmp"@ || ext == "webp"@ {
        DropKind::Image
    } else if ext == "mp4"@ || ext == "mov"@ || ext == "avi"@ || ext == "webm"@ || ext == "mkv"@ {
        DropKind::Video
    } else {
        DropKind::Text
    }
}

/// A dropped file opens as an image node exactly for the extensions png, jpg,
/// jpeg, gif, bmp and webp, as a video player exactly for mp4, mov, avi, webm and
/// mkv, and as a file node for every other extension.
pub proof fn law_drop_kinds(e: Seq<char>)
    ensures
        (e == "png"@ || e == "jpg"@ || e == "jpeg"@ || e == "gif"@ || e == "bmp"@ || e == "webp"@) ==> kind_of_extension_spec(e) == DropKind::Image,
        (e == "mp4"@ || e == "mov"@ || e == "avi"@ || e == "webm"@ || e == "mkv"@) ==> kind_of_extension_spec(e) == DropKind::Video,
        !(e == "png"@ || e == "jpg"@ || e == "jpeg"@ || e == "gif"@ || e == "bmp"@ || e == "webp"@) && !(e == "mp4"@ || e == "mov"@ || e == "avi"@ || e == "webm"@ || e == "mkv"@) ==> kind_of_extension_spec(e) == DropKind::Text,
{
    reveal_strlit("png");
    reveal_strlit("jpg");
    reveal_strlit("jpeg");
    reveal_strlit("gif");
    reveal_strlit("bmp");
    reveal_strlit("webp");
    reveal_strlit("mp4");
    reveal_strlit("mov");
    reveal_strlit("avi");
    reveal_strlit("webm");
    reveal_strlit("mkv");
    assert("mp4"@[0] != "png"@[0]);
    assert("mp4"@[0] != "jpg"@[0]);
    assert("mp4"@.len() != "jpeg"@.len());
    assert("mp4"@[0] != "gif"@[0]);
    assert("mp4"@[0] != "bmp"@[0]);
    assert("mp4"@.len() != "webp"@.len());
    assert("mov"@[0] != "png"@[0]);
    assert("mov"@[0] != "jpg"@[0]);
    assert("mov"@.len() != "jpeg"@.len());
    assert("mov"@[0] != "gif"@[0]);
    assert("mov"@[0] != "bmp"@[0]);
    assert("mov"@.len() != "webp"@.len());
    assert("avi"@[0] != "png"@[0]);
    assert("avi"@[0] != "jpg"@[0]);
    assert("avi"@.len() != "jpeg"@.len());
    assert("avi"@[0] != "gif"@[0]);
    assert("avi"@[0] != "bmp"@[0]);
    assert("avi"@.len() != "webp"@.len());
    assert("webm"@.len() != "png"@.len());
    assert("webm"@.len() != "jpg"@.len());
    assert("webm"@[0] != "jpeg"@[0]);
    assert("webm"@.len() != "gif"@.len());
    assert("webm"@.len() != "bmp"@.len());
    assert("webm"@[3] != "webp"@[3]);
    assert("mkv"@[0] != "png"@[0]);
    assert("mkv"@[0] != "jpg"@[0]);
    assert("mkv"@.len() != "jpeg"@.len());
    assert("mkv"@[0] != "gif"@[0]);
    assert("mkv"@[0] != "bmp"@[0]);
    assert("mkv"@.len() != "webp"@.len());
}

/// The messages whose data bytes a MIDI input node shows are exactly those with a
/// status byte from 0x80 to 0xBF: note off, note on, polyphonic pressure and
/// control change.
pub proof fn law_note_statuses(status: u8)
    ensures
        carries_note(status) <==> 0x80 <= status && status < 0xC0,
{
}

} // verus!
