use vstd::prelude::*;

verus! {

/// Semantic type of a port: drives its shape, colour and which wires may attach.
#[derive(Debug, Clone, Copy, PartialEq, Eq, Hash, Structural)]
pub enum PortKind {
    /// Generic continuous number.
    Number,
    /// Number known to lie in 0..1.
    Normalized,
    /// Momentary pulse.
    Trigger,
    /// Sustained on/off signal.
    Gate,
    /// String data.
    Text,
    /// Pixel bitmap.
    Image,
    /// Audio signal routing.
    Audio,
    /// A single colour channel (0..255).
    Color,
    /// Any type.
    Generic,
}

/// Which kind of value a port currently carries.
#[derive(Debug, Clone, Copy, PartialEq, Eq, Structural)]
pub enum ValueKind {
    Float,
    Text,
    Image,
    Nothing,
}

impl PortKind {
    /// The port kind to assume for a value when the port declares none: numbers
    /// for floats, text for text, images for images, Generic for nothing.
    pub fn from_value(val: ValueKind) -> (r: PortKind)
        ensures
            r == (match val {
                ValueKind::Float => PortKind::Number,
                ValueKind::Text => PortKind::Text,
                ValueKind::Image => PortKind::Image,
                ValueKind::Nothing => PortKind::Generic,
            }),
    {
        match val {
            ValueKind::Float => PortKind::Number,
            ValueKind::Text => PortKind::Text,
            ValueKind::Image => PortKind::Image,
            ValueKind::Nothing => PortKind::Generic,
        }
    }
}

/// The kinds that all carry a plain number underneath.
pub open spec fn is_numeric_kind(k: PortKind) -> bool {
    k == PortKind::Number || k == PortKind::Normalized || k == PortKind::Trigger
        || k == PortKind::Gate || k == PortKind::Color
}

impl PortKind {
    /// Whether a wire from a port of kind `from` may attach to a port of kind `to`.
    pub open spec fn spec_compatible(from: PortKind, to: PortKind) -> bool {
        ||| from == PortKind::Generic
        ||| to == PortKind::Generic
        ||| (is_numeric_kind(from) && is_numeric_kind(to))
        ||| (from == to && (from == PortKind::Audio || from == PortKind::Image || from == PortKind::Text))
    }

    pub fn compatible(from: PortKind, to: PortKind) -> (r: bool)
        ensures
            r == Self::spec_compatible(from, to),
    {
        if from == PortKind::Generic || to == PortKind::Generic {
            return true;
        }
        match (from, to) {
            (
                PortKind::Number | PortKind::Normalized | PortKind::Trigger | PortKind::Gate
                | PortKind::Color,
                PortKind::Number | PortKind::Normalized | PortKind::Trigger | PortKind::Gate
                | PortKind::Color,
            ) => true,
            (PortKind::Audio, PortKind::Audio) => true,
            (PortKind::Image, PortKind::Image) => true,
            (PortKind::Text, PortKind::Text) => true,
            _ => false,
        }
    }
}


impl PortKind {
    /// Base colour of this kind, used for the port fill and the wire.
    pub open spec fn spec_base_color(self) -> [u8; 3] {
        match self {
            PortKind::Number => [80, 100, 230],
            PortKind::Normalized => [60, 160, 230],
            PortKind::Trigger => [255, 160, 40],
            PortKind::Gate => [220, 180, 60],
            PortKind::Text => [60, 220, 80],
            PortKind::Image => [200, 30, 255],
            PortKind::Audio => [255, 220, 40],
            PortKind::Color => [220, 220, 220],
            PortKind::Generic => [140, 140, 140],
        }
    }

    pub fn base_color(&self) -> (r: [u8; 3])
        ensures
            r == self.spec_base_color(),
    {
        match self {
            PortKind::Number => [80, 100, 230],
            PortKind::Normalized => [60, 160, 230],
            PortKind::Trigger => [255, 160, 40],
            PortKind::Gate => [220, 180, 60],
            PortKind::Text => [60, 220, 80],
            PortKind::Image => [200, 30, 255],
            PortKind::Audio => [255, 220, 40],
            PortKind::Color => [220, 220, 220],
            PortKind::Generic => [140, 140, 140],
        }
    }

    /// Shape used to draw the port: 0 circle, 1 rounded square, 2 triangle,
    /// 3 diamond, 4 half-moon.
    pub open spec fn spec_shape_id(self) -> u8 {
        match self {
            PortKind::Trigger => 2,
            PortKind::Gate => 4,
            PortKind::Text => 1,
            PortKind::Image => 3,
            _ => 0,
        }
    }

    pub fn shape_id(&self) -> (r: u8)
        ensures
            r == self.spec_shape_id(),
    {
        match self {
            PortKind::Number => 0,
            PortKind::Normalized => 0,
            PortKind::Trigger => 2,
            PortKind::Gate => 4,
            PortKind::Text => 1,
            PortKind::Image => 3,
            PortKind::Audio => 0,
            PortKind::Color => 0,
            PortKind::Generic => 0,
        }
    }
}

/// Whether two kinds may be paired by the wire-and-Tab filtered node menu: equal
/// kinds, two numeric kinds, or Generic with a numeric or Text kind.
pub open spec fn spec_port_kinds_compatible(a: PortKind, b: PortKind) -> bool {
    ||| a == b
    ||| (is_numeric_kind(a) && is_numeric_kind(b))
    ||| (a == PortKind::Generic && (is_numeric_kind(b) || b == PortKind::Text))
    ||| (b == PortKind::Generic && (is_numeric_kind(a) || a == PortKind::Text))
}

fn number_like(k: PortKind) -> (r: bool)
    ensures
        r == is_numeric_kind(k),
{
    matches!(k, PortKind::Number | PortKind::Normalized | PortKind::Trigger | PortKind::Gate | PortKind::Color)
}

pub fn port_kinds_compatible(a: PortKind, b: PortKind) -> (r: bool)
    ensures
        r == spec_port_kinds_compatible(a, b),
{
    if a == b {
        return true;
    }
    if number_like(a) && number_like(b) {
        return true;
    }
    if a == PortKind::Generic {
        return number_like(b) || b == PortKind::Text;
    }
    if b == PortKind::Generic {
        return number_like(a) || a == PortKind::Text;
    }
    false
}

/// A port: its display name and its kind.
#[derive(Debug)]
pub struct PortDef {
    pub name: String,
    pub kind: PortKind,
}

impl Clone for PortDef {
    fn clone(&self) -> (r: Self)
        ensures
            r == *self,
    {
        PortDef { name: self.name.clone(), kind: self.kind }
    }
}

impl PortDef {
    /// A port with a fixed name.
    pub fn new(name: &str, kind: PortKind) -> (r: PortDef)
        ensures
            r.name@ == name@,
            r.kind == kind,
    {
        PortDef { name: name.to_owned(), kind }
    }

    /// A port with a name computed at run time.
    pub fn dynamic(name: String, kind: PortKind) -> (r: PortDef)
        ensures
            r.name == name,
            r.kind == kind,
    {
        PortDef { name, kind }
    }
}

/// What a MIDI output node sends.
#[derive(Debug, Clone, Copy, PartialEq, Eq, Structural)]
pub enum MidiMode {
    Note,
    CC,
}

/// The wiring rules: Generic attaches to everything; the numeric kinds (Number,
/// Normalized, Trigger, Gate, Color) all interconnect; Audio, Image and Text
/// attach only to their own kind or to Generic; and a wire that may go one way
/// may go the other.
pub proof fn law_port_compatibility(a: PortKind, b: PortKind)
    ensures
        PortKind::spec_compatible(PortKind::Generic, b) && PortKind::spec_compatible(a, PortKind::Generic),
        is_numeric_kind(a) && is_numeric_kind(b) ==> PortKind::spec_compatible(a, b),
        (a == PortKind::Audio || a == PortKind::Image || a == PortKind::Text) ==> (PortKind::spec_compatible(a, b)
            <==> (b == a || b == PortKind::Generic)),
        PortKind::spec_compatible(a, b) == PortKind::spec_compatible(b, a),
        spec_port_kinds_compatible(a, b) == spec_port_kinds_compatible(b, a),
{
}

/// The colour of every port kind, as the port table gives it.
pub proof fn law_port_colors(k: PortKind)
    ensures
        match k {
            PortKind::Number => k.spec_base_color() == [80u8, 100u8, 230u8],
            PortKind::Normalized => k.spec_base_color() == [60u8, 160u8, 230u8],
            PortKind::Trigger => k.spec_base_color() == [255u8, 160u8, 40u8],
            PortKind::Gate => k.spec_base_color() == [220u8, 180u8, 60u8],
            PortKind::Text => k.spec_base_color() == [60u8, 220u8, 80u8],
            PortKind::Image => k.spec_base_color() == [200u8, 30u8, 255u8],
            PortKind::Audio => k.spec_base_color() == [255u8, 220u8, 40u8],
            PortKind::Color => k.spec_base_color() == [220u8, 220u8, 220u8],
            PortKind::Generic => k.spec_base_color() == [140u8, 140u8, 140u8],
        },
{
}

/// The shape drawn for every port kind, as the port table gives it.
pub proof fn law_port_shapes(k: PortKind)
    ensures
        match k {
            PortKind::Trigger => k.spec_shape_id() == 2,
            PortKind::Gate => k.spec_shape_id() == 4,
            PortKind::Text => k.spec_shape_id() == 1,
            PortKind::Image => k.spec_shape_id() == 3,
            _ => k.spec_shape_id() == 0,
        },
{
}

/// The wiring rules, kind by kind: a Generic port joins anything; Number,
/// Normalized, Trigger, Gate and Color ports join one another; an Audio, Image or
/// Text port joins only its own kind; nothing else joins.
pub proof fn law_wiring_rules(a: PortKind, b: PortKind)
    ensures
        PortKind::spec_compatible(a, b) <==> (a == PortKind::Generic || b == PortKind::Generic || ((a == PortKind::Number || a == PortKind::Normalized || a == PortKind::Trigger || a == PortKind::Gate || a == PortKind::Color) && (b == PortKind::Number || b == PortKind::Normalized || b == PortKind::Trigger || b == PortKind::Gate || b == PortKind::Color))
            || (a == b && (a == PortKind::Audio || a == PortKind::Image || a == PortKind::Text))),
        spec_port_kinds_compatible(a, b) <==> (a == b || ((a == PortKind::Number || a == PortKind::Normalized || a == PortKind::Trigger || a == PortKind::Gate || a == PortKind::Color) && (b == PortKind::Number || b == PortKind::Normalized || b == PortKind::Trigger || b == PortKind::Gate || b == PortKind::Color)) || (a == PortKind::Generic && ((b == PortKind::Number || b == PortKind::Normalized || b == PortKind::Trigger || b == PortKind::Gate || b == PortKind::Color)
            || b == PortKind::Text)) || (b == PortKind::Generic && ((a == PortKind::Number || a == PortKind::Normalized || a == PortKind::Trigger || a == PortKind::Gate || a == PortKind::Color) || a == PortKind::Text))),
{
}

} // verus!
