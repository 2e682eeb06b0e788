use crate::eval::{contains_text, text_contains};
use crate::graph::{source_of, Graph, NodeId};
use crate::input::{lower_text, to_lower};
use crate::ports::{MidiMode, PortDef, PortKind};
use crate::text::{char_string, concat_text, decimal, labelled, text_eq};
use vstd::prelude::*;

verus! {

/// The kind of a node, with the settings that decide its ports.
pub enum NodeType {
    Slider,
    Display,
    VisualOutput,
    Add,
    Multiply,
    /// Formula node; one number input per variable letter of the formula.
    Math { variables: Vec<char> },
    File,
    FolderBrowser,
    TextEditor,
    /// Shader viewer; one input per uniform, three (R, G, B) for a `color` uniform.
    WgslViewer { uniform_names: Vec<String>, uniform_types: Vec<String> },
    MouseTracker,
    Time,
    Color,
    /// MIDI sender; its inputs depend on whether it sends notes or controller values.
    MidiOut { mode: MidiMode },
    MidiIn,
    Theme,
    Serial,
    Comment,
    /// Script node; an `Exec` trigger input unless it runs continuously.
    Script { input_names: Vec<String>, output_names: Vec<String>, continuous: bool },
    Console,
    Monitor,
    /// OSC sender with `arg_count` argument inputs.
    OscOut { arg_count: usize },
    /// OSC receiver with `arg_count` argument outputs.
    OscIn { arg_count: usize },
    KeyInput,
    Palette,
    HttpRequest,
    AiRequest,
    JsonExtract,
    FileMenu,
    ZoomControl,
    /// Hardware hub; outputs for each detected (device type, id).
    ObHub { detected_devices: Vec<(String, u8)> },
    ObJoystick,
    ObEncoder,
    Synth,
    AudioPlayer,
    AudioInput,
    AudioAnalyzer,
    AudioDevice,
    AudioFx,
    AudioDelay,
    AudioDistortion,
    AudioLowPass,
    AudioHighPass,
    AudioGain,
    AudioReverb,
    AudioEq,
    Speaker,
    /// Mixer with an audio and a gain input per channel.
    AudioMixer { channel_count: usize },
    /// Plugin node with named inputs and outputs.
    RustPlugin { input_names: Vec<String>, output_names: Vec<String> },
    McpServer,
    Profiler,
    HtmlViewer,
    ImageNode,
    ImageEffects,
    Crop,
    Blend,
    Curve,
    Draw,
    Noise,
    ColorCurves,
    VideoPlayer,
    Camera,
    MlModel,
    Gate,
    Timer,
    MapRange,
    /// Template formatter with `arg_count` argument inputs.
    StringFormat { arg_count: usize },
    SampleHold,
    Select,
}

/// The name and kind of each port of a list.
pub open spec fn port_views(v: Seq<PortDef>) -> Seq<(Seq<char>, PortKind)> {
    v.map_values(|p: PortDef| (p.name@, p.kind))
}

/// The views of a list of texts.
pub open spec fn texts(v: Seq<String>) -> Seq<Seq<char>> {
    v.map_values(|s: String| s@)
}

impl NodeType {
    pub open spec fn spec_title(&self) -> Seq<char> {
        match self {
            NodeType::Slider => "Slider"@,
            NodeType::Display => "Display"@,
            NodeType::VisualOutput => "Visual Output"@,
            NodeType::Add => "Add"@,
            NodeType::Multiply => "Multiply"@,
            NodeType::Math { .. } => "Math"@,
            NodeType::File => "File"@,
            NodeType::FolderBrowser => "Folder"@,
            NodeType::TextEditor => "Text Editor"@,
            NodeType::WgslViewer { .. } => "WGSL Viewer"@,
            NodeType::MouseTracker => "Mouse Tracker"@,
            NodeType::Time => "Time"@,
            NodeType::Color => "Color"@,
            NodeType::MidiOut { .. } => "MIDI Out"@,
            NodeType::MidiIn => "MIDI In"@,
            NodeType::Theme => "Theme"@,
            NodeType::Serial => "Serial"@,
            NodeType::Comment => "Comment"@,
            NodeType::Script { .. } => "Script"@,
            NodeType::Console => "Console"@,
            NodeType::Monitor => "Monitor"@,
            NodeType::OscOut { .. } => "OSC Out"@,
            NodeType::OscIn { .. } => "OSC In"@,
            NodeType::KeyInput => "Keyboard Input"@,
            NodeType::Palette => "Node Palette"@,
            NodeType::HttpRequest => "HTTP Request"@,
            NodeType::AiRequest => "AI Request"@,
            NodeType::JsonExtract => "JSON Extract"@,
            NodeType::FileMenu => "File"@,
            NodeType::ZoomControl => "Zoom"@,
            NodeType::ObHub { .. } => "OB Hub"@,
            NodeType::ObJoystick => "OB Joystick"@,
            NodeType::ObEncoder => "OB Encoder"@,
            NodeType::Synth => "Synth"@,
            NodeType::AudioPlayer => "Audio Player"@,
            NodeType::AudioInput => "Audio Input"@,
            NodeType::AudioAnalyzer => "Audio Analyzer"@,
            NodeType::AudioDevice => "Audio Device"@,
            NodeType::AudioFx => "Audio FX"@,
            NodeType::AudioDelay => "Delay"@,
            NodeType::AudioDistortion => "Distortion"@,
            NodeType::AudioLowPass => "Low Pass"@,
            NodeType::AudioHighPass => "High Pass"@,
            NodeType::AudioGain => "Gain"@,
            NodeType::AudioReverb => "Reverb"@,
            NodeType::AudioEq => "EQ"@,
            NodeType::Speaker => "Speaker"@,
            NodeType::AudioMixer { .. } => "Mixer"@,
            NodeType::RustPlugin { .. } => "Rust Plugin"@,
            NodeType::McpServer => "MCP Server"@,
            NodeType::Profiler => "System Profiler"@,
            NodeType::HtmlViewer => "HTML Viewer"@,
            NodeType::ImageNode => "Image"@,
            NodeType::ImageEffects => "Image Effects"@,
            NodeType::Crop => "Crop"@,
            NodeType::Blend => "Blend"@,
            NodeType::Curve => "Curve"@,
            NodeType::Draw => "Draw"@,
            NodeType::Noise => "Noise"@,
            NodeType::ColorCurves => "Color Curves"@,
            NodeType::VideoPlayer => "Video Player"@,
            NodeType::Camera => "Camera"@,
            NodeType::MlModel => "ML Model"@,
            NodeType::Gate => "Gate"@,
            NodeType::Timer => "Timer"@,
            NodeType::MapRange => "Map/Range"@,
            NodeType::StringFormat { .. } => "String Format"@,
            NodeType::SampleHold => "Sample & Hold"@,
            NodeType::Select => "Select"@,
        }
    }

    /// The title shown on the node's window.
    pub fn title(&self) -> (r: &'static str)
        ensures
            r@ == self.spec_title(),
    {
        match self {
            NodeType::Slider => "Slider",
            NodeType::Display => "Display",
            NodeType::VisualOutput => "Visual Output",
            NodeType::Add => "Add",
            NodeType::Multiply => "Multiply",
            NodeType::Math { .. } => "Math",
            NodeType::File => "File",
            NodeType::FolderBrowser => "Folder",
            NodeType::TextEditor => "Text Editor",
            NodeType::WgslViewer { .. } => "WGSL Viewer",
            NodeType::MouseTracker => "Mouse Tracker",
            NodeType::Time => "Time",
            NodeType::Color => "Color",
            NodeType::MidiOut { .. } => "MIDI Out",
            NodeType::MidiIn => "MIDI In",
            NodeType::Theme => "Theme",
            NodeType::Serial => "Serial",
            NodeType::Comment => "Comment",
            NodeType::Script { .. } => "Script",
            NodeType::Console => "Console",
            NodeType::Monitor => "Monitor",
            NodeType::OscOut { .. } => "OSC Out",
            NodeType::OscIn { .. } => "OSC In",
            NodeType::KeyInput => "Keyboard Input",
            NodeType::Palette => "Node Palette",
            NodeType::HttpRequest => "HTTP Request",
            NodeType::AiRequest => "AI Request",
            NodeType::JsonExtract => "JSON Extract",
            NodeType::FileMenu => "File",
            NodeType::ZoomControl => "Zoom",
            NodeType::ObHub { .. } => "OB Hub",
            NodeType::ObJoystick => "OB Joystick",
            NodeType::ObEncoder => "OB Encoder",
            NodeType::Synth => "Synth",
            NodeType::AudioPlayer => "Audio Player",
            NodeType::AudioInput => "Audio Input",
            NodeType::AudioAnalyzer => "Audio Analyzer",
            NodeType::AudioDevice => "Audio Device",
            NodeType::AudioFx => "Audio FX",
            NodeType::AudioDelay => "Delay",
            NodeType::AudioDistortion => "Distortion",
            NodeType::AudioLowPass => "Low Pass",
            NodeType::AudioHighPass => "High Pass",
            NodeType::AudioGain => "Gain",
            NodeType::AudioReverb => "Reverb",
            NodeType::AudioEq => "EQ",
            NodeType::Speaker => "Speaker",
            NodeType::AudioMixer { .. } => "Mixer",
            NodeType::RustPlugin { .. } => "Rust Plugin",
            NodeType::McpServer => "MCP Server",
            NodeType::Profiler => "System Profiler",
            NodeType::HtmlViewer => "HTML Viewer",
            NodeType::ImageNode => "Image",
            NodeType::ImageEffects => "Image Effects",
            NodeType::Crop => "Crop",
            NodeType::Blend => "Blend",
            NodeType::Curve => "Curve",
            NodeType::Draw => "Draw",
            NodeType::Noise => "Noise",
            NodeType::ColorCurves => "Color Curves",
            NodeType::VideoPlayer => "Video Player",
            NodeType::Camera => "Camera",
            NodeType::MlModel => "ML Model",
            NodeType::Gate => "Gate",
            NodeType::Timer => "Timer",
            NodeType::MapRange => "Map/Range",
            NodeType::StringFormat { .. } => "String Format",
            NodeType::SampleHold => "Sample & Hold",
            NodeType::Select => "Select",
        }
    }

    pub open spec fn spec_color_hint(&self) -> [u8; 3] {
        match self {
            NodeType::Slider => [80u8, 160u8, 255u8],
            NodeType::Display => [100u8, 200u8, 100u8],
            NodeType::VisualOutput => [200u8, 100u8, 255u8],
            NodeType::Add => [200u8, 160u8, 80u8],
            NodeType::Multiply => [200u8, 160u8, 80u8],
            NodeType::Math { .. } => [200u8, 160u8, 80u8],
            NodeType::File => [180u8, 120u8, 200u8],
            NodeType::FolderBrowser => [140u8, 160u8, 200u8],
            NodeType::TextEditor => [160u8, 140u8, 220u8],
            NodeType::WgslViewer { .. } => [220u8, 140u8, 60u8],
            NodeType::MouseTracker => [200u8, 100u8, 100u8],
            NodeType::Time => [180u8, 220u8, 100u8],
            NodeType::Color => [255u8, 120u8, 180u8],
            NodeType::MidiOut { .. } => [60u8, 180u8, 180u8],
            NodeType::MidiIn => [80u8, 200u8, 160u8],
            NodeType::Theme => [255u8, 180u8, 80u8],
            NodeType::Serial => [200u8, 180u8, 60u8],
            NodeType::Comment => [140u8, 140u8, 140u8],
            NodeType::Script { .. } => [150u8, 100u8, 200u8],
            NodeType::Console => [100u8, 150u8, 100u8],
            NodeType::Monitor => [80u8, 200u8, 200u8],
            NodeType::OscOut { .. } => [220u8, 120u8, 60u8],
            NodeType::OscIn { .. } => [60u8, 160u8, 220u8],
            NodeType::KeyInput => [220u8, 180u8, 60u8],
            NodeType::Palette => [120u8, 120u8, 180u8],
            NodeType::HttpRequest => [60u8, 180u8, 120u8],
            NodeType::AiRequest => [180u8, 100u8, 255u8],
            NodeType::JsonExtract => [200u8, 160u8, 60u8],
            NodeType::FileMenu => [200u8, 200u8, 200u8],
            NodeType::ZoomControl => [160u8, 160u8, 160u8],
            NodeType::ObHub { .. } => [40u8, 180u8, 120u8],
            NodeType::ObJoystick => [80u8, 160u8, 255u8],
            NodeType::ObEncoder => [200u8, 140u8, 80u8],
            NodeType::Synth => [100u8, 220u8, 180u8],
            NodeType::AudioPlayer => [180u8, 100u8, 220u8],
            NodeType::AudioInput => [220u8, 80u8, 120u8],
            NodeType::AudioAnalyzer => [255u8, 180u8, 60u8],
            NodeType::AudioDevice => [220u8, 180u8, 100u8],
            NodeType::AudioFx => [200u8, 100u8, 160u8],
            NodeType::AudioDelay => [180u8, 120u8, 200u8],
            NodeType::AudioDistortion => [220u8, 80u8, 80u8],
            NodeType::AudioLowPass => [100u8, 160u8, 200u8],
            NodeType::AudioHighPass => [200u8, 160u8, 100u8],
            NodeType::AudioGain => [160u8, 200u8, 100u8],
            NodeType::AudioReverb => [120u8, 140u8, 220u8],
            NodeType::AudioEq => [200u8, 160u8, 255u8],
            NodeType::Speaker => [80u8, 200u8, 80u8],
            NodeType::AudioMixer { .. } => [160u8, 120u8, 220u8],
            NodeType::RustPlugin { .. } => [255u8, 120u8, 50u8],
            NodeType::McpServer => [120u8, 200u8, 255u8],
            NodeType::Profiler => [255u8, 160u8, 60u8],
            NodeType::HtmlViewer => [60u8, 180u8, 220u8],
            NodeType::ImageNode => [200u8, 140u8, 220u8],
            NodeType::ImageEffects => [180u8, 120u8, 200u8],
            NodeType::Crop => [160u8, 140u8, 200u8],
            NodeType::Blend => [160u8, 100u8, 180u8],
            NodeType::Curve => [100u8, 200u8, 160u8],
            NodeType::Draw => [200u8, 180u8, 100u8],
            NodeType::Noise => [140u8, 180u8, 140u8],
            NodeType::ColorCurves => [220u8, 140u8, 160u8],
            NodeType::VideoPlayer => [220u8, 80u8, 140u8],
            NodeType::Camera => [80u8, 200u8, 140u8],
            NodeType::MlModel => [200u8, 80u8, 255u8],
            NodeType::Gate => [220u8, 180u8, 60u8],
            NodeType::Timer => [100u8, 200u8, 180u8],
            NodeType::MapRange => [180u8, 140u8, 220u8],
            NodeType::StringFormat { .. } => [220u8, 160u8, 100u8],
            NodeType::SampleHold => [120u8, 200u8, 160u8],
            NodeType::Select => [200u8, 160u8, 120u8],
        }
    }

    /// The accent colour of the node's title bar.
    pub fn color_hint(&self) -> (r: [u8; 3])
        ensures
            r == self.spec_color_hint(),
    {
        match self {
            NodeType::Slider => [80, 160, 255],
            NodeType::Display => [100, 200, 100],
            NodeType::VisualOutput => [200, 100, 255],
            NodeType::Add => [200, 160, 80],
            NodeType::Multiply => [200, 160, 80],
            NodeType::Math { .. } => [200, 160, 80],
            NodeType::File => [180, 120, 200],
            NodeType::FolderBrowser => [140, 160, 200],
            NodeType::TextEditor => [160, 140, 220],
            NodeType::WgslViewer { .. } => [220, 140, 60],
            NodeType::MouseTracker => [200, 100, 100],
            NodeType::Time => [180, 220, 100],
            NodeType::Color => [255, 120, 180],
            NodeType::MidiOut { .. } => [60, 180, 180],
            NodeType::MidiIn => [80, 200, 160],
            NodeType::Theme => [255, 180, 80],
            NodeType::Serial => [200, 180, 60],
            NodeType::Comment => [140, 140, 140],
            NodeType::Script { .. } => [150, 100, 200],
            NodeType::Console => [100, 150, 100],
            NodeType::Monitor => [80, 200, 200],
            NodeType::OscOut { .. } => [220, 120, 60],
            NodeType::OscIn { .. } => [60, 160, 220],
            NodeType::KeyInput => [220, 180, 60],
            NodeType::Palette => [120, 120, 180],
            NodeType::HttpRequest => [60, 180, 120],
            NodeType::AiRequest => [180, 100, 255],
            NodeType::JsonExtract => [200, 160, 60],
            NodeType::FileMenu => [200, 200, 200],
            NodeType::ZoomControl => [160, 160, 160],
            NodeType::ObHub { .. } => [40, 180, 120],
            NodeType::ObJoystick => [80, 160, 255],
            NodeType::ObEncoder => [200, 140, 80],
            NodeType::Synth => [100, 220, 180],
            NodeType::AudioPlayer => [180, 100, 220],
            NodeType::AudioInput => [220, 80, 120],
            NodeType::AudioAnalyzer => [255, 180, 60],
            NodeType::AudioDevice => [220, 180, 100],
            NodeType::AudioFx => [200, 100, 160],
            NodeType::AudioDelay => [180, 120, 200],
            NodeType::AudioDistortion => [220, 80, 80],
            NodeType::AudioLowPass => [100, 160, 200],
            NodeType::AudioHighPass => [200, 160, 100],
            NodeType::AudioGain => [160, 200, 100],
            NodeType::AudioReverb => [120, 140, 220],
            NodeType::AudioEq => [200, 160, 255],
            NodeType::Speaker => [80, 200, 80],
            NodeType::AudioMixer { .. } => [160, 120, 220],
            NodeType::RustPlugin { .. } => [255, 120, 50],
            NodeType::McpServer => [120, 200, 255],
            NodeType::Profiler => [255, 160, 60],
            NodeType::HtmlViewer => [60, 180, 220],
            NodeType::ImageNode => [200, 140, 220],
            NodeType::ImageEffects => [180, 120, 200],
            NodeType::Crop => [160, 140, 200],
            NodeType::Blend => [160, 100, 180],
            NodeType::Curve => [100, 200, 160],
            NodeType::Draw => [200, 180, 100],
            NodeType::Noise => [140, 180, 140],
            NodeType::ColorCurves => [220, 140, 160],
            NodeType::VideoPlayer => [220, 80, 140],
            NodeType::Camera => [80, 200, 140],
            NodeType::MlModel => [200, 80, 255],
            NodeType::Gate => [220, 180, 60],
            NodeType::Timer => [100, 200, 180],
            NodeType::MapRange => [180, 140, 220],
            NodeType::StringFormat { .. } => [220, 160, 100],
            NodeType::SampleHold => [120, 200, 160],
            NodeType::Select => [200, 160, 120],
        }
    }

    pub open spec fn spec_inline_ports(&self) -> bool {
        match self {
            NodeType::Slider => true,
            NodeType::Display => true,
            NodeType::VisualOutput => true,
            NodeType::Math { .. } => true,
            NodeType::WgslViewer { .. } => true,
            NodeType::Color => true,
            NodeType::MidiOut { .. } => true,
            NodeType::Theme => true,
            NodeType::HttpRequest => true,
            NodeType::AiRequest => true,
            NodeType::Synth => true,
            NodeType::AudioPlayer => true,
            NodeType::AudioInput => true,
            NodeType::AudioDelay => true,
            NodeType::AudioDistortion => true,
            NodeType::AudioLowPass => true,
            NodeType::AudioHighPass => true,
            NodeType::AudioGain => true,
            NodeType::AudioReverb => true,
            NodeType::AudioEq => true,
            NodeType::Speaker => true,
            NodeType::AudioMixer { .. } => true,
            NodeType::ImageEffects => true,
            NodeType::Crop => true,
            NodeType::Blend => true,
            NodeType::Curve => true,
            NodeType::Gate => true,
            NodeType::Timer => true,
            NodeType::MapRange => true,
            NodeType::StringFormat { .. } => true,
            NodeType::SampleHold => true,
            NodeType::Select => true,
            _ => false,
        }
    }

    /// Whether the node draws its ports inside its content rather than in lists above and below it.
    pub fn inline_ports(&self) -> (r: bool)
        ensures
            r == self.spec_inline_ports(),
    {
        match self {
            NodeType::Slider => true,
            NodeType::Display => true,
            NodeType::VisualOutput => true,
            NodeType::Math { .. } => true,
            NodeType::WgslViewer { .. } => true,
            NodeType::Color => true,
            NodeType::MidiOut { .. } => true,
            NodeType::Theme => true,
            NodeType::HttpRequest => true,
            NodeType::AiRequest => true,
            NodeType::Synth => true,
            NodeType::AudioPlayer => true,
            NodeType::AudioInput => true,
            NodeType::AudioDelay => true,
            NodeType::AudioDistortion => true,
            NodeType::AudioLowPass => true,
            NodeType::AudioHighPass => true,
            NodeType::AudioGain => true,
            NodeType::AudioReverb => true,
            NodeType::AudioEq => true,
            NodeType::Speaker => true,
            NodeType::AudioMixer { .. } => true,
            NodeType::ImageEffects => true,
            NodeType::Crop => true,
            NodeType::Blend => true,
            NodeType::Curve => true,
            NodeType::Gate => true,
            NodeType::Timer => true,
            NodeType::MapRange => true,
            NodeType::StringFormat { .. } => true,
            NodeType::SampleHold => true,
            NodeType::Select => true,
            _ => false,
        }
    }

    pub open spec fn spec_custom_render(&self) -> bool {
        match self {
            NodeType::Slider => true,
            NodeType::Display => true,
            NodeType::Comment => true,
            _ => false,
        }
    }

    /// Whether the node draws itself completely instead of inside a standard window.
    pub fn custom_render(&self) -> (r: bool)
        ensures
            r == self.spec_custom_render(),
    {
        match self {
            NodeType::Slider => true,
            NodeType::Display => true,
            NodeType::Comment => true,
            _ => false,
        }
    }

    pub open spec fn spec_inputs(&self) -> Seq<(Seq<char>, PortKind)> {
        match self {
            NodeType::Slider => seq![("In"@, PortKind::Number)],
            NodeType::Display => seq![("Value"@, PortKind::Generic)],
            NodeType::VisualOutput => seq![("Image"@, PortKind::Image)],
            NodeType::Add => seq![("A"@, PortKind::Number), ("B"@, PortKind::Number)],
            NodeType::Multiply => seq![("A"@, PortKind::Number), ("B"@, PortKind::Number)],
            NodeType::Math { variables, .. } => variables@.map_values(|c: char| (seq![c], PortKind::Number)),
            NodeType::File => Seq::empty(),
            NodeType::FolderBrowser => Seq::empty(),
            NodeType::TextEditor => seq![("Text In"@, PortKind::Text)],
            NodeType::WgslViewer { uniform_names, uniform_types, .. } => seq![("WGSL"@, PortKind::Text)] + wgsl_uniform_ports(texts(uniform_names@), texts(uniform_types@), uniform_names@.len()),
            NodeType::MouseTracker => Seq::empty(),
            NodeType::Time => Seq::empty(),
            NodeType::Color => seq![("R"@, PortKind::Color), ("G"@, PortKind::Color), ("B"@, PortKind::Color)],
            NodeType::MidiOut { mode, .. } => match mode { MidiMode::Note => seq![("Channel"@, PortKind::Number), ("Note"@, PortKind::Number), ("Velocity"@, PortKind::Number)], MidiMode::CC => seq![("Channel"@, PortKind::Number), ("CC#"@, PortKind::Number), ("Value"@, PortKind::Number)] },
            NodeType::MidiIn => Seq::empty(),
            NodeType::Theme => Seq::empty(),
            NodeType::Serial => seq![("Send"@, PortKind::Text)],
            NodeType::Comment => Seq::empty(),
            NodeType::Script { input_names, continuous, .. } => script_head(*continuous) + named_ports(texts(input_names@), PortKind::Generic),
            NodeType::Console => Seq::empty(),
            NodeType::Monitor => Seq::empty(),
            NodeType::OscOut { arg_count, .. } => arg_ports(*arg_count as nat),
            NodeType::OscIn { .. } => Seq::empty(),
            NodeType::KeyInput => Seq::empty(),
            NodeType::Palette => Seq::empty(),
            NodeType::HttpRequest => seq![("URL"@, PortKind::Text), ("Body"@, PortKind::Text), ("Headers"@, PortKind::Text)],
            NodeType::AiRequest => seq![("System"@, PortKind::Text), ("Prompt"@, PortKind::Text), ("Send"@, PortKind::Trigger)],
            NodeType::JsonExtract => seq![("JSON"@, PortKind::Text)],
            NodeType::FileMenu => Seq::empty(),
            NodeType::ZoomControl => seq![("Zoom"@, PortKind::Number)],
            NodeType::ObHub { .. } => seq![("Command"@, PortKind::Text)],
            NodeType::ObJoystick => Seq::empty(),
            NodeType::ObEncoder => Seq::empty(),
            NodeType::Synth => seq![("Freq"@, PortKind::Number), ("Amp"@, PortKind::Normalized), ("Gate"@, PortKind::Gate), ("FM Wt"@, PortKind::Normalized)],
            NodeType::AudioPlayer => seq![("Play"@, PortKind::Trigger), ("Volume"@, PortKind::Normalized), ("Seek"@, PortKind::Normalized), ("Speed"@, PortKind::Number)],
            NodeType::AudioInput => seq![("Gain"@, PortKind::Normalized)],
            NodeType::AudioAnalyzer => seq![("Audio"@, PortKind::Audio)],
            NodeType::AudioDevice => Seq::empty(),
            NodeType::AudioFx => seq![("Source"@, PortKind::Audio)],
            NodeType::AudioDelay => seq![("Audio"@, PortKind::Audio), ("Time"@, PortKind::Number), ("Feedback"@, PortKind::Normalized)],
            NodeType::AudioDistortion => seq![("Audio"@, PortKind::Audio), ("Drive"@, PortKind::Number)],
            NodeType::AudioLowPass => seq![("Audio"@, PortKind::Audio), ("Cutoff"@, PortKind::Number)],
            NodeType::AudioHighPass => seq![("Audio"@, PortKind::Audio), ("Cutoff"@, PortKind::Number)],
            NodeType::AudioGain => seq![("Audio"@, PortKind::Audio), ("Level"@, PortKind::Number)],
            NodeType::AudioReverb => seq![("Audio"@, PortKind::Audio), ("Room"@, PortKind::Normalized), ("Damp"@, PortKind::Normalized), ("Mix"@, PortKind::Normalized)],
            NodeType::AudioEq => seq![("Audio"@, PortKind::Audio)],
            NodeType::Speaker => seq![("Audio"@, PortKind::Audio), ("Volume"@, PortKind::Normalized)],
            NodeType::AudioMixer { channel_count, .. } => mixer_ports(*channel_count as nat),
            NodeType::RustPlugin { input_names, .. } => named_ports(texts(input_names@), PortKind::Generic),
            NodeType::McpServer => Seq::empty(),
            NodeType::Profiler => Seq::empty(),
            NodeType::HtmlViewer => seq![("HTML"@, PortKind::Text)],
            NodeType::ImageNode => seq![("Image In"@, PortKind::Image)],
            NodeType::ImageEffects => seq![("Image"@, PortKind::Image), ("Brightness"@, PortKind::Normalized), ("Contrast"@, PortKind::Normalized), ("Saturation"@, PortKind::Normalized), ("Hue"@, PortKind::Number), ("Exposure"@, PortKind::Number), ("Gamma"@, PortKind::Number)],
            NodeType::Crop => seq![("Image"@, PortKind::Image), ("Top"@, PortKind::Normalized), ("Left"@, PortKind::Normalized), ("Bottom"@, PortKind::Normalized), ("Right"@, PortKind::Normalized)],
            NodeType::Blend => seq![("A"@, PortKind::Image), ("B"@, PortKind::Image), ("Mix"@, PortKind::Normalized)],
            NodeType::Curve => seq![("X"@, PortKind::Normalized), ("Trigger"@, PortKind::Trigger), ("Speed"@, PortKind::Number), ("Gate"@, PortKind::Gate)],
            NodeType::Draw => Seq::empty(),
            NodeType::Noise => seq![("Seed"@, PortKind::Number), ("Scale"@, PortKind::Number), ("X"@, PortKind::Number), ("Y"@, PortKind::Number)],
            NodeType::ColorCurves => seq![("Image"@, PortKind::Image)],
            NodeType::VideoPlayer => Seq::empty(),
            NodeType::Camera => Seq::empty(),
            NodeType::MlModel => seq![("Image"@, PortKind::Image)],
            NodeType::Gate => seq![("Value"@, PortKind::Number), ("Threshold"@, PortKind::Number)],
            NodeType::Timer => seq![("Interval"@, PortKind::Number), ("BPM"@, PortKind::Number)],
            NodeType::MapRange => seq![("Value"@, PortKind::Number), ("In Min"@, PortKind::Number), ("In Max"@, PortKind::Number), ("Out Min"@, PortKind::Number), ("Out Max"@, PortKind::Number)],
            NodeType::StringFormat { arg_count, .. } => seq![("Template"@, PortKind::Text)] + arg_ports(*arg_count as nat),
            NodeType::SampleHold => seq![("Value"@, PortKind::Generic), ("Trigger"@, PortKind::Trigger)],
            NodeType::Select => seq![("A"@, PortKind::Generic), ("B"@, PortKind::Generic), ("Selector"@, PortKind::Normalized)],
        }
    }

    pub open spec fn spec_outputs(&self) -> Seq<(Seq<char>, PortKind)> {
        match self {
            NodeType::Slider => seq![("Value"@, PortKind::Number)],
            NodeType::Display => Seq::empty(),
            NodeType::VisualOutput => Seq::empty(),
            NodeType::Add => seq![("Result"@, PortKind::Number)],
            NodeType::Multiply => seq![("Result"@, PortKind::Number)],
            NodeType::Math { .. } => seq![("Result"@, PortKind::Number)],
            NodeType::File => seq![("Content"@, PortKind::Text)],
            NodeType::FolderBrowser => seq![("Path"@, PortKind::Text), ("Name"@, PortKind::Text), ("Content"@, PortKind::Text)],
            NodeType::TextEditor => seq![("Text Out"@, PortKind::Text)],
            NodeType::WgslViewer { .. } => Seq::empty(),
            NodeType::MouseTracker => seq![("X"@, PortKind::Number), ("Y"@, PortKind::Number)],
            NodeType::Time => seq![("Seconds"@, PortKind::Number), ("Beat"@, PortKind::Normalized)],
            NodeType::Color => seq![("R"@, PortKind::Color), ("G"@, PortKind::Color), ("B"@, PortKind::Color)],
            NodeType::MidiOut { .. } => Seq::empty(),
            NodeType::MidiIn => seq![("Channel"@, PortKind::Number), ("Note"@, PortKind::Number), ("Velocity"@, PortKind::Number)],
            NodeType::Theme => Seq::empty(),
            NodeType::Serial => seq![("Received"@, PortKind::Text)],
            NodeType::Comment => Seq::empty(),
            NodeType::Script { output_names, .. } => named_ports(texts(output_names@), PortKind::Generic),
            NodeType::Console => Seq::empty(),
            NodeType::Monitor => seq![("FPS"@, PortKind::Number), ("Frame ms"@, PortKind::Number), ("Nodes"@, PortKind::Number)],
            NodeType::OscOut { .. } => Seq::empty(),
            NodeType::OscIn { arg_count, .. } => arg_ports(*arg_count as nat),
            NodeType::KeyInput => seq![("Trigger"@, PortKind::Trigger), ("Held"@, PortKind::Gate), ("Toggle"@, PortKind::Gate)],
            NodeType::Palette => Seq::empty(),
            NodeType::HttpRequest => seq![("Response"@, PortKind::Text), ("Status"@, PortKind::Text)],
            NodeType::AiRequest => seq![("Response"@, PortKind::Text), ("Status"@, PortKind::Text)],
            NodeType::JsonExtract => seq![("Value"@, PortKind::Generic)],
            NodeType::FileMenu => Seq::empty(),
            NodeType::ZoomControl => seq![("Zoom"@, PortKind::Number)],
            NodeType::ObHub { detected_devices, .. } => ob_hub_ports(detected_devices@),
            NodeType::ObJoystick => seq![("X"@, PortKind::Normalized), ("Y"@, PortKind::Normalized), ("Button"@, PortKind::Gate)],
            NodeType::ObEncoder => seq![("Turn"@, PortKind::Number), ("Click"@, PortKind::Gate), ("Position"@, PortKind::Number)],
            NodeType::Synth => seq![("Audio"@, PortKind::Audio)],
            NodeType::AudioPlayer => seq![("Audio"@, PortKind::Audio), ("Progress"@, PortKind::Normalized)],
            NodeType::AudioInput => seq![("Audio"@, PortKind::Audio)],
            NodeType::AudioAnalyzer => seq![("Amp"@, PortKind::Normalized), ("Peak"@, PortKind::Normalized), ("Bass"@, PortKind::Normalized), ("Mid"@, PortKind::Normalized), ("Treble"@, PortKind::Normalized)],
            NodeType::AudioDevice => Seq::empty(),
            NodeType::AudioFx => seq![("Audio"@, PortKind::Audio)],
            NodeType::AudioDelay => seq![("Audio"@, PortKind::Audio)],
            NodeType::AudioDistortion => seq![("Audio"@, PortKind::Audio)],
            NodeType::AudioLowPass => seq![("Audio"@, PortKind::Audio)],
            NodeType::AudioHighPass => seq![("Audio"@, PortKind::Audio)],
            NodeType::AudioGain => seq![("Audio"@, PortKind::Audio)],
            NodeType::AudioReverb => seq![("Audio"@, PortKind::Audio)],
            NodeType::AudioEq => seq![("Audio"@, PortKind::Audio)],
            NodeType::Speaker => Seq::empty(),
            NodeType::AudioMixer { .. } => seq![("Mix"@, PortKind::Audio)],
            NodeType::RustPlugin { output_names, .. } => named_ports(texts(output_names@), PortKind::Generic),
            NodeType::McpServer => Seq::empty(),
            NodeType::Profiler => seq![("FPS"@, PortKind::Number), ("CPU %"@, PortKind::Number), ("RAM %"@, PortKind::Number), ("Proc MB"@, PortKind::Number)],
            NodeType::HtmlViewer => seq![("URL"@, PortKind::Text)],
            NodeType::ImageNode => seq![("Image"@, PortKind::Image)],
            NodeType::ImageEffects => seq![("Image"@, PortKind::Image)],
            NodeType::Crop => seq![("Cropped"@, PortKind::Image)],
            NodeType::Blend => seq![("Image"@, PortKind::Image)],
            NodeType::Curve => seq![("Y"@, PortKind::Normalized), ("Phase"@, PortKind::Normalized), ("End"@, PortKind::Trigger), ("Image"@, PortKind::Image)],
            NodeType::Draw => seq![("Image"@, PortKind::Image), ("Points"@, PortKind::Text)],
            NodeType::Noise => seq![("Value"@, PortKind::Number), ("Image"@, PortKind::Image)],
            NodeType::ColorCurves => seq![("Image"@, PortKind::Image)],
            NodeType::VideoPlayer => seq![("Frame"@, PortKind::Image), ("Progress"@, PortKind::Normalized)],
            NodeType::Camera => seq![("Frame"@, PortKind::Image)],
            NodeType::MlModel => seq![("Annotated"@, PortKind::Image), ("Result"@, PortKind::Text), ("JSON"@, PortKind::Text)],
            NodeType::Gate => seq![("Out"@, PortKind::Number), ("Pass"@, PortKind::Gate)],
            NodeType::Timer => seq![("Trigger"@, PortKind::Trigger), ("Phase"@, PortKind::Normalized), ("BPM"@, PortKind::Number)],
            NodeType::MapRange => seq![("Value"@, PortKind::Number)],
            NodeType::StringFormat { .. } => seq![("Text"@, PortKind::Text)],
            NodeType::SampleHold => seq![("Out"@, PortKind::Generic), ("Trigger"@, PortKind::Trigger)],
            NodeType::Select => seq![("Out"@, PortKind::Generic), ("Active"@, PortKind::Gate)],
        }
    }

}


impl NodeType {
    /// Whether `outputs` is defined: a hub's device types other than `joystick`
    /// and `encoder` must start with a one-byte character, whose text names the
    /// port.
    pub open spec fn outputs_defined(&self) -> bool {
        match self {
            NodeType::ObHub { detected_devices } => forall|i: int|
                0 <= i < detected_devices@.len() ==> device_type_named(#[trigger] detected_devices@[i].0@),
            _ => true,
        }
    }

    /// The input ports, in order.
    #[verifier::rlimit(60)]
    pub fn inputs(&self) -> (r: Vec<PortDef>)
        ensures
            port_views(r@) == self.spec_inputs(),
    {
        match self {
            NodeType::Slider => {
                let r: Vec<PortDef> = vec![PortDef::new("In", PortKind::Number)];
                proof {
                    assert(port_views(r@) =~= seq![("In"@, PortKind::Number)]);
                }
                r
            },
            NodeType::Display => {
                let r: Vec<PortDef> = vec![PortDef::new("Value", PortKind::Generic)];
                proof {
                    assert(port_views(r@) =~= seq![("Value"@, PortKind::Generic)]);
                }
                r
            },
            NodeType::VisualOutput => {
                let r: Vec<PortDef> = vec![PortDef::new("Image", PortKind::Image)];
                proof {
                    assert(port_views(r@) =~= seq![("Image"@, PortKind::Image)]);
                }
                r
            },
            NodeType::Add => {
                let r: Vec<PortDef> = vec![PortDef::new("A", PortKind::Number), PortDef::new("B", PortKind::Number)];
                proof {
                    assert(port_views(r@) =~= seq![("A"@, PortKind::Number), ("B"@, PortKind::Number)]);
                }
                r
            },
            NodeType::Multiply => {
                let r: Vec<PortDef> = vec![PortDef::new("A", PortKind::Number), PortDef::new("B", PortKind::Number)];
                proof {
                    assert(port_views(r@) =~= seq![("A"@, PortKind::Number), ("B"@, PortKind::Number)]);
                }
                r
            },
            NodeType::Math { variables, .. } => char_ports(variables),
            NodeType::File => {
                let r: Vec<PortDef> = Vec::new();
                proof {
                    assert(port_views(r@) =~= Seq::<(Seq<char>, PortKind)>::empty());
                }
                r
            },
            NodeType::FolderBrowser => {
                let r: Vec<PortDef> = Vec::new();
                proof {
                    assert(port_views(r@) =~= Seq::<(Seq<char>, PortKind)>::empty());
                }
                r
            },
            NodeType::TextEditor => {
                let r: Vec<PortDef> = vec![PortDef::new("Text In", PortKind::Text)];
                proof {
                    assert(port_views(r@) =~= seq![("Text In"@, PortKind::Text)]);
                }
                r
            },
            NodeType::WgslViewer { uniform_names, uniform_types, .. } => wgsl_inputs(uniform_names, uniform_types),
            NodeType::MouseTracker => {
                let r: Vec<PortDef> = Vec::new();
                proof {
                    assert(port_views(r@) =~= Seq::<(Seq<char>, PortKind)>::empty());
                }
                r
            },
            NodeType::Time => {
                let r: Vec<PortDef> = Vec::new();
                proof {
                    assert(port_views(r@) =~= Seq::<(Seq<char>, PortKind)>::empty());
                }
                r
            },
            NodeType::Color => color_inputs(),
            NodeType::MidiOut { mode, .. } => midi_out_inputs(*mode),
            NodeType::MidiIn => {
                let r: Vec<PortDef> = Vec::new();
                proof {
                    assert(port_views(r@) =~= Seq::<(Seq<char>, PortKind)>::empty());
                }
                r
            },
            NodeType::Theme => {
                let r: Vec<PortDef> = Vec::new();
                proof {
                    assert(port_views(r@) =~= Seq::<(Seq<char>, PortKind)>::empty());
                }
                r
            },
            NodeType::Serial => {
                let r: Vec<PortDef> = vec![PortDef::new("Send", PortKind::Text)];
                proof {
                    assert(port_views(r@) =~= seq![("Send"@, PortKind::Text)]);
                }
                r
            },
            NodeType::Comment => {
                let r: Vec<PortDef> = Vec::new();
                proof {
                    assert(port_views(r@) =~= Seq::<(Seq<char>, PortKind)>::empty());
                }
                r
            },
            NodeType::Script { input_names, continuous, .. } => named_port_list(script_head_ports(*continuous), input_names, PortKind::Generic),
            NodeType::Console => {
                let r: Vec<PortDef> = Vec::new();
                proof {
                    assert(port_views(r@) =~= Seq::<(Seq<char>, PortKind)>::empty());
                }
                r
            },
            NodeType::Monitor => {
                let r: Vec<PortDef> = Vec::new();
                proof {
                    assert(port_views(r@) =~= Seq::<(Seq<char>, PortKind)>::empty());
                }
                r
            },
            NodeType::OscOut { arg_count, .. } => arg_port_list(Vec::new(), *arg_count),
            NodeType::OscIn { .. } => {
                let r: Vec<PortDef> = Vec::new();
                proof {
                    assert(port_views(r@) =~= Seq::<(Seq<char>, PortKind)>::empty());
                }
                r
            },
            NodeType::KeyInput => {
                let r: Vec<PortDef> = Vec::new();
                proof {
                    assert(port_views(r@) =~= Seq::<(Seq<char>, PortKind)>::empty());
                }
                r
            },
            NodeType::Palette => {
                let r: Vec<PortDef> = Vec::new();
                proof {
                    assert(port_views(r@) =~= Seq::<(Seq<char>, PortKind)>::empty());
                }
                r
            },
            NodeType::HttpRequest => http_request_inputs(),
            NodeType::AiRequest => ai_request_inputs(),
            NodeType::JsonExtract => {
                let r: Vec<PortDef> = vec![PortDef::new("JSON", PortKind::Text)];
                proof {
                    assert(port_views(r@) =~= seq![("JSON"@, PortKind::Text)]);
                }
                r
            },
            NodeType::FileMenu => {
                let r: Vec<PortDef> = Vec::new();
                proof {
                    assert(port_views(r@) =~= Seq::<(Seq<char>, PortKind)>::empty());
                }
                r
            },
            NodeType::ZoomControl => {
                let r: Vec<PortDef> = vec![PortDef::new("Zoom", PortKind::Number)];
                proof {
                    assert(port_views(r@) =~= seq![("Zoom"@, PortKind::Number)]);
                }
                r
            },
            NodeType::ObHub { .. } => {
                let r: Vec<PortDef> = vec![PortDef::new("Command", PortKind::Text)];
                proof {
                    assert(port_views(r@) =~= seq![("Command"@, PortKind::Text)]);
                }
                r
            },
            NodeType::ObJoystick => {
                let r: Vec<PortDef> = Vec::new();
                proof {
                    assert(port_views(r@) =~= Seq::<(Seq<char>, PortKind)>::empty());
                }
                r
            },
            NodeType::ObEncoder => {
                let r: Vec<PortDef> = Vec::new();
                proof {
                    assert(port_views(r@) =~= Seq::<(Seq<char>, PortKind)>::empty());
                }
                r
            },
            NodeType::Synth => synth_inputs(),
            NodeType::AudioPlayer => audio_player_inputs(),
            NodeType::AudioInput => {
                let r: Vec<PortDef> = vec![PortDef::new("Gain", PortKind::Normalized)];
                proof {
                    assert(port_views(r@) =~= seq![("Gain"@, PortKind::Normalized)]);
                }
                r
            },
            NodeType::AudioAnalyzer => {
                let r: Vec<PortDef> = vec![PortDef::new("Audio", PortKind::Audio)];
                proof {
                    assert(port_views(r@) =~= seq![("Audio"@, PortKind::Audio)]);
                }
                r
            },
            NodeType::AudioDevice => {
                let r: Vec<PortDef> = Vec::new();
                proof {
                    assert(port_views(r@) =~= Seq::<(Seq<char>, PortKind)>::empty());
                }
                r
            },
            NodeType::AudioFx => {
                let r: Vec<PortDef> = vec![PortDef::new("Source", PortKind::Audio)];
                proof {
                    assert(port_views(r@) =~= seq![("Source"@, PortKind::Audio)]);
                }
                r
            },
            NodeType::AudioDelay => audio_delay_inputs(),
            NodeType::AudioDistortion => {
                let r: Vec<PortDef> = vec![PortDef::new("Audio", PortKind::Audio), PortDef::new("Drive", PortKind::Number)];
                proof {
                    assert(port_views(r@) =~= seq![("Audio"@, PortKind::Audio), ("Drive"@, PortKind::Number)]);
                }
                r
            },
            NodeType::AudioLowPass => {
                let r: Vec<PortDef> = vec![PortDef::new("Audio", PortKind::Audio), PortDef::new("Cutoff", PortKind::Number)];
                proof {
                    assert(port_views(r@) =~= seq![("Audio"@, PortKind::Audio), ("Cutoff"@, PortKind::Number)]);
                }
                r
            },
            NodeType::AudioHighPass => {
                let r: Vec<PortDef> = vec![PortDef::new("Audio", PortKind::Audio), PortDef::new("Cutoff", PortKind::Number)];
                proof {
                    assert(port_views(r@) =~= seq![("Audio"@, PortKind::Audio), ("Cutoff"@, PortKind::Number)]);
                }
                r
            },
            NodeType::AudioGain => {
                let r: Vec<PortDef> = vec![PortDef::new("Audio", PortKind::Audio), PortDef::new("Level", PortKind::Number)];
                proof {
                    assert(port_views(r@) =~= seq![("Audio"@, PortKind::Audio), ("Level"@, PortKind::Number)]);
                }
                r
            },
            NodeType::AudioReverb => audio_reverb_inputs(),
            NodeType::AudioEq => {
                let r: Vec<PortDef> = vec![PortDef::new("Audio", PortKind::Audio)];
                proof {
                    assert(port_views(r@) =~= seq![("Audio"@, PortKind::Audio)]);
                }
                r
            },
            NodeType::Speaker => {
                let r: Vec<PortDef> = vec![PortDef::new("Audio", PortKind::Audio), PortDef::new("Volume", PortKind::Normalized)];
                proof {
                    assert(port_views(r@) =~= seq![("Audio"@, PortKind::Audio), ("Volume"@, PortKind::Normalized)]);
                }
                r
            },
            NodeType::AudioMixer { channel_count, .. } => mixer_inputs(*channel_count),
            NodeType::RustPlugin { input_names, .. } => named_port_list(Vec::new(), input_names, PortKind::Generic),
            NodeType::McpServer => {
                let r: Vec<PortDef> = Vec::new();
                proof {
                    assert(port_views(r@) =~= Seq::<(Seq<char>, PortKind)>::empty());
                }
                r
            },
            NodeType::Profiler => {
                let r: Vec<PortDef> = Vec::new();
                proof {
                    assert(port_views(r@) =~= Seq::<(Seq<char>, PortKind)>::empty());
                }
                r
            },
            NodeType::HtmlViewer => {
                let r: Vec<PortDef> = vec![PortDef::new("HTML", PortKind::Text)];
                proof {
                    assert(port_views(r@) =~= seq![("HTML"@, PortKind::Text)]);
                }
                r
            },
            NodeType::ImageNode => {
                let r: Vec<PortDef> = vec![PortDef::new("Image In", PortKind::Image)];
                proof {
                    assert(port_views(r@) =~= seq![("Image In"@, PortKind::Image)]);
                }
                r
            },
            NodeType::ImageEffects => image_effects_inputs(),
            NodeType::Crop => crop_inputs(),
            NodeType::Blend => blend_inputs(),
            NodeType::Curve => curve_inputs(),
            NodeType::Draw => {
                let r: Vec<PortDef> = Vec::new();
                proof {
                    assert(port_views(r@) =~= Seq::<(Seq<char>, PortKind)>::empty());
                }
                r
            },
            NodeType::Noise => noise_inputs(),
            NodeType::ColorCurves => {
                let r: Vec<PortDef> = vec![PortDef::new("Image", PortKind::Image)];
                proof {
                    assert(port_views(r@) =~= seq![("Image"@, PortKind::Image)]);
                }
                r
            },
            NodeType::VideoPlayer => {
                let r: Vec<PortDef> = Vec::new();
                proof {
                    assert(port_views(r@) =~= Seq::<(Seq<char>, PortKind)>::empty());
                }
                r
            },
            NodeType::Camera => {
                let r: Vec<PortDef> = Vec::new();
                proof {
                    assert(port_views(r@) =~= Seq::<(Seq<char>, PortKind)>::empty());
                }
                r
            },
            NodeType::MlModel => {
                let r: Vec<PortDef> = vec![PortDef::new("Image", PortKind::Image)];
                proof {
                    assert(port_views(r@) =~= seq![("Image"@, PortKind::Image)]);
                }
                r
            },
            NodeType::Gate => {
                let r: Vec<PortDef> = vec![PortDef::new("Value", PortKind::Number), PortDef::new("Threshold", PortKind::Number)];
                proof {
                    assert(port_views(r@) =~= seq![("Value"@, PortKind::Number), ("Threshold"@, PortKind::Number)]);
                }
                r
            },
            NodeType::Timer => {
                let r: Vec<PortDef> = vec![PortDef::new("Interval", PortKind::Number), PortDef::new("BPM", PortKind::Number)];
                proof {
                    assert(port_views(r@) =~= seq![("Interval"@, PortKind::Number), ("BPM"@, PortKind::Number)]);
                }
                r
            },
            NodeType::MapRange => map_range_inputs(),
            NodeType::StringFormat { arg_count, .. } => arg_port_list(vec![PortDef::new("Template", PortKind::Text)], *arg_count),
            NodeType::SampleHold => {
                let r: Vec<PortDef> = vec![PortDef::new("Value", PortKind::Generic), PortDef::new("Trigger", PortKind::Trigger)];
                proof {
                    assert(port_views(r@) =~= seq![("Value"@, PortKind::Generic), ("Trigger"@, PortKind::Trigger)]);
                }
                r
            },
            NodeType::Select => select_inputs(),
        }
    }

    /// The output ports, in order.
    #[verifier::rlimit(60)]
    pub fn outputs(&self) -> (r: Vec<PortDef>)
        requires
            self.outputs_defined(),
        ensures
            port_views(r@) == self.spec_outputs(),
    {
        match self {
            NodeType::Slider => {
                let r: Vec<PortDef> = vec![PortDef::new("Value", PortKind::Number)];
                proof {
                    assert(port_views(r@) =~= seq![("Value"@, PortKind::Number)]);
                }
                r
            },
            NodeType::Display => {
                let r: Vec<PortDef> = Vec::new();
                proof {
                    assert(port_views(r@) =~= Seq::<(Seq<char>, PortKind)>::empty());
                }
                r
            },
            NodeType::VisualOutput => {
                let r: Vec<PortDef> = Vec::new();
                proof {
                    assert(port_views(r@) =~= Seq::<(Seq<char>, PortKind)>::empty());
                }
                r
            },
            NodeType::Add => {
                let r: Vec<PortDef> = vec![PortDef::new("Result", PortKind::Number)];
                proof {
                    assert(port_views(r@) =~= seq![("Result"@, PortKind::Number)]);
                }
                r
            },
            NodeType::Multiply => {
                let r: Vec<PortDef> = vec![PortDef::new("Result", PortKind::Number)];
                proof {
                    assert(port_views(r@) =~= seq![("Result"@, PortKind::Number)]);
                }
                r
            },
            NodeType::Math { .. } => {
                let r: Vec<PortDef> = vec![PortDef::new("Result", PortKind::Number)];
                proof {
                    assert(port_views(r@) =~= seq![("Result"@, PortKind::Number)]);
                }
                r
            },
            NodeType::File => {
                let r: Vec<PortDef> = vec![PortDef::new("Content", PortKind::Text)];
                proof {
                    assert(port_views(r@) =~= seq![("Content"@, PortKind::Text)]);
                }
                r
            },
            NodeType::FolderBrowser => folder_browser_outputs(),
            NodeType::TextEditor => {
                let r: Vec<PortDef> = vec![PortDef::new("Text Out", PortKind::Text)];
                proof {
                    assert(port_views(r@) =~= seq![("Text Out"@, PortKind::Text)]);
                }
                r
            },
            NodeType::WgslViewer { .. } => {
                let r: Vec<PortDef> = Vec::new();
                proof {
                    assert(port_views(r@) =~= Seq::<(Seq<char>, PortKind)>::empty());
                }
                r
            },
            NodeType::MouseTracker => {
                let r: Vec<PortDef> = vec![PortDef::new("X", PortKind::Number), PortDef::new("Y", PortKind::Number)];
                proof {
                    assert(port_views(r@) =~= seq![("X"@, PortKind::Number), ("Y"@, PortKind::Number)]);
                }
                r
            },
            NodeType::Time => {
                let r: Vec<PortDef> = vec![PortDef::new("Seconds", PortKind::Number), PortDef::new("Beat", PortKind::Normalized)];
                proof {
                    assert(port_views(r@) =~= seq![("Seconds"@, PortKind::Number), ("Beat"@, PortKind::Normalized)]);
                }
                r
            },
            NodeType::Color => color_outputs(),
            NodeType::MidiOut { .. } => {
                let r: Vec<PortDef> = Vec::new();
                proof {
                    assert(port_views(r@) =~= Seq::<(Seq<char>, PortKind)>::empty());
                }
                r
            },
            NodeType::MidiIn => midi_in_outputs(),
            NodeType::Theme => {
                let r: Vec<PortDef> = Vec::new();
                proof {
                    assert(port_views(r@) =~= Seq::<(Seq<char>, PortKind)>::empty());
                }
                r
            },
            NodeType::Serial => {
                let r: Vec<PortDef> = vec![PortDef::new("Received", PortKind::Text)];
                proof {
                    assert(port_views(r@) =~= seq![("Received"@, PortKind::Text)]);
                }
                r
            },
            NodeType::Comment => {
                let r: Vec<PortDef> = Vec::new();
                proof {
                    assert(port_views(r@) =~= Seq::<(Seq<char>, PortKind)>::empty());
                }
                r
            },
            NodeType::Script { output_names, .. } => named_port_list(Vec::new(), output_names, PortKind::Generic),
            NodeType::Console => {
                let r: Vec<PortDef> = Vec::new();
                proof {
                    assert(port_views(r@) =~= Seq::<(Seq<char>, PortKind)>::empty());
                }
                r
            },
            NodeType::Monitor => monitor_outputs(),
            NodeType::OscOut { .. } => {
                let r: Vec<PortDef> = Vec::new();
                proof {
                    assert(port_views(r@) =~= Seq::<(Seq<char>, PortKind)>::empty());
                }
                r
            },
            NodeType::OscIn { arg_count, .. } => {
                let none: Vec<PortDef> = Vec::new();
                proof {
                    assert(port_views(none@) =~= Seq::<(Seq<char>, PortKind)>::empty());
                }
                let r = arg_port_list(none, *arg_count);
                proof {
                    assert(Seq::<(Seq<char>, PortKind)>::empty() + arg_ports(*arg_count as nat) =~= arg_ports(*arg_count as nat));
                }
                r
            },
            NodeType::KeyInput => key_input_outputs(),
            NodeType::Palette => {
                let r: Vec<PortDef> = Vec::new();
                proof {
                    assert(port_views(r@) =~= Seq::<(Seq<char>, PortKind)>::empty());
                }
                r
            },
            NodeType::HttpRequest => {
                let r: Vec<PortDef> = vec![PortDef::new("Response", PortKind::Text), PortDef::new("Status", PortKind::Text)];
                proof {
                    assert(port_views(r@) =~= seq![("Response"@, PortKind::Text), ("Status"@, PortKind::Text)]);
                }
                r
            },
            NodeType::AiRequest => {
                let r: Vec<PortDef> = vec![PortDef::new("Response", PortKind::Text), PortDef::new("Status", PortKind::Text)];
                proof {
                    assert(port_views(r@) =~= seq![("Response"@, PortKind::Text), ("Status"@, PortKind::Text)]);
                }
                r
            },
            NodeType::JsonExtract => {
                let r: Vec<PortDef> = vec![PortDef::new("Value", PortKind::Generic)];
                proof {
                    assert(port_views(r@) =~= seq![("Value"@, PortKind::Generic)]);
                }
                r
            },
            NodeType::FileMenu => {
                let r: Vec<PortDef> = Vec::new();
                proof {
                    assert(port_views(r@) =~= Seq::<(Seq<char>, PortKind)>::empty());
                }
                r
            },
            NodeType::ZoomControl => {
                let r: Vec<PortDef> = vec![PortDef::new("Zoom", PortKind::Number)];
                proof {
                    assert(port_views(r@) =~= seq![("Zoom"@, PortKind::Number)]);
                }
                r
            },
            NodeType::ObHub { detected_devices, .. } => ob_hub_outputs(detected_devices),
            NodeType::ObJoystick => ob_joystick_outputs(),
            NodeType::ObEncoder => ob_encoder_outputs(),
            NodeType::Synth => {
                let r: Vec<PortDef> = vec![PortDef::new("Audio", PortKind::Audio)];
                proof {
                    assert(port_views(r@) =~= seq![("Audio"@, PortKind::Audio)]);
                }
                r
            },
            NodeType::AudioPlayer => {
                let r: Vec<PortDef> = vec![PortDef::new("Audio", PortKind::Audio), PortDef::new("Progress", PortKind::Normalized)];
                proof {
                    assert(port_views(r@) =~= seq![("Audio"@, PortKind::Audio), ("Progress"@, PortKind::Normalized)]);
                }
                r
            },
            NodeType::AudioInput => {
                let r: Vec<PortDef> = vec![PortDef::new("Audio", PortKind::Audio)];
                proof {
                    assert(port_views(r@) =~= seq![("Audio"@, PortKind::Audio)]);
                }
                r
            },
            NodeType::AudioAnalyzer => audio_analyzer_outputs(),
            NodeType::AudioDevice => {
                let r: Vec<PortDef> = Vec::new();
                proof {
                    assert(port_views(r@) =~= Seq::<(Seq<char>, PortKind)>::empty());
                }
                r
            },
            NodeType::AudioFx => {
                let r: Vec<PortDef> = vec![PortDef::new("Audio", PortKind::Audio)];
                proof {
                    assert(port_views(r@) =~= seq![("Audio"@, PortKind::Audio)]);
                }
                r
            },
            NodeType::AudioDelay => {
                let r: Vec<PortDef> = vec![PortDef::new("Audio", PortKind::Audio)];
                proof {
                    assert(port_views(r@) =~= seq![("Audio"@, PortKind::Audio)]);
                }
                r
            },
            NodeType::AudioDistortion => {
                let r: Vec<PortDef> = vec![PortDef::new("Audio", PortKind::Audio)];
                proof {
                    assert(port_views(r@) =~= seq![("Audio"@, PortKind::Audio)]);
                }
                r
            },
            NodeType::AudioLowPass => {
                let r: Vec<PortDef> = vec![PortDef::new("Audio", PortKind::Audio)];
                proof {
                    assert(port_views(r@) =~= seq![("Audio"@, PortKind::Audio)]);
                }
                r
            },
            NodeType::AudioHighPass => {
                let r: Vec<PortDef> = vec![PortDef::new("Audio", PortKind::Audio)];
                proof {
                    assert(port_views(r@) =~= seq![("Audio"@, PortKind::Audio)]);
                }
                r
            },
            NodeType::AudioGain => {
                let r: Vec<PortDef> = vec![PortDef::new("Audio", PortKind::Audio)];
                proof {
                    assert(port_views(r@) =~= seq![("Audio"@, PortKind::Audio)]);
                }
                r
            },
            NodeType::AudioReverb => {
                let r: Vec<PortDef> = vec![PortDef::new("Audio", PortKind::Audio)];
                proof {
                    assert(port_views(r@) =~= seq![("Audio"@, PortKind::Audio)]);
                }
                r
            },
            NodeType::AudioEq => {
                let r: Vec<PortDef> = vec![PortDef::new("Audio", PortKind::Audio)];
                proof {
                    assert(port_views(r@) =~= seq![("Audio"@, PortKind::Audio)]);
                }
                r
            },
            NodeType::Speaker => {
                let r: Vec<PortDef> = Vec::new();
                proof {
                    assert(port_views(r@) =~= Seq::<(Seq<char>, PortKind)>::empty());
                }
                r
            },
            NodeType::AudioMixer { .. } => {
                let r: Vec<PortDef> = vec![PortDef::new("Mix", PortKind::Audio)];
                proof {
                    assert(port_views(r@) =~= seq![("Mix"@, PortKind::Audio)]);
                }
                r
            },
            NodeType::RustPlugin { output_names, .. } => named_port_list(Vec::new(), output_names, PortKind::Generic),
            NodeType::McpServer => {
                let r: Vec<PortDef> = Vec::new();
                proof {
                    assert(port_views(r@) =~= Seq::<(Seq<char>, PortKind)>::empty());
                }
                r
            },
            NodeType::Profiler => profiler_outputs(),
            NodeType::HtmlViewer => {
                let r: Vec<PortDef> = vec![PortDef::new("URL", PortKind::Text)];
                proof {
                    assert(port_views(r@) =~= seq![("URL"@, PortKind::Text)]);
                }
                r
            },
            NodeType::ImageNode => {
                let r: Vec<PortDef> = vec![PortDef::new("Image", PortKind::Image)];
                proof {
                    assert(port_views(r@) =~= seq![("Image"@, PortKind::Image)]);
                }
                r
            },
            NodeType::ImageEffects => {
                let r: Vec<PortDef> = vec![PortDef::new("Image", PortKind::Image)];
                proof {
                    assert(port_views(r@) =~= seq![("Image"@, PortKind::Image)]);
                }
                r
            },
            NodeType::Crop => {
                let r: Vec<PortDef> = vec![PortDef::new("Cropped", PortKind::Image)];
                proof {
                    assert(port_views(r@) =~= seq![("Cropped"@, PortKind::Image)]);
                }
                r
            },
            NodeType::Blend => {
                let r: Vec<PortDef> = vec![PortDef::new("Image", PortKind::Image)];
                proof {
                    assert(port_views(r@) =~= seq![("Image"@, PortKind::Image)]);
                }
                r
            },
            NodeType::Curve => curve_outputs(),
            NodeType::Draw => {
                let r: Vec<PortDef> = vec![PortDef::new("Image", PortKind::Image), PortDef::new("Points", PortKind::Text)];
                proof {
                    assert(port_views(r@) =~= seq![("Image"@, PortKind::Image), ("Points"@, PortKind::Text)]);
                }
                r
            },
            NodeType::Noise => {
                let r: Vec<PortDef> = vec![PortDef::new("Value", PortKind::Number), PortDef::new("Image", PortKind::Image)];
                proof {
                    assert(port_views(r@) =~= seq![("Value"@, PortKind::Number), ("Image"@, PortKind::Image)]);
                }
                r
            },
            NodeType::ColorCurves => {
                let r: Vec<PortDef> = vec![PortDef::new("Image", PortKind::Image)];
                proof {
                    assert(port_views(r@) =~= seq![("Image"@, PortKind::Image)]);
                }
                r
            },
            NodeType::VideoPlayer => {
                let r: Vec<PortDef> = vec![PortDef::new("Frame", PortKind::Image), PortDef::new("Progress", PortKind::Normalized)];
                proof {
                    assert(port_views(r@) =~= seq![("Frame"@, PortKind::Image), ("Progress"@, PortKind::Normalized)]);
                }
                r
            },
            NodeType::Camera => {
                let r: Vec<PortDef> = vec![PortDef::new("Frame", PortKind::Image)];
                proof {
                    assert(port_views(r@) =~= seq![("Frame"@, PortKind::Image)]);
                }
                r
            },
            NodeType::MlModel => ml_model_outputs(),
            NodeType::Gate => {
                let r: Vec<PortDef> = vec![PortDef::new("Out", PortKind::Number), PortDef::new("Pass", PortKind::Gate)];
                proof {
                    assert(port_views(r@) =~= seq![("Out"@, PortKind::Number), ("Pass"@, PortKind::Gate)]);
                }
                r
            },
            NodeType::Timer => timer_outputs(),
            NodeType::MapRange => {
                let r: Vec<PortDef> = vec![PortDef::new("Value", PortKind::Number)];
                proof {
                    assert(port_views(r@) =~= seq![("Value"@, PortKind::Number)]);
                }
                r
            },
            NodeType::StringFormat { .. } => {
                let r: Vec<PortDef> = vec![PortDef::new("Text", PortKind::Text)];
                proof {
                    assert(port_views(r@) =~= seq![("Text"@, PortKind::Text)]);
                }
                r
            },
            NodeType::SampleHold => {
                let r: Vec<PortDef> = vec![PortDef::new("Out", PortKind::Generic), PortDef::new("Trigger", PortKind::Trigger)];
                proof {
                    assert(port_views(r@) =~= seq![("Out"@, PortKind::Generic), ("Trigger"@, PortKind::Trigger)]);
                }
                r
            },
            NodeType::Select => {
                let r: Vec<PortDef> = vec![PortDef::new("Out", PortKind::Generic), PortDef::new("Active", PortKind::Gate)];
                proof {
                    assert(port_views(r@) =~= seq![("Out"@, PortKind::Generic), ("Active"@, PortKind::Gate)]);
                }
                r
            },
        }
    }

    /// The kind of port `port_idx` among the outputs (`is_output`) or inputs.
    pub fn port_kind(&self, port_idx: usize, is_output: bool) -> (r: Option<PortKind>)
        requires
            is_output ==> self.outputs_defined(),
        ensures
            ({
                let ports = if is_output { self.spec_outputs() } else { self.spec_inputs() };
                r == if port_idx < ports.len() { Some(ports[port_idx as int].1) } else { None::<PortKind> }
            }),
    {
        let ports = if is_output { self.outputs() } else { self.inputs() };
        if port_idx < ports.len() {
            Some(ports[port_idx].kind)
        } else {
            None
        }
    }
}

/// A hub device type whose port names are taken from its first character: either
/// a known type or one starting with a one-byte character.
pub open spec fn device_type_named(t: Seq<char>) -> bool {
    t == "joystick"@ || t == "encoder"@ || (t.len() > 0 && (t[0] as u32) < 128)
}

// ── Port lists that depend on node settings ───────────────────────────────

/// `Arg 0`, `Arg 1`, … `Arg {n-1}`, all Generic.
pub open spec fn arg_ports(n: nat) -> Seq<(Seq<char>, PortKind)>
    decreases n,
{
    if n == 0 {
        Seq::empty()
    } else {
        arg_ports((n - 1) as nat).push(("Arg "@ + decimal((n - 1) as nat), PortKind::Generic))
    }
}

/// For each channel `i` from 1 to `n`: an audio input `Ch{i}` and a gain input `Gain{i}`.
pub open spec fn mixer_ports(n: nat) -> Seq<(Seq<char>, PortKind)>
    decreases n,
{
    if n == 0 {
        Seq::empty()
    } else {
        mixer_ports((n - 1) as nat) + seq![
            ("Ch"@ + decimal(n), PortKind::Audio),
            ("Gain"@ + decimal(n), PortKind::Normalized),
        ]
    }
}

/// One port of kind `kind` per name.
pub open spec fn named_ports(names: Seq<Seq<char>>, kind: PortKind) -> Seq<(Seq<char>, PortKind)> {
    names.map_values(|n: Seq<char>| (n, kind))
}

/// The fixed leading inputs of a script node.
pub open spec fn script_head(continuous: bool) -> Seq<(Seq<char>, PortKind)> {
    if continuous {
        seq![("Code"@, PortKind::Text)]
    } else {
        seq![("Exec"@, PortKind::Trigger), ("Code"@, PortKind::Text)]
    }
}

/// The inputs of one shader uniform of type `t`: three colour channels for a
/// `color` uniform, one number otherwise.
pub open spec fn wgsl_one(name: Seq<char>, t: Seq<char>) -> Seq<(Seq<char>, PortKind)> {
    if t == "color"@ {
        seq![(name + " R"@, PortKind::Color), (name + " G"@, PortKind::Color), (name + " B"@, PortKind::Color)]
    } else {
        seq![(name, PortKind::Number)]
    }
}

/// The inputs of the first `n` uniforms; a uniform without a type is a `float`.
pub open spec fn wgsl_uniform_ports(names: Seq<Seq<char>>, types: Seq<Seq<char>>, n: nat) -> Seq<
    (Seq<char>, PortKind),
>
    decreases n,
{
    if n == 0 {
        Seq::empty()
    } else {
        let i = n - 1;
        wgsl_uniform_ports(names, types, (n - 1) as nat) + wgsl_one(
            names[i],
            if i < types.len() {
                types[i]
            } else {
                "float"@
            },
        )
    }
}

proof fn lemma_views_push(v: Seq<PortDef>, p: PortDef)
    ensures
        port_views(v.push(p)) == port_views(v).push((p.name@, p.kind)),
{
    assert(port_views(v.push(p)) =~= port_views(v).push((p.name@, p.kind)));
}

fn char_ports(variables: &Vec<char>) -> (r: Vec<PortDef>)
    ensures
        port_views(r@) == variables@.map_values(|c: char| (seq![c], PortKind::Number)),
{
    let mut r: Vec<PortDef> = Vec::new();
    let mut i: usize = 0;
    while i < variables.len()
        invariant
            i <= variables@.len(),
            port_views(r@) == variables@.subrange(0, i as int).map_values(|c: char| (seq![c], PortKind::Number)),
        decreases variables@.len() - i,
    {
        let p = PortDef::dynamic(char_string(variables[i]), PortKind::Number);
        proof {
            lemma_views_push(r@, p);
            assert(variables@.subrange(0, i + 1).map_values(|c: char| (seq![c], PortKind::Number))
                =~= variables@.subrange(0, i as int).map_values(|c: char| (seq![c], PortKind::Number)).push(
                (seq![variables@[i as int]], PortKind::Number),
            ));
        }
        r.push(p);
        i += 1;
    }
    proof {
        assert(variables@.subrange(0, variables@.len() as int) == variables@);
    }
    r
}

fn wgsl_inputs(names: &Vec<String>, types: &Vec<String>) -> (r: Vec<PortDef>)
    ensures
        port_views(r@) == seq![("WGSL"@, PortKind::Text)] + wgsl_uniform_ports(texts(names@), texts(types@), names@.len()),
{
    let mut r: Vec<PortDef> = vec![PortDef::new("WGSL", PortKind::Text)];
    proof {
        assert(port_views(r@) =~= seq![("WGSL"@, PortKind::Text)] + wgsl_uniform_ports(texts(names@), texts(types@), 0));
    }
    let mut i: usize = 0;
    while i < names.len()
        invariant
            i <= names@.len(),
            port_views(r@) == seq![("WGSL"@, PortKind::Text)] + wgsl_uniform_ports(texts(names@), texts(types@), i as nat),
        decreases names@.len() - i,
    {
        let ghost before = r@;
        let is_color = i < types.len() && text_eq(&types[i], "color");
        let ghost t = if i < types@.len() { texts(types@)[i as int] } else { "float"@ };
        proof {
            reveal_strlit("color");
            reveal_strlit("float");
            if i < types@.len() {
                assert(texts(types@)[i as int] == types@[i as int]@);
                assert(is_color == (types@[i as int]@ == "color"@));
            } else {
                assert(!is_color);
                assert("float"@ != "color"@) by {
                    assert("float"@[0] != "color"@[0]);
                }
            }
            assert(is_color == (t == "color"@));
        }
        if is_color {
            let a = PortDef::dynamic(concat_text(names[i].as_str(), " R"), PortKind::Color);
            let b = PortDef::dynamic(concat_text(names[i].as_str(), " G"), PortKind::Color);
            let c = PortDef::dynamic(concat_text(names[i].as_str(), " B"), PortKind::Color);
            r.push(a);
            r.push(b);
            r.push(c);
            proof {
                assert(port_views(r@) =~= port_views(before) + wgsl_one(texts(names@)[i as int], t));
            }
        } else {
            let a = PortDef::dynamic(names[i].clone(), PortKind::Number);
            r.push(a);
            proof {
                assert(port_views(r@) =~= port_views(before) + wgsl_one(texts(names@)[i as int], t));
            }
        }
        proof {
            assert(wgsl_uniform_ports(texts(names@), texts(types@), (i + 1) as nat) == wgsl_uniform_ports(
                texts(names@),
                texts(types@),
                i as nat,
            ) + wgsl_one(texts(names@)[i as int], t));
            assert(port_views(r@) =~= seq![("WGSL"@, PortKind::Text)] + wgsl_uniform_ports(
                texts(names@),
                texts(types@),
                (i + 1) as nat,
            ));
        }
        i += 1;
    }
    r
}

fn midi_out_inputs(mode: MidiMode) -> (r: Vec<PortDef>)
    ensures
        port_views(r@) == (match mode {
            MidiMode::Note => seq![("Channel"@, PortKind::Number), ("Note"@, PortKind::Number), ("Velocity"@, PortKind::Number)],
            MidiMode::CC => seq![("Channel"@, PortKind::Number), ("CC#"@, PortKind::Number), ("Value"@, PortKind::Number)],
        }),
{
    match mode {
        MidiMode::Note => {
            let r = vec![PortDef::new("Channel", PortKind::Number), PortDef::new("Note", PortKind::Number), PortDef::new("Velocity", PortKind::Number)];
            proof {
                assert(port_views(r@) =~= seq![("Channel"@, PortKind::Number), ("Note"@, PortKind::Number), ("Velocity"@, PortKind::Number)]);
            }
            r
        },
        MidiMode::CC => {
            let r = vec![PortDef::new("Channel", PortKind::Number), PortDef::new("CC#", PortKind::Number), PortDef::new("Value", PortKind::Number)];
            proof {
                assert(port_views(r@) =~= seq![("Channel"@, PortKind::Number), ("CC#"@, PortKind::Number), ("Value"@, PortKind::Number)]);
            }
            r
        },
    }
}

/// `v` followed by `Arg 0` … `Arg {count-1}`.
fn arg_port_list(v: Vec<PortDef>, count: usize) -> (r: Vec<PortDef>)
    ensures
        port_views(r@) == port_views(v@) + arg_ports(count as nat),
{
    let mut r = v;
    let ghost init = port_views(r@);
    proof {
        assert(init + arg_ports(0) =~= init);
    }
    let mut i: usize = 0;
    while i < count
        invariant
            i <= count,
            port_views(r@) == init + arg_ports(i as nat),
        decreases count - i,
    {
        let p = PortDef::dynamic(labelled("Arg ", i as u64), PortKind::Generic);
        proof {
            lemma_views_push(r@, p);
            assert(init + arg_ports((i + 1) as nat) =~= (init + arg_ports(i as nat)).push(("Arg "@ + decimal(i as nat), PortKind::Generic)));
        }
        r.push(p);
        i += 1;
    }
    r
}

fn mixer_inputs(count: usize) -> (r: Vec<PortDef>)
    ensures
        port_views(r@) == mixer_ports(count as nat),
{
    let mut r: Vec<PortDef> = Vec::new();
    let mut i: usize = 0;
    while i < count
        invariant
            i <= count,
            port_views(r@) == mixer_ports(i as nat),
        decreases count - i,
    {
        let ghost before = r@;
        let a = PortDef::dynamic(labelled("Ch", (i + 1) as u64), PortKind::Audio);
        let b = PortDef::dynamic(labelled("Gain", (i + 1) as u64), PortKind::Normalized);
        r.push(a);
        r.push(b);
        proof {
            assert(port_views(r@) =~= mixer_ports((i + 1) as nat));
        }
        i += 1;
    }
    r
}

/// `v` followed by one port of kind `kind` per name.
fn named_port_list(v: Vec<PortDef>, names: &Vec<String>, kind: PortKind) -> (r: Vec<PortDef>)
    ensures
        port_views(r@) == port_views(v@) + named_ports(texts(names@), kind),
{
    let mut r = v;
    let ghost init = port_views(r@);
    let mut i: usize = 0;
    while i < names.len()
        invariant
            i <= names@.len(),
            port_views(r@) == init + named_ports(texts(names@.subrange(0, i as int)), kind),
        decreases names@.len() - i,
    {
        let p = PortDef::dynamic(names[i].clone(), kind);
        proof {
            lemma_views_push(r@, p);
            assert(named_ports(texts(names@.subrange(0, i + 1)), kind) =~= named_ports(
                texts(names@.subrange(0, i as int)),
                kind,
            ).push((names@[i as int]@, kind)));
            assert(init + named_ports(texts(names@.subrange(0, i + 1)), kind) =~= (init + named_ports(
                texts(names@.subrange(0, i as int)),
                kind,
            )).push((names@[i as int]@, kind)));
        }
        r.push(p);
        i += 1;
    }
    proof {
        assert(names@.subrange(0, names@.len() as int) == names@);
    }
    r
}

fn script_head_ports(continuous: bool) -> (r: Vec<PortDef>)
    ensures
        port_views(r@) == script_head(continuous),
{
    let mut r: Vec<PortDef> = Vec::new();
    if !continuous {
        r.push(PortDef::new("Exec", PortKind::Trigger));
    }
    r.push(PortDef::new("Code", PortKind::Text));
    proof {
        assert(port_views(r@) =~= script_head(continuous));
    }
    r
}

/// Strict lexicographic order of texts by character code (for UTF-8 text this is
/// also the byte order).
pub open spec fn text_lt(a: Seq<char>, b: Seq<char>) -> bool
    decreases a.len(),
{
    if a.len() == 0 {
        b.len() > 0
    } else if b.len() == 0 {
        false
    } else if a[0] != b[0] {
        (a[0] as int) < (b[0] as int)
    } else {
        text_lt(a.drop_first(), b.drop_first())
    }
}

proof fn lemma_text_lt_irreflexive(a: Seq<char>)
    ensures
        !text_lt(a, a),
    decreases a.len(),
{
    if a.len() > 0 {
        lemma_text_lt_irreflexive(a.drop_first());
    }
}

proof fn lemma_text_lt_transitive(a: Seq<char>, b: Seq<char>, c: Seq<char>)
    requires
        text_lt(a, b),
        text_lt(b, c),
    ensures
        text_lt(a, c),
    decreases a.len(),
{
    if a.len() > 0 && b.len() > 0 && c.len() > 0 && a[0] == b[0] && b[0] == c[0] {
        lemma_text_lt_transitive(a.drop_first(), b.drop_first(), c.drop_first());
    }
}

proof fn lemma_text_lt_total(a: Seq<char>, b: Seq<char>)
    requires
        a != b,
    ensures
        text_lt(a, b) || text_lt(b, a),
    decreases a.len(),
{
    if a.len() > 0 && b.len() > 0 && a[0] == b[0] {
        if a.drop_first() == b.drop_first() {
            assert(a =~= seq![a[0]] + a.drop_first());
            assert(b =~= seq![b[0]] + b.drop_first());
        }
        lemma_text_lt_total(a.drop_first(), b.drop_first());
    } else if a.len() > 0 && b.len() > 0 {
        assert((a[0] as int) != (b[0] as int));
    } else if a.len() == 0 && b.len() == 0 {
        assert(a =~= b);
    }
}

proof fn lemma_text_lt_asymmetric(a: Seq<char>, b: Seq<char>)
    requires
        text_lt(a, b),
    ensures
        !text_lt(b, a),
{
    if text_lt(b, a) {
        lemma_text_lt_transitive(a, b, a);
        lemma_text_lt_irreflexive(a);
    }
}

/// A detected hub device: its type name and its id.
pub type DeviceKey = (Seq<char>, u8);

/// Devices are ordered by type name, then by id.
pub open spec fn device_le(a: DeviceKey, b: DeviceKey) -> bool {
    text_lt(a.0, b.0) || (a.0 == b.0 && a.1 <= b.1)
}

pub open spec fn devices_sorted(s: Seq<DeviceKey>) -> bool {
    forall|i: int, j: int| 0 <= i < j < s.len() ==> device_le(#[trigger] s[i], #[trigger] s[j])
}

proof fn lemma_device_le_total(a: DeviceKey, b: DeviceKey)
    ensures
        device_le(a, b) || device_le(b, a),
{
    if a.0 != b.0 {
        lemma_text_lt_total(a.0, b.0);
    }
}

proof fn lemma_device_le_transitive(a: DeviceKey, b: DeviceKey, c: DeviceKey)
    requires
        device_le(a, b),
        device_le(b, c),
    ensures
        device_le(a, c),
{
    if text_lt(a.0, b.0) && text_lt(b.0, c.0) {
        lemma_text_lt_transitive(a.0, b.0, c.0);
    }
}

proof fn lemma_device_le_antisymmetric(a: DeviceKey, b: DeviceKey)
    requires
        device_le(a, b),
        device_le(b, a),
    ensures
        a == b,
{
    if text_lt(a.0, b.0) {
        lemma_text_lt_asymmetric(a.0, b.0);
        lemma_text_lt_irreflexive(a.0);
    } else if text_lt(b.0, a.0) {
        lemma_text_lt_asymmetric(b.0, a.0);
        lemma_text_lt_irreflexive(b.0);
    }
}

/// Two sorted sequences with the same elements are equal.
proof fn lemma_sorted_unique(a: Seq<DeviceKey>, b: Seq<DeviceKey>)
    requires
        devices_sorted(a),
        devices_sorted(b),
        a.to_multiset() == b.to_multiset(),
    ensures
        a == b,
    decreases a.len(),
{
    broadcast use vstd::seq_lib::group_to_multiset_ensures;

    a.to_multiset_ensures();
    b.to_multiset_ensures();
    assert(a.len() == b.len());
    if a.len() > 0 {
        assert(b.to_multiset().count(a[0]) > 0);
        assert(b.contains(a[0]));
        let jb = choose|j: int| 0 <= j < b.len() && b[j] == a[0];
        assert(a.to_multiset().count(b[0]) > 0);
        assert(a.contains(b[0]));
        let ja = choose|j: int| 0 <= j < a.len() && a[j] == b[0];
        if ja > 0 {
            assert(device_le(a[0], a[ja]));
        }
        if jb > 0 {
            assert(device_le(b[0], b[jb]));
        }
        lemma_device_le_antisymmetric(a[0], b[0]);
        assert(a.remove(0) == a.drop_first());
        assert(b.remove(0) == b.drop_first());
        assert(a.drop_first().to_multiset() == b.drop_first().to_multiset());
        assert forall|i: int, j: int| 0 <= i < j < a.drop_first().len() implies device_le(
            #[trigger] a.drop_first()[i],
            #[trigger] a.drop_first()[j],
        ) by {
            assert(device_le(a[i + 1], a[j + 1]));
        }
        assert forall|i: int, j: int| 0 <= i < j < b.drop_first().len() implies device_le(
            #[trigger] b.drop_first()[i],
            #[trigger] b.drop_first()[j],
        ) by {
            assert(device_le(b[i + 1], b[j + 1]));
        }
        lemma_sorted_unique(a.drop_first(), b.drop_first());
        assert(a =~= seq![a[0]] + a.drop_first());
        assert(b =~= seq![b[0]] + b.drop_first());
    }
}

/// The keys of a device list.
pub open spec fn device_keys(devices: Seq<(String, u8)>) -> Seq<DeviceKey> {
    devices.map_values(|d: (String, u8)| (d.0@, d.1))
}

/// The devices in increasing order.
pub open spec fn sorted_devices(devices: Seq<(String, u8)>) -> Seq<DeviceKey> {
    choose|s: Seq<DeviceKey>| devices_sorted(s) && s.to_multiset() == device_keys(devices).to_multiset()
}

/// The outputs of one hub device.
pub open spec fn device_ports(d: DeviceKey) -> Seq<(Seq<char>, PortKind)> {
    let id = decimal(d.1 as nat);
    if d.0 == "joystick"@ {
        seq![
            ("j"@ + id + "_x"@, PortKind::Normalized),
            ("j"@ + id + "_y"@, PortKind::Normalized),
            ("j"@ + id + "_btn"@, PortKind::Gate),
        ]
    } else if d.0 == "encoder"@ {
        seq![
            ("e"@ + id + "_turn"@, PortKind::Number),
            ("e"@ + id + "_click"@, PortKind::Gate),
            ("e"@ + id + "_pos"@, PortKind::Number),
        ]
    } else {
        seq![(seq![d.0[0]] + id + "_val"@, PortKind::Number)]
    }
}

/// The outputs of a sequence of hub devices, in order.
pub open spec fn devices_ports(s: Seq<DeviceKey>) -> Seq<(Seq<char>, PortKind)>
    decreases s.len(),
{
    if s.len() == 0 {
        Seq::empty()
    } else {
        devices_ports(s.drop_last()) + device_ports(s.last())
    }
}

/// The outputs of a hub node: those of its devices in increasing (type, id) order,
/// or a single placeholder output when it has detected none.
pub open spec fn ob_hub_ports(devices: Seq<(String, u8)>) -> Seq<(Seq<char>, PortKind)> {
    if devices.len() == 0 {
        seq![("(no devices)"@, PortKind::Generic)]
    } else {
        devices_ports(sorted_devices(devices))
    }
}

/// Whether `a` comes strictly before `b` in character order.
fn text_less(a: &str, b: &str) -> (r: bool)
    ensures
        r == text_lt(a@, b@),
{
    let la = a.unicode_len();
    let lb = b.unicode_len();
    let mut i: usize = 0;
    proof {
        assert(a@.skip(0) =~= a@);
        assert(b@.skip(0) =~= b@);
    }
    while i < la && i < lb
        invariant
            la == a@.len(),
            lb == b@.len(),
            i <= la,
            i <= lb,
            text_lt(a@, b@) == text_lt(a@.skip(i as int), b@.skip(i as int)),
        decreases la - i,
    {
        let ca = a.get_char(i);
        let cb = b.get_char(i);
        proof {
            assert(a@.skip(i as int)[0] == ca);
            assert(b@.skip(i as int)[0] == cb);
            assert(a@.skip(i as int).drop_first() =~= a@.skip(i + 1));
            assert(b@.skip(i as int).drop_first() =~= b@.skip(i + 1));
        }
        if ca != cb {
            return (ca as u32) < (cb as u32);
        }
        i += 1;
    }
    la < lb
}

/// Whether device `a` comes no later than device `b`.
fn device_before(a: &(String, u8), b: &(String, u8)) -> (r: bool)
    ensures
        r == device_le((a.0@, a.1), (b.0@, b.1)),
{
    if text_less(a.0.as_str(), b.0.as_str()) {
        true
    } else {
        a.0 == b.0 && a.1 <= b.1
    }
}

/// The devices, cloned and sorted by type name, then id.
fn sort_devices(devices: &Vec<(String, u8)>) -> (r: Vec<(String, u8)>)
    ensures
        devices_sorted(device_keys(r@)),
        device_keys(r@).to_multiset() == device_keys(devices@).to_multiset(),
{
    broadcast use vstd::seq_lib::group_to_multiset_ensures;

    let mut rest: Vec<(String, u8)> = Vec::new();
    let mut i: usize = 0;
    while i < devices.len()
        invariant
            i <= devices@.len(),
            device_keys(rest@) == device_keys(devices@.subrange(0, i as int)),
        decreases devices@.len() - i,
    {
        let d = (devices[i].0.clone(), devices[i].1);
        let ghost before = rest@;
        rest.push(d);
        proof {
            assert(d.0@ == devices@[i as int].0@);
            assert(devices@.subrange(0, i + 1) =~= devices@.subrange(0, i as int).push(devices@[i as int]));
            assert(device_keys(rest@) =~= device_keys(before).push((d.0@, d.1)));
            assert(device_keys(devices@.subrange(0, i + 1)) =~= device_keys(devices@.subrange(0, i as int)).push(
                (devices@[i as int].0@, devices@[i as int].1),
            ));
        }
        i += 1;
    }
    proof {
        assert(devices@.subrange(0, devices@.len() as int) == devices@);
    }
    let ghost all = device_keys(devices@);
    let mut out: Vec<(String, u8)> = Vec::new();
    while rest.len() > 0
        invariant
            devices_sorted(device_keys(out@)),
            device_keys(out@).to_multiset().add(device_keys(rest@).to_multiset()) == all.to_multiset(),
            forall|a: int, b: int| 0 <= a < out@.len() && 0 <= b < rest@.len() ==> device_le(
                #[trigger] device_keys(out@)[a],
                #[trigger] device_keys(rest@)[b],
            ),
        decreases rest@.len(),
    {
        let ghost keys = device_keys(rest@);
        let mut best: usize = 0;
        let mut j: usize = 1;
        while j < rest.len()
            invariant
                keys == device_keys(rest@),
                0 < rest@.len(),
                best < rest@.len(),
                1 <= j <= rest@.len(),
                forall|k: int| 0 <= k < j ==> device_le(#[trigger] keys[best as int], keys[k]),
            decreases rest@.len() - j,
        {
            if !device_before(&rest[best], &rest[j]) {
                proof {
                    lemma_device_le_total(keys[best as int], keys[j as int]);
                    assert forall|k: int| 0 <= k < j + 1 implies device_le(#[trigger] keys[j as int], keys[k]) by {
                        if k < j {
                            assert(device_le(keys[best as int], keys[k]));
                            lemma_device_le_transitive(keys[j as int], keys[best as int], keys[k]);
                        } else {
                            assert(device_le(keys[j as int], keys[j as int]));
                        }
                    }
                }
                best = j;
            }
            j += 1;
        }
        let ghost old_out = device_keys(out@);
        let x = rest.remove(best);
        let ghost kx = (x.0@, x.1);
        proof {
            assert(keys[best as int] == kx);
            assert(device_keys(rest@) =~= keys.remove(best as int));
        }
        out.push(x);
        proof {
            assert(device_keys(out@) =~= old_out.push(kx));
            keys.to_multiset_ensures();
            old_out.to_multiset_ensures();
            assert(keys.remove(best as int).to_multiset() =~= keys.to_multiset().remove(kx));
            assert(old_out.push(kx).to_multiset() =~= old_out.to_multiset().insert(kx));
            assert(keys.to_multiset().count(kx) > 0) by {
                assert(keys.contains(kx));
            }
            assert(device_keys(out@).to_multiset().add(device_keys(rest@).to_multiset()) =~= old_out.to_multiset().add(
                keys.to_multiset(),
            ));
            assert forall|a: int, b: int| 0 <= a < b < device_keys(out@).len() implies device_le(
                #[trigger] device_keys(out@)[a],
                #[trigger] device_keys(out@)[b],
            ) by {
                if b == old_out.len() {
                    assert(device_keys(out@)[a] == old_out[a]);
                    assert(device_le(old_out[a], keys[best as int]));
                } else {
                    assert(device_keys(out@)[a] == old_out[a]);
                    assert(device_keys(out@)[b] == old_out[b]);
                }
            }
            assert forall|a: int, b: int| 0 <= a < out@.len() && 0 <= b < rest@.len() implies device_le(
                #[trigger] device_keys(out@)[a],
                #[trigger] device_keys(rest@)[b],
            ) by {
                let b0 = if b < best { b } else { b + 1 };
                assert(device_keys(rest@)[b] == keys[b0]);
                if a == old_out.len() {
                    assert(device_le(keys[best as int], keys[b0]));
                } else {
                    assert(device_keys(out@)[a] == old_out[a]);
                }
            }
        }
    }
    proof {
        assert(device_keys(rest@).to_multiset() =~= vstd::multiset::Multiset::empty());
        assert(device_keys(out@).to_multiset() =~= all.to_multiset());
    }
    out
}

/// The outputs of one hub device.
fn device_port_list(d: &(String, u8)) -> (r: Vec<PortDef>)
    requires
        device_type_named(d.0@),
    ensures
        port_views(r@) == device_ports((d.0@, d.1)),
{
    proof {
        reveal_strlit("joystick");
        reveal_strlit("encoder");
    }
    let id = labelled("", d.1 as u64);
    proof {
        reveal_strlit("");
        assert(""@ + decimal(d.1 as nat) =~= decimal(d.1 as nat));
    }
    if text_eq(&d.0, "joystick") {
        let a = PortDef::dynamic(concat_text(concat_text("j", id.as_str()).as_str(), "_x"), PortKind::Normalized);
        let b = PortDef::dynamic(concat_text(concat_text("j", id.as_str()).as_str(), "_y"), PortKind::Normalized);
        let c = PortDef::dynamic(concat_text(concat_text("j", id.as_str()).as_str(), "_btn"), PortKind::Gate);
        let r = vec![a, b, c];
        proof {
            assert(port_views(r@) =~= device_ports((d.0@, d.1)));
        }
        r
    } else if text_eq(&d.0, "encoder") {
        let a = PortDef::dynamic(concat_text(concat_text("e", id.as_str()).as_str(), "_turn"), PortKind::Number);
        let b = PortDef::dynamic(concat_text(concat_text("e", id.as_str()).as_str(), "_click"), PortKind::Gate);
        let c = PortDef::dynamic(concat_text(concat_text("e", id.as_str()).as_str(), "_pos"), PortKind::Number);
        let r = vec![a, b, c];
        proof {
            assert(port_views(r@) =~= device_ports((d.0@, d.1)));
        }
        r
    } else {
        let first = char_string(d.0.as_str().get_char(0));
        let a = PortDef::dynamic(concat_text(concat_text(first.as_str(), id.as_str()).as_str(), "_val"), PortKind::Number);
        let r = vec![a];
        proof {
            assert(port_views(r@) =~= device_ports((d.0@, d.1)));
        }
        r
    }
}

/// The outputs of a hub node.
fn ob_hub_outputs(devices: &Vec<(String, u8)>) -> (r: Vec<PortDef>)
    requires
        forall|i: int| 0 <= i < devices@.len() ==> device_type_named(#[trigger] devices@[i].0@),
    ensures
        port_views(r@) == ob_hub_ports(devices@),
{
    broadcast use vstd::seq_lib::group_to_multiset_ensures;

    if devices.len() == 0 {
        let r = vec![PortDef::new("(no devices)", PortKind::Generic)];
        proof {
            assert(port_views(r@) =~= ob_hub_ports(devices@));
        }
        return r;
    }
    let sorted = sort_devices(devices);
    proof {
        let s = device_keys(sorted@);
        assert(devices_sorted(s) && s.to_multiset() == device_keys(devices@).to_multiset());
        let c = sorted_devices(devices@);
        lemma_sorted_unique(s, c);
        assert forall|k: int| 0 <= k < sorted@.len() implies device_type_named(#[trigger] sorted@[k].0@) by {
            assert(s[k] == (sorted@[k].0@, sorted@[k].1));
            assert(s.to_multiset().count(s[k]) > 0) by {
                assert(s.contains(s[k]));
            }
            let d = device_keys(devices@);
            assert(d.contains(s[k]));
            let j = choose|j: int| 0 <= j < d.len() && d[j] == s[k];
            assert(device_type_named(devices@[j].0@));
        }
    }
    let mut r: Vec<PortDef> = Vec::new();
    let mut i: usize = 0;
    while i < sorted.len()
        invariant
            i <= sorted@.len(),
            forall|k: int| 0 <= k < sorted@.len() ==> device_type_named(#[trigger] sorted@[k].0@),
            port_views(r@) == devices_ports(device_keys(sorted@).subrange(0, i as int)),
        decreases sorted@.len() - i,
    {
        let ghost before = r@;
        let ps = device_port_list(&sorted[i]);
        let mut k: usize = 0;
        while k < ps.len()
            invariant
                k <= ps@.len(),
                port_views(r@) == port_views(before) + port_views(ps@).subrange(0, k as int),
            decreases ps@.len() - k,
        {
            let ghost r0 = r@;
            let p = ps[k].clone();
            r.push(p);
            proof {
                lemma_views_push(r0, p);
                assert(port_views(ps@)[k as int] == (p.name@, p.kind));
                assert(port_views(ps@).subrange(0, k + 1) =~= port_views(ps@).subrange(0, k as int).push(
                    port_views(ps@)[k as int],
                ));
                assert(port_views(r@) =~= port_views(before) + port_views(ps@).subrange(0, k + 1));
            }
            k += 1;
        }
        proof {
            let keys = device_keys(sorted@);
            assert(keys.subrange(0, i + 1).drop_last() =~= keys.subrange(0, i as int));
            assert(keys.subrange(0, i + 1).last() == keys[i as int]);
            assert(port_views(ps@).subrange(0, ps@.len() as int) == port_views(ps@));
        }
        i += 1;
    }
    proof {
        assert(device_keys(sorted@).subrange(0, sorted@.len() as int) == device_keys(sorted@));
    }
    r
}


// ── Fixed input lists ─────────────────────────────────────────────────────

fn color_inputs() -> (r: Vec<PortDef>)
    ensures
        port_views(r@) == seq![("R"@, PortKind::Color), ("G"@, PortKind::Color), ("B"@, PortKind::Color)],
{
    let r: Vec<PortDef> = vec![PortDef::new("R", PortKind::Color), PortDef::new("G", PortKind::Color), PortDef::new("B", PortKind::Color)];
    proof {
        assert(port_views(r@) =~= seq![("R"@, PortKind::Color), ("G"@, PortKind::Color), ("B"@, PortKind::Color)]);
    }
    r
}

fn http_request_inputs() -> (r: Vec<PortDef>)
    ensures
        port_views(r@) == seq![("URL"@, PortKind::Text), ("Body"@, PortKind::Text), ("Headers"@, PortKind::Text)],
{
    let r: Vec<PortDef> = vec![PortDef::new("URL", PortKind::Text), PortDef::new("Body", PortKind::Text), PortDef::new("Headers", PortKind::Text)];
    proof {
        assert(port_views(r@) =~= seq![("URL"@, PortKind::Text), ("Body"@, PortKind::Text), ("Headers"@, PortKind::Text)]);
    }
    r
}

fn ai_request_inputs() -> (r: Vec<PortDef>)
    ensures
        port_views(r@) == seq![("System"@, PortKind::Text), ("Prompt"@, PortKind::Text), ("Send"@, PortKind::Trigger)],
{
    let r: Vec<PortDef> = vec![PortDef::new("System", PortKind::Text), PortDef::new("Prompt", PortKind::Text), PortDef::new("Send", PortKind::Trigger)];
    proof {
        assert(port_views(r@) =~= seq![("System"@, PortKind::Text), ("Prompt"@, PortKind::Text), ("Send"@, PortKind::Trigger)]);
    }
    r
}

fn synth_inputs() -> (r: Vec<PortDef>)
    ensures
        port_views(r@) == seq![("Freq"@, PortKind::Number), ("Amp"@, PortKind::Normalized), ("Gate"@, PortKind::Gate), ("FM Wt"@, PortKind::Normalized)],
{
    let r: Vec<PortDef> = vec![PortDef::new("Freq", PortKind::Number), PortDef::new("Amp", PortKind::Normalized), PortDef::new("Gate", PortKind::Gate), PortDef::new("FM Wt", PortKind::Normalized)];
    proof {
        assert(port_views(r@) =~= seq![("Freq"@, PortKind::Number), ("Amp"@, PortKind::Normalized), ("Gate"@, PortKind::Gate), ("FM Wt"@, PortKind::Normalized)]);
    }
    r
}

fn audio_player_inputs() -> (r: Vec<PortDef>)
    ensures
        port_views(r@) == seq![("Play"@, PortKind::Trigger), ("Volume"@, PortKind::Normalized), ("Seek"@, PortKind::Normalized), ("Speed"@, PortKind::Number)],
{
    let r: Vec<PortDef> = vec![PortDef::new("Play", PortKind::Trigger), PortDef::new("Volume", PortKind::Normalized), PortDef::new("Seek", PortKind::Normalized), PortDef::new("Speed", PortKind::Number)];
    proof {
        assert(port_views(r@) =~= seq![("Play"@, PortKind::Trigger), ("Volume"@, PortKind::Normalized), ("Seek"@, PortKind::Normalized), ("Speed"@, PortKind::Number)]);
    }
    r
}

fn audio_delay_inputs() -> (r: Vec<PortDef>)
    ensures
        port_views(r@) == seq![("Audio"@, PortKind::Audio), ("Time"@, PortKind::Number), ("Feedback"@, PortKind::Normalized)],
{
    let r: Vec<PortDef> = vec![PortDef::new("Audio", PortKind::Audio), PortDef::new("Time", PortKind::Number), PortDef::new("Feedback", PortKind::Normalized)];
    proof {
        assert(port_views(r@) =~= seq![("Audio"@, PortKind::Audio), ("Time"@, PortKind::Number), ("Feedback"@, PortKind::Normalized)]);
    }
    r
}

fn audio_reverb_inputs() -> (r: Vec<PortDef>)
    ensures
        port_views(r@) == seq![("Audio"@, PortKind::Audio), ("Room"@, PortKind::Normalized), ("Damp"@, PortKind::Normalized), ("Mix"@, PortKind::Normalized)],
{
    let r: Vec<PortDef> = vec![PortDef::new("Audio", PortKind::Audio), PortDef::new("Room", PortKind::Normalized), PortDef::new("Damp", PortKind::Normalized), PortDef::new("Mix", PortKind::Normalized)];
    proof {
        assert(port_views(r@) =~= seq![("Audio"@, PortKind::Audio), ("Room"@, PortKind::Normalized), ("Damp"@, PortKind::Normalized), ("Mix"@, PortKind::Normalized)]);
    }
    r
}

fn image_effects_inputs() -> (r: Vec<PortDef>)
    ensures
        port_views(r@) == seq![("Image"@, PortKind::Image), ("Brightness"@, PortKind::Normalized), ("Contrast"@, PortKind::Normalized), ("Saturation"@, PortKind::Normalized), ("Hue"@, PortKind::Number), ("Exposure"@, PortKind::Number), ("Gamma"@, PortKind::Number)],
{
    let r: Vec<PortDef> = vec![PortDef::new("Image", PortKind::Image), PortDef::new("Brightness", PortKind::Normalized), PortDef::new("Contrast", PortKind::Normalized), PortDef::new("Saturation", PortKind::Normalized), PortDef::new("Hue", PortKind::Number), PortDef::new("Exposure", PortKind::Number), PortDef::new("Gamma", PortKind::Number)];
    proof {
        assert(port_views(r@) =~= seq![("Image"@, PortKind::Image), ("Brightness"@, PortKind::Normalized), ("Contrast"@, PortKind::Normalized), ("Saturation"@, PortKind::Normalized), ("Hue"@, PortKind::Number), ("Exposure"@, PortKind::Number), ("Gamma"@, PortKind::Number)]);
    }
    r
}

fn crop_inputs() -> (r: Vec<PortDef>)
    ensures
        port_views(r@) == seq![("Image"@, PortKind::Image), ("Top"@, PortKind::Normalized), ("Left"@, PortKind::Normalized), ("Bottom"@, PortKind::Normalized), ("Right"@, PortKind::Normalized)],
{
    let r: Vec<PortDef> = vec![PortDef::new("Image", PortKind::Image), PortDef::new("Top", PortKind::Normalized), PortDef::new("Left", PortKind::Normalized), PortDef::new("Bottom", PortKind::Normalized), PortDef::new("Right", PortKind::Normalized)];
    proof {
        assert(port_views(r@) =~= seq![("Image"@, PortKind::Image), ("Top"@, PortKind::Normalized), ("Left"@, PortKind::Normalized), ("Bottom"@, PortKind::Normalized), ("Right"@, PortKind::Normalized)]);
    }
    r
}

fn blend_inputs() -> (r: Vec<PortDef>)
    ensures
        port_views(r@) == seq![("A"@, PortKind::Image), ("B"@, PortKind::Image), ("Mix"@, PortKind::Normalized)],
{
    let r: Vec<PortDef> = vec![PortDef::new("A", PortKind::Image), PortDef::new("B", PortKind::Image), PortDef::new("Mix", PortKind::Normalized)];
    proof {
        assert(port_views(r@) =~= seq![("A"@, PortKind::Image), ("B"@, PortKind::Image), ("Mix"@, PortKind::Normalized)]);
    }
    r
}

fn curve_inputs() -> (r: Vec<PortDef>)
    ensures
        port_views(r@) == seq![("X"@, PortKind::Normalized), ("Trigger"@, PortKind::Trigger), ("Speed"@, PortKind::Number), ("Gate"@, PortKind::Gate)],
{
    let r: Vec<PortDef> = vec![PortDef::new("X", PortKind::Normalized), PortDef::new("Trigger", PortKind::Trigger), PortDef::new("Speed", PortKind::Number), PortDef::new("Gate", PortKind::Gate)];
    proof {
        assert(port_views(r@) =~= seq![("X"@, PortKind::Normalized), ("Trigger"@, PortKind::Trigger), ("Speed"@, PortKind::Number), ("Gate"@, PortKind::Gate)]);
    }
    r
}

fn noise_inputs() -> (r: Vec<PortDef>)
    ensures
        port_views(r@) == seq![("Seed"@, PortKind::Number), ("Scale"@, PortKind::Number), ("X"@, PortKind::Number), ("Y"@, PortKind::Number)],
{
    let r: Vec<PortDef> = vec![PortDef::new("Seed", PortKind::Number), PortDef::new("Scale", PortKind::Number), PortDef::new("X", PortKind::Number), PortDef::new("Y", PortKind::Number)];
    proof {
        assert(port_views(r@) =~= seq![("Seed"@, PortKind::Number), ("Scale"@, PortKind::Number), ("X"@, PortKind::Number), ("Y"@, PortKind::Number)]);
    }
    r
}

fn map_range_inputs() -> (r: Vec<PortDef>)
    ensures
        port_views(r@) == seq![("Value"@, PortKind::Number), ("In Min"@, PortKind::Number), ("In Max"@, PortKind::Number), ("Out Min"@, PortKind::Number), ("Out Max"@, PortKind::Number)],
{
    let r: Vec<PortDef> = vec![PortDef::new("Value", PortKind::Number), PortDef::new("In Min", PortKind::Number), PortDef::new("In Max", PortKind::Number), PortDef::new("Out Min", PortKind::Number), PortDef::new("Out Max", PortKind::Number)];
    proof {
        assert(port_views(r@) =~= seq![("Value"@, PortKind::Number), ("In Min"@, PortKind::Number), ("In Max"@, PortKind::Number), ("Out Min"@, PortKind::Number), ("Out Max"@, PortKind::Number)]);
    }
    r
}

fn select_inputs() -> (r: Vec<PortDef>)
    ensures
        port_views(r@) == seq![("A"@, PortKind::Generic), ("B"@, PortKind::Generic), ("Selector"@, PortKind::Normalized)],
{
    let r: Vec<PortDef> = vec![PortDef::new("A", PortKind::Generic), PortDef::new("B", PortKind::Generic), PortDef::new("Selector", PortKind::Normalized)];
    proof {
        assert(port_views(r@) =~= seq![("A"@, PortKind::Generic), ("B"@, PortKind::Generic), ("Selector"@, PortKind::Normalized)]);
    }
    r
}


// ── Fixed output lists ────────────────────────────────────────────────────

fn folder_browser_outputs() -> (r: Vec<PortDef>)
    ensures
        port_views(r@) == seq![("Path"@, PortKind::Text), ("Name"@, PortKind::Text), ("Content"@, PortKind::Text)],
{
    let r: Vec<PortDef> = vec![PortDef::new("Path", PortKind::Text), PortDef::new("Name", PortKind::Text), PortDef::new("Content", PortKind::Text)];
    proof {
        assert(port_views(r@) =~= seq![("Path"@, PortKind::Text), ("Name"@, PortKind::Text), ("Content"@, PortKind::Text)]);
    }
    r
}

fn color_outputs() -> (r: Vec<PortDef>)
    ensures
        port_views(r@) == seq![("R"@, PortKind::Color), ("G"@, PortKind::Color), ("B"@, PortKind::Color)],
{
    let r: Vec<PortDef> = vec![PortDef::new("R", PortKind::Color), PortDef::new("G", PortKind::Color), PortDef::new("B", PortKind::Color)];
    proof {
        assert(port_views(r@) =~= seq![("R"@, PortKind::Color), ("G"@, PortKind::Color), ("B"@, PortKind::Color)]);
    }
    r
}

fn midi_in_outputs() -> (r: Vec<PortDef>)
    ensures
        port_views(r@) == seq![("Channel"@, PortKind::Number), ("Note"@, PortKind::Number), ("Velocity"@, PortKind::Number)],
{
    let r: Vec<PortDef> = vec![PortDef::new("Channel", PortKind::Number), PortDef::new("Note", PortKind::Number), PortDef::new("Velocity", PortKind::Number)];
    proof {
        assert(port_views(r@) =~= seq![("Channel"@, PortKind::Number), ("Note"@, PortKind::Number), ("Velocity"@, PortKind::Number)]);
    }
    r
}

fn monitor_outputs() -> (r: Vec<PortDef>)
    ensures
        port_views(r@) == seq![("FPS"@, PortKind::Number), ("Frame ms"@, PortKind::Number), ("Nodes"@, PortKind::Number)],
{
    let r: Vec<PortDef> = vec![PortDef::new("FPS", PortKind::Number), PortDef::new("Frame ms", PortKind::Number), PortDef::new("Nodes", PortKind::Number)];
    proof {
        assert(port_views(r@) =~= seq![("FPS"@, PortKind::Number), ("Frame ms"@, PortKind::Number), ("Nodes"@, PortKind::Number)]);
    }
    r
}

fn key_input_outputs() -> (r: Vec<PortDef>)
    ensures
        port_views(r@) == seq![("Trigger"@, PortKind::Trigger), ("Held"@, PortKind::Gate), ("Toggle"@, PortKind::Gate)],
{
    let r: Vec<PortDef> = vec![PortDef::new("Trigger", PortKind::Trigger), PortDef::new("Held", PortKind::Gate), PortDef::new("Toggle", PortKind::Gate)];
    proof {
        assert(port_views(r@) =~= seq![("Trigger"@, PortKind::Trigger), ("Held"@, PortKind::Gate), ("Toggle"@, PortKind::Gate)]);
    }
    r
}

fn ob_joystick_outputs() -> (r: Vec<PortDef>)
    ensures
        port_views(r@) == seq![("X"@, PortKind::Normalized), ("Y"@, PortKind::Normalized), ("Button"@, PortKind::Gate)],
{
    let r: Vec<PortDef> = vec![PortDef::new("X", PortKind::Normalized), PortDef::new("Y", PortKind::Normalized), PortDef::new("Button", PortKind::Gate)];
    proof {
        assert(port_views(r@) =~= seq![("X"@, PortKind::Normalized), ("Y"@, PortKind::Normalized), ("Button"@, PortKind::Gate)]);
    }
    r
}

fn ob_encoder_outputs() -> (r: Vec<PortDef>)
    ensures
        port_views(r@) == seq![("Turn"@, PortKind::Number), ("Click"@, PortKind::Gate), ("Position"@, PortKind::Number)],
{
    let r: Vec<PortDef> = vec![PortDef::new("Turn", PortKind::Number), PortDef::new("Click", PortKind::Gate), PortDef::new("Position", PortKind::Number)];
    proof {
        assert(port_views(r@) =~= seq![("Turn"@, PortKind::Number), ("Click"@, PortKind::Gate), ("Position"@, PortKind::Number)]);
    }
    r
}

fn audio_analyzer_outputs() -> (r: Vec<PortDef>)
    ensures
        port_views(r@) == seq![("Amp"@, PortKind::Normalized), ("Peak"@, PortKind::Normalized), ("Bass"@, PortKind::Normalized), ("Mid"@, PortKind::Normalized), ("Treble"@, PortKind::Normalized)],
{
    let r: Vec<PortDef> = vec![PortDef::new("Amp", PortKind::Normalized), PortDef::new("Peak", PortKind::Normalized), PortDef::new("Bass", PortKind::Normalized), PortDef::new("Mid", PortKind::Normalized), PortDef::new("Treble", PortKind::Normalized)];
    proof {
        assert(port_views(r@) =~= seq![("Amp"@, PortKind::Normalized), ("Peak"@, PortKind::Normalized), ("Bass"@, PortKind::Normalized), ("Mid"@, PortKind::Normalized), ("Treble"@, PortKind::Normalized)]);
    }
    r
}

fn profiler_outputs() -> (r: Vec<PortDef>)
    ensures
        port_views(r@) == seq![("FPS"@, PortKind::Number), ("CPU %"@, PortKind::Number), ("RAM %"@, PortKind::Number), ("Proc MB"@, PortKind::Number)],
{
    let r: Vec<PortDef> = vec![PortDef::new("FPS", PortKind::Number), PortDef::new("CPU %", PortKind::Number), PortDef::new("RAM %", PortKind::Number), PortDef::new("Proc MB", PortKind::Number)];
    proof {
        assert(port_views(r@) =~= seq![("FPS"@, PortKind::Number), ("CPU %"@, PortKind::Number), ("RAM %"@, PortKind::Number), ("Proc MB"@, PortKind::Number)]);
    }
    r
}

fn curve_outputs() -> (r: Vec<PortDef>)
    ensures
        port_views(r@) == seq![("Y"@, PortKind::Normalized), ("Phase"@, PortKind::Normalized), ("End"@, PortKind::Trigger), ("Image"@, PortKind::Image)],
{
    let r: Vec<PortDef> = vec![PortDef::new("Y", PortKind::Normalized), PortDef::new("Phase", PortKind::Normalized), PortDef::new("End", PortKind::Trigger), PortDef::new("Image", PortKind::Image)];
    proof {
        assert(port_views(r@) =~= seq![("Y"@, PortKind::Normalized), ("Phase"@, PortKind::Normalized), ("End"@, PortKind::Trigger), ("Image"@, PortKind::Image)]);
    }
    r
}

fn ml_model_outputs() -> (r: Vec<PortDef>)
    ensures
        port_views(r@) == seq![("Annotated"@, PortKind::Image), ("Result"@, PortKind::Text), ("JSON"@, PortKind::Text)],
{
    let r: Vec<PortDef> = vec![PortDef::new("Annotated", PortKind::Image), PortDef::new("Result", PortKind::Text), PortDef::new("JSON", PortKind::Text)];
    proof {
        assert(port_views(r@) =~= seq![("Annotated"@, PortKind::Image), ("Result"@, PortKind::Text), ("JSON"@, PortKind::Text)]);
    }
    r
}

fn timer_outputs() -> (r: Vec<PortDef>)
    ensures
        port_views(r@) == seq![("Trigger"@, PortKind::Trigger), ("Phase"@, PortKind::Normalized), ("BPM"@, PortKind::Number)],
{
    let r: Vec<PortDef> = vec![PortDef::new("Trigger", PortKind::Trigger), PortDef::new("Phase", PortKind::Normalized), PortDef::new("BPM", PortKind::Number)];
    proof {
        assert(port_views(r@) =~= seq![("Trigger"@, PortKind::Trigger), ("Phase"@, PortKind::Normalized), ("BPM"@, PortKind::Number)]);
    }
    r
}

impl Graph<NodeType> {
    /// For each input port of node `node_id` (none when there is no such node),
    /// the output port wired to it, if any.
    pub fn collect_inputs(&self, node_id: NodeId) -> (r: Vec<Option<(NodeId, usize)>>)
        requires
            self.wf(),
        ensures
            !self.has_node(node_id) ==> r@.len() == 0,
            forall|i: int|
                0 <= i < self.node_seq().len() && (#[trigger] self.node_seq()[i]).id == node_id ==> r@.len()
                    == self.node_seq()[i].node_type.spec_inputs().len(),
            forall|p: int| 0 <= p < r@.len() ==> #[trigger] r@[p] == source_of(self.conn_seq(), node_id, p as usize),
    {
        proof {
            crate::graph::law_graph_invariants(*self);
        }
        match self.node(node_id) {
            None => self.input_sources(node_id, 0),
            Some(nt) => {
                let ports = nt.inputs();
                proof {
                    assert(port_views(ports@).len() == ports@.len());
                    let k = choose|k: int|
                        0 <= k < self.node_seq().len() && self.node_seq()[k].id == node_id
                            && self.node_seq()[k].node_type == *nt;
                    assert forall|i: int|
                        0 <= i < self.node_seq().len() && (#[trigger] self.node_seq()[i]).id == node_id implies i == k by {
                        if i < k {
                            assert(self.node_seq()[i].id < self.node_seq()[k].id);
                        } else if k < i {
                            assert(self.node_seq()[k].id < self.node_seq()[i].id);
                        }
                    }
                }
                self.input_sources(node_id, ports.len())
            },
        }
    }

    /// The kind of port `port_idx` of node `node_id`, among its outputs
    /// (`is_output`) or inputs; `None` when the node or the port does not exist.
    pub fn port_kind(&self, node_id: NodeId, port_idx: usize, is_output: bool) -> (r: Option<PortKind>)
        requires
            is_output ==> forall|i: int|
                0 <= i < self.node_seq().len() && (#[trigger] self.node_seq()[i]).id == node_id
                    ==> self.node_seq()[i].node_type.outputs_defined(),
        ensures
            match r {
                None => !self.has_node(node_id) || exists|i: int|
                    0 <= i < self.node_seq().len() && self.node_seq()[i].id == node_id && port_idx >= (if is_output {
                        self.node_seq()[i].node_type.spec_outputs()
                    } else {
                        self.node_seq()[i].node_type.spec_inputs()
                    }).len(),
                Some(k) => exists|i: int|
                    0 <= i < self.node_seq().len() && self.node_seq()[i].id == node_id && ({
                        let ports = if is_output {
                            self.node_seq()[i].node_type.spec_outputs()
                        } else {
                            self.node_seq()[i].node_type.spec_inputs()
                        };
                        port_idx < ports.len() && ports[port_idx as int].1 == k
                    }),
            },
    {
        match self.node(node_id) {
            None => None,
            Some(nt) => nt.port_kind(port_idx, is_output),
        }
    }
}

/// Whether a catalog entry with label `label` and category `category` is shown
/// for the search text `query`: an empty query shows everything; otherwise the
/// query, in lower case, must occur in the lower-case label or category.
pub open spec fn search_shows(query: Seq<char>, label: Seq<char>, category: Seq<char>) -> bool {
    let q = lower_text(query);
    q.len() == 0 || text_contains(lower_text(label), q) || text_contains(lower_text(category), q)
}

/// Whether the add-node menu shows an entry with label `label` and category
/// `category` for the search text `query`.
pub fn search_matches(query: &str, label: &str, category: &str) -> (r: bool)
    ensures
        r == search_shows(query@, label@, category@),
{
    let q = to_lower(query);
    if q.as_str().is_empty() {
        return true;
    }
    let l = to_lower(label);
    if contains_text(l.as_str(), q.as_str()) {
        return true;
    }
    let c = to_lower(category);
    contains_text(c.as_str(), q.as_str())
}

/// The title of every node kind, as the node table names it: for example the
/// low-pass filter is titled `Low Pass` and the high-pass filter `High Pass`.
pub proof fn law_titles(nt: NodeType)
    ensures
        match nt {
            NodeType::Slider => nt.spec_title() == "Slider"@,
            NodeType::Display => nt.spec_title() == "Display"@,
            NodeType::VisualOutput => nt.spec_title() == "Visual Output"@,
            NodeType::Add => nt.spec_title() == "Add"@,
            NodeType::Multiply => nt.spec_title() == "Multiply"@,
            NodeType::Math { .. } => nt.spec_title() == "Math"@,
            NodeType::File => nt.spec_title() == "File"@,
            NodeType::FolderBrowser => nt.spec_title() == "Folder"@,
            NodeType::TextEditor => nt.spec_title() == "Text Editor"@,
            NodeType::WgslViewer { .. } => nt.spec_title() == "WGSL Viewer"@,
            NodeType::MouseTracker => nt.spec_title() == "Mouse Tracker"@,
            NodeType::Time => nt.spec_title() == "Time"@,
            NodeType::Color => nt.spec_title() == "Color"@,
            NodeType::MidiOut { .. } => nt.spec_title() == "MIDI Out"@,
            NodeType::MidiIn => nt.spec_title() == "MIDI In"@,
            NodeType::Theme => nt.spec_title() == "Theme"@,
            NodeType::Serial => nt.spec_title() == "Serial"@,
            NodeType::Comment => nt.spec_title() == "Comment"@,
            NodeType::Script { .. } => nt.spec_title() == "Script"@,
            NodeType::Console => nt.spec_title() == "Console"@,
            NodeType::Monitor => nt.spec_title() == "Monitor"@,
            NodeType::OscOut { .. } => nt.spec_title() == "OSC Out"@,
            NodeType::OscIn { .. } => nt.spec_title() == "OSC In"@,
            NodeType::KeyInput => nt.spec_title() == "Keyboard Input"@,
            NodeType::Palette => nt.spec_title() == "Node Palette"@,
            NodeType::HttpRequest => nt.spec_title() == "HTTP Request"@,
            NodeType::AiRequest => nt.spec_title() == "AI Request"@,
            NodeType::JsonExtract => nt.spec_title() == "JSON Extract"@,
            NodeType::FileMenu => nt.spec_title() == "File"@,
            NodeType::ZoomControl => nt.spec_title() == "Zoom"@,
            NodeType::ObHub { .. } => nt.spec_title() == "OB Hub"@,
            NodeType::ObJoystick => nt.spec_title() == "OB Joystick"@,
            NodeType::ObEncoder => nt.spec_title() == "OB Encoder"@,
            NodeType::Synth => nt.spec_title() == "Synth"@,
            NodeType::AudioPlayer => nt.spec_title() == "Audio Player"@,
            NodeType::AudioInput => nt.spec_title() == "Audio Input"@,
            NodeType::AudioAnalyzer => nt.spec_title() == "Audio Analyzer"@,
            NodeType::AudioDevice => nt.spec_title() == "Audio Device"@,
            NodeType::AudioFx => nt.spec_title() == "Audio FX"@,
            NodeType::AudioDelay => nt.spec_title() == "Delay"@,
            NodeType::AudioDistortion => nt.spec_title() == "Distortion"@,
            NodeType::AudioLowPass => nt.spec_title() == "Low Pass"@,
            NodeType::AudioHighPass => nt.spec_title() == "High Pass"@,
            NodeType::AudioGain => nt.spec_title() == "Gain"@,
            NodeType::AudioReverb => nt.spec_title() == "Reverb"@,
            NodeType::AudioEq => nt.spec_title() == "EQ"@,
            NodeType::Speaker => nt.spec_title() == "Speaker"@,
            NodeType::AudioMixer { .. } => nt.spec_title() == "Mixer"@,
            NodeType::RustPlugin { .. } => nt.spec_title() == "Rust Plugin"@,
            NodeType::McpServer => nt.spec_title() == "MCP Server"@,
            NodeType::Profiler => nt.spec_title() == "System Profiler"@,
            NodeType::HtmlViewer => nt.spec_title() == "HTML Viewer"@,
            NodeType::ImageNode => nt.spec_title() == "Image"@,
            NodeType::ImageEffects => nt.spec_title() == "Image Effects"@,
            NodeType::Crop => nt.spec_title() == "Crop"@,
            NodeType::Blend => nt.spec_title() == "Blend"@,
            NodeType::Curve => nt.spec_title() == "Curve"@,
            NodeType::Draw => nt.spec_title() == "Draw"@,
            NodeType::Noise => nt.spec_title() == "Noise"@,
            NodeType::ColorCurves => nt.spec_title() == "Color Curves"@,
            NodeType::VideoPlayer => nt.spec_title() == "Video Player"@,
            NodeType::Camera => nt.spec_title() == "Camera"@,
            NodeType::MlModel => nt.spec_title() == "ML Model"@,
            NodeType::Gate => nt.spec_title() == "Gate"@,
            NodeType::Timer => nt.spec_title() == "Timer"@,
            NodeType::MapRange => nt.spec_title() == "Map/Range"@,
            NodeType::StringFormat { .. } => nt.spec_title() == "String Format"@,
            NodeType::SampleHold => nt.spec_title() == "Sample & Hold"@,
            NodeType::Select => nt.spec_title() == "Select"@,
        },
{
}

/// The input ports of every node kind, in order, with their kinds, as the node
/// table gives them: for example a gate takes `Value` then `Threshold`, both
/// numbers.
pub proof fn law_input_ports(nt: NodeType)
    ensures
        match nt {
            NodeType::Slider => nt.spec_inputs() == seq![("In"@, PortKind::Number)],
            NodeType::Display => nt.spec_inputs() == seq![("Value"@, PortKind::Generic)],
            NodeType::VisualOutput => nt.spec_inputs() == seq![("Image"@, PortKind::Image)],
            NodeType::Add => nt.spec_inputs() == seq![("A"@, PortKind::Number), ("B"@, PortKind::Number)],
            NodeType::Multiply => nt.spec_inputs() == seq![("A"@, PortKind::Number), ("B"@, PortKind::Number)],
            NodeType::Math { variables, .. } => nt.spec_inputs() == variables@.map_values(|c: char| (seq![c], PortKind::Number)),
            NodeType::File => nt.spec_inputs() == Seq::<(Seq<char>, PortKind)>::empty(),
            NodeType::FolderBrowser => nt.spec_inputs() == Seq::<(Seq<char>, PortKind)>::empty(),
            NodeType::TextEditor => nt.spec_inputs() == seq![("Text In"@, PortKind::Text)],
            NodeType::WgslViewer { uniform_names, uniform_types, .. } => nt.spec_inputs() == seq![("WGSL"@, PortKind::Text)] + wgsl_uniform_ports(texts(uniform_names@), texts(uniform_types@), uniform_names@.len()),
            NodeType::MouseTracker => nt.spec_inputs() == Seq::<(Seq<char>, PortKind)>::empty(),
            NodeType::Time => nt.spec_inputs() == Seq::<(Seq<char>, PortKind)>::empty(),
            NodeType::Color => nt.spec_inputs() == seq![("R"@, PortKind::Color), ("G"@, PortKind::Color), ("B"@, PortKind::Color)],
            NodeType::MidiOut { mode, .. } => nt.spec_inputs() == match mode { MidiMode::Note => seq![("Channel"@, PortKind::Number), ("Note"@, PortKind::Number), ("Velocity"@, PortKind::Number)], MidiMode::CC => seq![("Channel"@, PortKind::Number), ("CC#"@, PortKind::Number), ("Value"@, PortKind::Number)] },
            NodeType::MidiIn => nt.spec_inputs() == Seq::<(Seq<char>, PortKind)>::empty(),
            NodeType::Theme => nt.spec_inputs() == Seq::<(Seq<char>, PortKind)>::empty(),
            NodeType::Serial => nt.spec_inputs() == seq![("Send"@, PortKind::Text)],
            NodeType::Comment => nt.spec_inputs() == Seq::<(Seq<char>, PortKind)>::empty(),
            NodeType::Script { input_names, continuous, .. } => nt.spec_inputs() == script_head(continuous) + named_ports(texts(input_names@), PortKind::Generic),
            NodeType::Console => nt.spec_inputs() == Seq::<(Seq<char>, PortKind)>::empty(),
            NodeType::Monitor => nt.spec_inputs() == Seq::<(Seq<char>, PortKind)>::empty(),
            NodeType::OscOut { arg_count, .. } => nt.spec_inputs() == arg_ports(arg_count as nat),
            NodeType::OscIn { .. } => nt.spec_inputs() == Seq::<(Seq<char>, PortKind)>::empty(),
            NodeType::KeyInput => nt.spec_inputs() == Seq::<(Seq<char>, PortKind)>::empty(),
            NodeType::Palette => nt.spec_inputs() == Seq::<(Seq<char>, PortKind)>::empty(),
            NodeType::HttpRequest => nt.spec_inputs() == seq![("URL"@, PortKind::Text), ("Body"@, PortKind::Text), ("Headers"@, PortKind::Text)],
            NodeType::AiRequest => nt.spec_inputs() == seq![("System"@, PortKind::Text), ("Prompt"@, PortKind::Text), ("Send"@, PortKind::Trigger)],
            NodeType::JsonExtract => nt.spec_inputs() == seq![("JSON"@, PortKind::Text)],
            NodeType::FileMenu => nt.spec_inputs() == Seq::<(Seq<char>, PortKind)>::empty(),
            NodeType::ZoomControl => nt.spec_inputs() == seq![("Zoom"@, PortKind::Number)],
            NodeType::ObHub { .. } => nt.spec_inputs() == seq![("Command"@, PortKind::Text)],
            NodeType::ObJoystick => nt.spec_inputs() == Seq::<(Seq<char>, PortKind)>::empty(),
            NodeType::ObEncoder => nt.spec_inputs() == Seq::<(Seq<char>, PortKind)>::empty(),
            NodeType::Synth => nt.spec_inputs() == seq![("Freq"@, PortKind::Number), ("Amp"@, PortKind::Normalized), ("Gate"@, PortKind::Gate), ("FM Wt"@, PortKind::Normalized)],
            NodeType::AudioPlayer => nt.spec_inputs() == seq![("Play"@, PortKind::Trigger), ("Volume"@, PortKind::Normalized), ("Seek"@, PortKind::Normalized), ("Speed"@, PortKind::Number)],
            NodeType::AudioInput => nt.spec_inputs() == seq![("Gain"@, PortKind::Normalized)],
            NodeType::AudioAnalyzer => nt.spec_inputs() == seq![("Audio"@, PortKind::Audio)],
            NodeType::AudioDevice => nt.spec_inputs() == Seq::<(Seq<char>, PortKind)>::empty(),
            NodeType::AudioFx => nt.spec_inputs() == seq![("Source"@, PortKind::Audio)],
            NodeType::AudioDelay => nt.spec_inputs() == seq![("Audio"@, PortKind::Audio), ("Time"@, PortKind::Number), ("Feedback"@, PortKind::Normalized)],
            NodeType::AudioDistortion => nt.spec_inputs() == seq![("Audio"@, PortKind::Audio), ("Drive"@, PortKind::Number)],
            NodeType::AudioLowPass => nt.spec_inputs() == seq![("Audio"@, PortKind::Audio), ("Cutoff"@, PortKind::Number)],
            NodeType::AudioHighPass => nt.spec_inputs() == seq![("Audio"@, PortKind::Audio), ("Cutoff"@, PortKind::Number)],
            NodeType::AudioGain => nt.spec_inputs() == seq![("Audio"@, PortKind::Audio), ("Level"@, PortKind::Number)],
            NodeType::AudioReverb => nt.spec_inputs() == seq![("Audio"@, PortKind::Audio), ("Room"@, PortKind::Normalized), ("Damp"@, PortKind::Normalized), ("Mix"@, PortKind::Normalized)],
            NodeType::AudioEq => nt.spec_inputs() == seq![("Audio"@, PortKind::Audio)],
            NodeType::Speaker => nt.spec_inputs() == seq![("Audio"@, PortKind::Audio), ("Volume"@, PortKind::Normalized)],
            NodeType::AudioMixer { channel_count, .. } => nt.spec_inputs() == mixer_ports(channel_count as nat),
            NodeType::RustPlugin { input_names, .. } => nt.spec_inputs() == named_ports(texts(input_names@), PortKind::Generic),
            NodeType::McpServer => nt.spec_inputs() == Seq::<(Seq<char>, PortKind)>::empty(),
            NodeType::Profiler => nt.spec_inputs() == Seq::<(Seq<char>, PortKind)>::empty(),
            NodeType::HtmlViewer => nt.spec_inputs() == seq![("HTML"@, PortKind::Text)],
            NodeType::ImageNode => nt.spec_inputs() == seq![("Image In"@, PortKind::Image)],
            NodeType::ImageEffects => nt.spec_inputs() == seq![("Image"@, PortKind::Image), ("Brightness"@, PortKind::Normalized), ("Contrast"@, PortKind::Normalized), ("Saturation"@, PortKind::Normalized), ("Hue"@, PortKind::Number), ("Exposure"@, PortKind::Number), ("Gamma"@, PortKind::Number)],
            NodeType::Crop => nt.spec_inputs() == seq![("Image"@, PortKind::Image), ("Top"@, PortKind::Normalized), ("Left"@, PortKind::Normalized), ("Bottom"@, PortKind::Normalized), ("Right"@, PortKind::Normalized)],
            NodeType::Blend => nt.spec_inputs() == seq![("A"@, PortKind::Image), ("B"@, PortKind::Image), ("Mix"@, PortKind::Normalized)],
            NodeType::Curve => nt.spec_inputs() == seq![("X"@, PortKind::Normalized), ("Trigger"@, PortKind::Trigger), ("Speed"@, PortKind::Number), ("Gate"@, PortKind::Gate)],
            NodeType::Draw => nt.spec_inputs() == Seq::<(Seq<char>, PortKind)>::empty(),
            NodeType::Noise => nt.spec_inputs() == seq![("Seed"@, PortKind::Number), ("Scale"@, PortKind::Number), ("X"@, PortKind::Number), ("Y"@, PortKind::Number)],
            NodeType::ColorCurves => nt.spec_inputs() == seq![("Image"@, PortKind::Image)],
            NodeType::VideoPlayer => nt.spec_inputs() == Seq::<(Seq<char>, PortKind)>::empty(),
            NodeType::Camera => nt.spec_inputs() == Seq::<(Seq<char>, PortKind)>::empty(),
            NodeType::MlModel => nt.spec_inputs() == seq![("Image"@, PortKind::Image)],
            NodeType::Gate => nt.spec_inputs() == seq![("Value"@, PortKind::Number), ("Threshold"@, PortKind::Number)],
            NodeType::Timer => nt.spec_inputs() == seq![("Interval"@, PortKind::Number), ("BPM"@, PortKind::Number)],
            NodeType::MapRange => nt.spec_inputs() == seq![("Value"@, PortKind::Number), ("In Min"@, PortKind::Number), ("In Max"@, PortKind::Number), ("Out Min"@, PortKind::Number), ("Out Max"@, PortKind::Number)],
            NodeType::StringFormat { arg_count, .. } => nt.spec_inputs() == seq![("Template"@, PortKind::Text)] + arg_ports(arg_count as nat),
            NodeType::SampleHold => nt.spec_inputs() == seq![("Value"@, PortKind::Generic), ("Trigger"@, PortKind::Trigger)],
            NodeType::Select => nt.spec_inputs() == seq![("A"@, PortKind::Generic), ("B"@, PortKind::Generic), ("Selector"@, PortKind::Normalized)],
        },
{
}

/// The output ports of every node kind, in order, with their kinds, as the node
/// table gives them.
pub proof fn law_output_ports(nt: NodeType)
    ensures
        match nt {
            NodeType::Slider => nt.spec_outputs() == seq![("Value"@, PortKind::Number)],
            NodeType::Display => nt.spec_outputs() == Seq::<(Seq<char>, PortKind)>::empty(),
            NodeType::VisualOutput => nt.spec_outputs() == Seq::<(Seq<char>, PortKind)>::empty(),
            NodeType::Add => nt.spec_outputs() == seq![("Result"@, PortKind::Number)],
            NodeType::Multiply => nt.spec_outputs() == seq![("Result"@, PortKind::Number)],
            NodeType::Math { .. } => nt.spec_outputs() == seq![("Result"@, PortKind::Number)],
            NodeType::File => nt.spec_outputs() == seq![("Content"@, PortKind::Text)],
            NodeType::FolderBrowser => nt.spec_outputs() == seq![("Path"@, PortKind::Text), ("Name"@, PortKind::Text), ("Content"@, PortKind::Text)],
            NodeType::TextEditor => nt.spec_outputs() == seq![("Text Out"@, PortKind::Text)],
            NodeType::WgslViewer { .. } => nt.spec_outputs() == Seq::<(Seq<char>, PortKind)>::empty(),
            NodeType::MouseTracker => nt.spec_outputs() == seq![("X"@, PortKind::Number), ("Y"@, PortKind::Number)],
            NodeType::Time => nt.spec_outputs() == seq![("Seconds"@, PortKind::Number), ("Beat"@, PortKind::Normalized)],
            NodeType::Color => nt.spec_outputs() == seq![("R"@, PortKind::Color), ("G"@, PortKind::Color), ("B"@, PortKind::Color)],
            NodeType::MidiOut { .. } => nt.spec_outputs() == Seq::<(Seq<char>, PortKind)>::empty(),
            NodeType::MidiIn => nt.spec_outputs() == seq![("Channel"@, PortKind::Number), ("Note"@, PortKind::Number), ("Velocity"@, PortKind::Number)],
            NodeType::Theme => nt.spec_outputs() == Seq::<(Seq<char>, PortKind)>::empty(),
            NodeType::Serial => nt.spec_outputs() == seq![("Received"@, PortKind::Text)],
            NodeType::Comment => nt.spec_outputs() == Seq::<(Seq<char>, PortKind)>::empty(),
            NodeType::Script { output_names, .. } => nt.spec_outputs() == named_ports(texts(output_names@), PortKind::Generic),
            NodeType::Console => nt.spec_outputs() == Seq::<(Seq<char>, PortKind)>::empty(),
            NodeType::Monitor => nt.spec_outputs() == seq![("FPS"@, PortKind::Number), ("Frame ms"@, PortKind::Number), ("Nodes"@, PortKind::Number)],
            NodeType::OscOut { .. } => nt.spec_outputs() == Seq::<(Seq<char>, PortKind)>::empty(),
            NodeType::OscIn { arg_count, .. } => nt.spec_outputs() == arg_ports(arg_count as nat),
            NodeType::KeyInput => nt.spec_outputs() == seq![("Trigger"@, PortKind::Trigger), ("Held"@, PortKind::Gate), ("Toggle"@, PortKind::Gate)],
            NodeType::Palette => nt.spec_outputs() == Seq::<(Seq<char>, PortKind)>::empty(),
            NodeType::HttpRequest => nt.spec_outputs() == seq![("Response"@, PortKind::Text), ("Status"@, PortKind::Text)],
            NodeType::AiRequest => nt.spec_outputs() == seq![("Response"@, PortKind::Text), ("Status"@, PortKind::Text)],
            NodeType::JsonExtract => nt.spec_outputs() == seq![("Value"@, PortKind::Generic)],
            NodeType::FileMenu => nt.spec_outputs() == Seq::<(Seq<char>, PortKind)>::empty(),
            NodeType::ZoomControl => nt.spec_outputs() == seq![("Zoom"@, PortKind::Number)],
            NodeType::ObHub { detected_devices, .. } => nt.spec_outputs() == ob_hub_ports(detected_devices@),
            NodeType::ObJoystick => nt.spec_outputs() == seq![("X"@, PortKind::Normalized), ("Y"@, PortKind::Normalized), ("Button"@, PortKind::Gate)],
            NodeType::ObEncoder => nt.spec_outputs() == seq![("Turn"@, PortKind::Number), ("Click"@, PortKind::Gate), ("Position"@, PortKind::Number)],
            NodeType::Synth => nt.spec_outputs() == seq![("Audio"@, PortKind::Audio)],
            NodeType::AudioPlayer => nt.spec_outputs() == seq![("Audio"@, PortKind::Audio), ("Progress"@, PortKind::Normalized)],
            NodeType::AudioInput => nt.spec_outputs() == seq![("Audio"@, PortKind::Audio)],
            NodeType::AudioAnalyzer => nt.spec_outputs() == seq![("Amp"@, PortKind::Normalized), ("Peak"@, PortKind::Normalized), ("Bass"@, PortKind::Normalized), ("Mid"@, PortKind::Normalized), ("Treble"@, PortKind::Normalized)],
            NodeType::AudioDevice => nt.spec_outputs() == Seq::<(Seq<char>, PortKind)>::empty(),
            NodeType::AudioFx => nt.spec_outputs() == seq![("Audio"@, PortKind::Audio)],
            NodeType::AudioDelay => nt.spec_outputs() == seq![("Audio"@, PortKind::Audio)],
            NodeType::AudioDistortion => nt.spec_outputs() == seq![("Audio"@, PortKind::Audio)],
            NodeType::AudioLowPass => nt.spec_outputs() == seq![("Audio"@, PortKind::Audio)],
            NodeType::AudioHighPass => nt.spec_outputs() == seq![("Audio"@, PortKind::Audio)],
            NodeType::AudioGain => nt.spec_outputs() == seq![("Audio"@, PortKind::Audio)],
            NodeType::AudioReverb => nt.spec_outputs() == seq![("Audio"@, PortKind::Audio)],
            NodeType::AudioEq => nt.spec_outputs() == seq![("Audio"@, PortKind::Audio)],
            NodeType::Speaker => nt.spec_outputs() == Seq::<(Seq<char>, PortKind)>::empty(),
            NodeType::AudioMixer { .. } => nt.spec_outputs() == seq![("Mix"@, PortKind::Audio)],
            NodeType::RustPlugin { output_names, .. } => nt.spec_outputs() == named_ports(texts(output_names@), PortKind::Generic),
            NodeType::McpServer => nt.spec_outputs() == Seq::<(Seq<char>, PortKind)>::empty(),
            NodeType::Profiler => nt.spec_outputs() == seq![("FPS"@, PortKind::Number), ("CPU %"@, PortKind::Number), ("RAM %"@, PortKind::Number), ("Proc MB"@, PortKind::Number)],
            NodeType::HtmlViewer => nt.spec_outputs() == seq![("URL"@, PortKind::Text)],
            NodeType::ImageNode => nt.spec_outputs() == seq![("Image"@, PortKind::Image)],
            NodeType::ImageEffects => nt.spec_outputs() == seq![("Image"@, PortKind::Image)],
            NodeType::Crop => nt.spec_outputs() == seq![("Cropped"@, PortKind::Image)],
            NodeType::Blend => nt.spec_outputs() == seq![("Image"@, PortKind::Image)],
            NodeType::Curve => nt.spec_outputs() == seq![("Y"@, PortKind::Normalized), ("Phase"@, PortKind::Normalized), ("End"@, PortKind::Trigger), ("Image"@, PortKind::Image)],
            NodeType::Draw => nt.spec_outputs() == seq![("Image"@, PortKind::Image), ("Points"@, PortKind::Text)],
            NodeType::Noise => nt.spec_outputs() == seq![("Value"@, PortKind::Number), ("Image"@, PortKind::Image)],
            NodeType::ColorCurves => nt.spec_outputs() == seq![("Image"@, PortKind::Image)],
            NodeType::VideoPlayer => nt.spec_outputs() == seq![("Frame"@, PortKind::Image), ("Progress"@, PortKind::Normalized)],
            NodeType::Camera => nt.spec_outputs() == seq![("Frame"@, PortKind::Image)],
            NodeType::MlModel => nt.spec_outputs() == seq![("Annotated"@, PortKind::Image), ("Result"@, PortKind::Text), ("JSON"@, PortKind::Text)],
            NodeType::Gate => nt.spec_outputs() == seq![("Out"@, PortKind::Number), ("Pass"@, PortKind::Gate)],
            NodeType::Timer => nt.spec_outputs() == seq![("Trigger"@, PortKind::Trigger), ("Phase"@, PortKind::Normalized), ("BPM"@, PortKind::Number)],
            NodeType::MapRange => nt.spec_outputs() == seq![("Value"@, PortKind::Number)],
            NodeType::StringFormat { .. } => nt.spec_outputs() == seq![("Text"@, PortKind::Text)],
            NodeType::SampleHold => nt.spec_outputs() == seq![("Out"@, PortKind::Generic), ("Trigger"@, PortKind::Trigger)],
            NodeType::Select => nt.spec_outputs() == seq![("Out"@, PortKind::Generic), ("Active"@, PortKind::Gate)],
        },
{
}

/// The colour hint of every node kind, as the node table gives it.
pub proof fn law_color_hints(nt: NodeType)
    ensures
        match nt {
            NodeType::Slider => nt.spec_color_hint() == [80u8, 160u8, 255u8],
            NodeType::Display => nt.spec_color_hint() == [100u8, 200u8, 100u8],
            NodeType::VisualOutput => nt.spec_color_hint() == [200u8, 100u8, 255u8],
            NodeType::Add => nt.spec_color_hint() == [200u8, 160u8, 80u8],
            NodeType::Multiply => nt.spec_color_hint() == [200u8, 160u8, 80u8],
            NodeType::Math { .. } => nt.spec_color_hint() == [200u8, 160u8, 80u8],
            NodeType::File => nt.spec_color_hint() == [180u8, 120u8, 200u8],
            NodeType::FolderBrowser => nt.spec_color_hint() == [140u8, 160u8, 200u8],
            NodeType::TextEditor => nt.spec_color_hint() == [160u8, 140u8, 220u8],
            NodeType::WgslViewer { .. } => nt.spec_color_hint() == [220u8, 140u8, 60u8],
            NodeType::MouseTracker => nt.spec_color_hint() == [200u8, 100u8, 100u8],
            NodeType::Time => nt.spec_color_hint() == [180u8, 220u8, 100u8],
            NodeType::Color => nt.spec_color_hint() == [255u8, 120u8, 180u8],
            NodeType::MidiOut { .. } => nt.spec_color_hint() == [60u8, 180u8, 180u8],
            NodeType::MidiIn => nt.spec_color_hint() == [80u8, 200u8, 160u8],
            NodeType::Theme => nt.spec_color_hint() == [255u8, 180u8, 80u8],
            NodeType::Serial => nt.spec_color_hint() == [200u8, 180u8, 60u8],
            NodeType::Comment => nt.spec_color_hint() == [140u8, 140u8, 140u8],
            NodeType::Script { .. } => nt.spec_color_hint() == [150u8, 100u8, 200u8],
            NodeType::Console => nt.spec_color_hint() == [100u8, 150u8, 100u8],
            NodeType::Monitor => nt.spec_color_hint() == [80u8, 200u8, 200u8],
            NodeType::OscOut { .. } => nt.spec_color_hint() == [220u8, 120u8, 60u8],
            NodeType::OscIn { .. } => nt.spec_color_hint() == [60u8, 160u8, 220u8],
            NodeType::KeyInput => nt.spec_color_hint() == [220u8, 180u8, 60u8],
            NodeType::Palette => nt.spec_color_hint() == [120u8, 120u8, 180u8],
            NodeType::HttpRequest => nt.spec_color_hint() == [60u8, 180u8, 120u8],
            NodeType::AiRequest => nt.spec_color_hint() == [180u8, 100u8, 255u8],
            NodeType::JsonExtract => nt.spec_color_hint() == [200u8, 160u8, 60u8],
            NodeType::FileMenu => nt.spec_color_hint() == [200u8, 200u8, 200u8],
            NodeType::ZoomControl => nt.spec_color_hint() == [160u8, 160u8, 160u8],
            NodeType::ObHub { .. } => nt.spec_color_hint() == [40u8, 180u8, 120u8],
            NodeType::ObJoystick => nt.spec_color_hint() == [80u8, 160u8, 255u8],
            NodeType::ObEncoder => nt.spec_color_hint() == [200u8, 140u8, 80u8],
            NodeType::Synth => nt.spec_color_hint() == [100u8, 220u8, 180u8],
            NodeType::AudioPlayer => nt.spec_color_hint() == [180u8, 100u8, 220u8],
            NodeType::AudioInput => nt.spec_color_hint() == [220u8, 80u8, 120u8],
            NodeType::AudioAnalyzer => nt.spec_color_hint() == [255u8, 180u8, 60u8],
            NodeType::AudioDevice => nt.spec_color_hint() == [220u8, 180u8, 100u8],
            NodeType::AudioFx => nt.spec_color_hint() == [200u8, 100u8, 160u8],
            NodeType::AudioDelay => nt.spec_color_hint() == [180u8, 120u8, 200u8],
            NodeType::AudioDistortion => nt.spec_color_hint() == [220u8, 80u8, 80u8],
            NodeType::AudioLowPass => nt.spec_color_hint() == [100u8, 160u8, 200u8],
            NodeType::AudioHighPass => nt.spec_color_hint() == [200u8, 160u8, 100u8],
            NodeType::AudioGain => nt.spec_color_hint() == [160u8, 200u8, 100u8],
            NodeType::AudioReverb => nt.spec_color_hint() == [120u8, 140u8, 220u8],
            NodeType::AudioEq => nt.spec_color_hint() == [200u8, 160u8, 255u8],
            NodeType::Speaker => nt.spec_color_hint() == [80u8, 200u8, 80u8],
            NodeType::AudioMixer { .. } => nt.spec_color_hint() == [160u8, 120u8, 220u8],
            NodeType::RustPlugin { .. } => nt.spec_color_hint() == [255u8, 120u8, 50u8],
            NodeType::McpServer => nt.spec_color_hint() == [120u8, 200u8, 255u8],
            NodeType::Profiler => nt.spec_color_hint() == [255u8, 160u8, 60u8],
            NodeType::HtmlViewer => nt.spec_color_hint() == [60u8, 180u8, 220u8],
            NodeType::ImageNode => nt.spec_color_hint() == [200u8, 140u8, 220u8],
            NodeType::ImageEffects => nt.spec_color_hint() == [180u8, 120u8, 200u8],
            NodeType::Crop => nt.spec_color_hint() == [160u8, 140u8, 200u8],
            NodeType::Blend => nt.spec_color_hint() == [160u8, 100u8, 180u8],
            NodeType::Curve => nt.spec_color_hint() == [100u8, 200u8, 160u8],
            NodeType::Draw => nt.spec_color_hint() == [200u8, 180u8, 100u8],
            NodeType::Noise => nt.spec_color_hint() == [140u8, 180u8, 140u8],
            NodeType::ColorCurves => nt.spec_color_hint() == [220u8, 140u8, 160u8],
            NodeType::VideoPlayer => nt.spec_color_hint() == [220u8, 80u8, 140u8],
            NodeType::Camera => nt.spec_color_hint() == [80u8, 200u8, 140u8],
            NodeType::MlModel => nt.spec_color_hint() == [200u8, 80u8, 255u8],
            NodeType::Gate => nt.spec_color_hint() == [220u8, 180u8, 60u8],
            NodeType::Timer => nt.spec_color_hint() == [100u8, 200u8, 180u8],
            NodeType::MapRange => nt.spec_color_hint() == [180u8, 140u8, 220u8],
            NodeType::StringFormat { .. } => nt.spec_color_hint() == [220u8, 160u8, 100u8],
            NodeType::SampleHold => nt.spec_color_hint() == [120u8, 200u8, 160u8],
            NodeType::Select => nt.spec_color_hint() == [200u8, 160u8, 120u8],
        },
{
}

/// Which node kinds draw their ports inline, as the node table gives it.
pub proof fn law_inline_ports(nt: NodeType)
    ensures
        match nt {
            NodeType::Slider => nt.spec_inline_ports() == true,
            NodeType::Display => nt.spec_inline_ports() == true,
            NodeType::VisualOutput => nt.spec_inline_ports() == true,
            NodeType::Math { .. } => nt.spec_inline_ports() == true,
            NodeType::WgslViewer { .. } => nt.spec_inline_ports() == true,
            NodeType::Color => nt.spec_inline_ports() == true,
            NodeType::MidiOut { .. } => nt.spec_inline_ports() == true,
            NodeType::Theme => nt.spec_inline_ports() == true,
            NodeType::HttpRequest => nt.spec_inline_ports() == true,
            NodeType::AiRequest => nt.spec_inline_ports() == true,
            NodeType::Synth => nt.spec_inline_ports() == true,
            NodeType::AudioPlayer => nt.spec_inline_ports() == true,
            NodeType::AudioInput => nt.spec_inline_ports() == true,
            NodeType::AudioDelay => nt.spec_inline_ports() == true,
            NodeType::AudioDistortion => nt.spec_inline_ports() == true,
            NodeType::AudioLowPass => nt.spec_inline_ports() == true,
            NodeType::AudioHighPass => nt.spec_inline_ports() == true,
            NodeType::AudioGain => nt.spec_inline_ports() == true,
            NodeType::AudioReverb => nt.spec_inline_ports() == true,
            NodeType::AudioEq => nt.spec_inline_ports() == true,
            NodeType::Speaker => nt.spec_inline_ports() == true,
            NodeType::AudioMixer { .. } => nt.spec_inline_ports() == true,
            NodeType::ImageEffects => nt.spec_inline_ports() == true,
            NodeType::Crop => nt.spec_inline_ports() == true,
            NodeType::Blend => nt.spec_inline_ports() == true,
            NodeType::Curve => nt.spec_inline_ports() == true,
            NodeType::Gate => nt.spec_inline_ports() == true,
            NodeType::Timer => nt.spec_inline_ports() == true,
            NodeType::MapRange => nt.spec_inline_ports() == true,
            NodeType::StringFormat { .. } => nt.spec_inline_ports() == true,
            NodeType::SampleHold => nt.spec_inline_ports() == true,
            NodeType::Select => nt.spec_inline_ports() == true,
            _ => nt.spec_inline_ports() == false,
        },
{
}

/// Which node kinds render their own body, as the node table gives it.
pub proof fn law_custom_render(nt: NodeType)
    ensures
        match nt {
            NodeType::Slider => nt.spec_custom_render() == true,
            NodeType::Display => nt.spec_custom_render() == true,
            NodeType::Comment => nt.spec_custom_render() == true,
            _ => nt.spec_custom_render() == false,
        },
{
}

} // verus!
