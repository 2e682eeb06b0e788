use vstd::prelude::*;

verus! {

// ── Defaults of saved node fields ──────────────────────────────────────────

pub fn default_true() -> (r: bool)
    ensures
        r,
{
    true
}

pub fn default_bg_color() -> (r: [u8; 3])
    ensures
        r == [20u8, 20u8, 20u8],
{
    [20, 20, 20]
}

pub fn default_text_color() -> (r: [u8; 3])
    ensures
        r == [220u8, 220u8, 220u8],
{
    [220, 220, 220]
}

pub fn default_window_bg() -> (r: [u8; 3])
    ensures
        r == [24u8, 24u8, 24u8],
{
    [24, 24, 24]
}

pub fn default_window_alpha() -> (r: u8)
    ensures
        r == 240,
{
    240
}

pub fn default_grid_color() -> (r: [u8; 3])
    ensures
        r == [28u8, 28u8, 28u8],
{
    [28, 28, 28]
}

pub fn default_slider_color() -> (r: [u8; 3])
    ensures
        r == [80u8, 160u8, 255u8],
{
    [80, 160, 255]
}

/// Grid style 2: dotted.
pub fn default_grid_style() -> (r: u8)
    ensures
        r == 2,
{
    2
}

pub fn default_display_color() -> (r: [u8; 3])
    ensures
        r == [80u8, 200u8, 120u8],
{
    [80, 200, 120]
}

pub fn default_comment_color() -> (r: [u8; 3])
    ensures
        r == [45u8, 45u8, 50u8],
{
    [45, 45, 50]
}

pub fn default_scope_length() -> (r: usize)
    ensures
        r == 200,
{
    200
}

pub fn default_resolution() -> (r: u32)
    ensures
        r == 120,
{
    120
}

pub fn default_max_tokens() -> (r: u32)
    ensures
        r == 1024,
{
    1024
}

pub fn default_provider() -> (r: String)
    ensures
        r@ == "anthropic"@,
{
    "anthropic".to_owned()
}

pub fn default_string_format_args() -> (r: usize)
    ensures
        r == 2,
{
    2
}

pub fn default_video_w() -> (r: u32)
    ensures
        r == 640,
{
    640
}

pub fn default_video_h() -> (r: u32)
    ensures
        r == 480,
{
    480
}

pub fn default_device_id() -> (r: u8)
    ensures
        r == 1,
{
    1
}

pub fn default_mixer_channels() -> (r: usize)
    ensures
        r == 2,
{
    2
}

// ── ML model presets ───────────────────────────────────────────────────────

/// What kind of model an ML node runs.
#[derive(Clone, Copy, Debug, PartialEq, Eq, Structural)]
pub enum MlPreset {
    /// ImageNet-style classification: 224×224 input, ImageNet normalisation.
    Classification,
    /// YOLO-style detection: 640×640 input, 0–1 normalisation.
    ObjectDetection,
    /// Keypoint estimation: 192×192 or 256×256 input, 0–1 normalisation.
    PoseEstimation,
    /// Size and normalisation chosen by the user.
    Custom,
}

impl Default for MlPreset {
    /// Classification, the first preset in menu order.
    fn default() -> (r: MlPreset)
        ensures
            r == MlPreset::Classification,
    {
        MlPreset::Classification
    }
}

impl MlPreset {
    /// Every preset, in menu order.
    pub fn all() -> (r: Vec<MlPreset>)
        ensures
            r@ == seq![
                MlPreset::Classification,
                MlPreset::ObjectDetection,
                MlPreset::PoseEstimation,
                MlPreset::Custom,
            ],
    {
        vec![MlPreset::Classification, MlPreset::ObjectDetection, MlPreset::PoseEstimation, MlPreset::Custom]
    }

    pub open spec fn spec_name(self) -> Seq<char> {
        match self {
            MlPreset::Classification => "Classification"@,
            MlPreset::ObjectDetection => "Object Detection"@,
            MlPreset::PoseEstimation => "Pose Estimation"@,
            MlPreset::Custom => "Custom"@,
        }
    }

    pub fn name(&self) -> (r: &'static str)
        ensures
            r@ == self.spec_name(),
    {
        match self {
            MlPreset::Classification => "Classification",
            MlPreset::ObjectDetection => "Object Detection",
            MlPreset::PoseEstimation => "Pose Estimation",
            MlPreset::Custom => "Custom",
        }
    }

    /// The default square input size of the preset's model (a pose model takes
    /// 192 x 192).
    pub open spec fn spec_input_size(self) -> u32 {
        match self {
            MlPreset::ObjectDetection => 640,
            MlPreset::PoseEstimation => 192,
            _ => 224,
        }
    }

    pub fn input_size(&self) -> (r: u32)
        ensures
            r == self.spec_input_size(),
    {
        match self {
            MlPreset::Classification => 224,
            MlPreset::ObjectDetection => 640,
            MlPreset::PoseEstimation => 192,
            MlPreset::Custom => 224,
        }
    }

    /// Whether the preset normalises with ImageNet mean and deviation (rather than
    /// to 0–1).
    pub fn imagenet_norm(&self) -> (r: bool)
        ensures
            r == (*self == MlPreset::Classification),
    {
        matches!(self, MlPreset::Classification)
    }

    /// Whether the model takes NHWC input; every preset starts with NCHW.
    pub fn is_nhwc(&self) -> (r: bool)
        ensures
            !r,
    {
        false
    }
}

// ── Images ─────────────────────────────────────────────────────────────────

/// An RGBA8 bitmap, four bytes per pixel, row by row.
#[derive(Debug)]
pub struct ImageData {
    pub width: u32,
    pub height: u32,
    pub pixels: Vec<u8>,
}

impl Clone for ImageData {
    fn clone(&self) -> (r: Self)
        ensures
            r.width == self.width,
            r.height == self.height,
            r.pixels@ == self.pixels@,
    {
        ImageData { width: self.width, height: self.height, pixels: self.pixels.clone() }
    }
}

impl ImageData {
    pub fn new(width: u32, height: u32, pixels: Vec<u8>) -> (r: ImageData)
        ensures
            r.width == width,
            r.height == height,
            r.pixels@ == pixels@,
    {
        ImageData { width, height, pixels }
    }

    /// An image of one colour: every pixel is `(r, g, b, a)`.
    pub fn solid(width: u32, height: u32, r: u8, g: u8, b: u8, a: u8) -> (img: ImageData)
        requires
            width * height <= u32::MAX,
            4 * width * height <= usize::MAX,
        ensures
            img.width == width,
            img.height == height,
            img.pixels@.len() == 4 * width * height,
            forall|i: int| 0 <= i < img.pixels@.len() ==> #[trigger] img.pixels@[i] == seq![r, g, b, a][i % 4],
    {
        let n = width * height;
        proof {
            assert(4 * n == 4 * width * height) by (nonlinear_arith)
                requires n == width * height;
        }
        let mut pixels: Vec<u8> = Vec::new();
        let mut k: u32 = 0;
        while k < n
            invariant
                k <= n,
                n == width * height,
                4 * n <= usize::MAX,
                pixels@.len() == 4 * k,
                forall|i: int| 0 <= i < pixels@.len() ==> #[trigger] pixels@[i] == seq![r, g, b, a][i % 4],
            decreases n - k,
        {
            let ghost before = pixels@;
            pixels.push(r);
            pixels.push(g);
            pixels.push(b);
            pixels.push(a);
            proof {
                assert forall|i: int| 0 <= i < pixels@.len() implies #[trigger] pixels@[i] == seq![r, g, b, a][i % 4] by {
                    if i < before.len() {
                        assert(pixels@[i] == before[i]);
                    } else {
                        let j = i - 4 * k;
                        assert(0 <= j < 4);
                        assert(i % 4 == j) by (nonlinear_arith)
                            requires i == 4 * k + j, 0 <= j < 4;
                    }
                }
            }
            k += 1;
        }
        ImageData { width, height, pixels }
    }
}

/// The name of every model preset, as the preset table gives it.
pub proof fn law_preset_names(p: MlPreset)
    ensures
        match p {
            MlPreset::Classification => p.spec_name() == "Classification"@,
            MlPreset::ObjectDetection => p.spec_name() == "Object Detection"@,
            MlPreset::PoseEstimation => p.spec_name() == "Pose Estimation"@,
            MlPreset::Custom => p.spec_name() == "Custom"@,
        },
{
}

/// The input size of every model preset: 224 for classification, 640 for
/// detection, 192 for pose estimation.
pub proof fn law_preset_input_sizes(p: MlPreset)
    ensures
        match p {
            MlPreset::ObjectDetection => p.spec_input_size() == 640,
            MlPreset::PoseEstimation => p.spec_input_size() == 192,
            _ => p.spec_input_size() == 224,
        },
{
}

} // verus!
