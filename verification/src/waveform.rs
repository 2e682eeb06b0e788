use vstd::prelude::*;

verus! {

/// The oscillator shape of a synth voice.
#[derive(Clone, Copy, Debug, PartialEq, Eq, Structural)]
pub enum Waveform {
    Sine,
    Saw,
    Square,
    Triangle,
    Noise,
}

impl Waveform {
    /// Every waveform, in menu order.
    pub fn all() -> (r: Vec<Waveform>)
        ensures
            r@ == seq![Waveform::Sine, Waveform::Saw, Waveform::Square, Waveform::Triangle, Waveform::Noise],
    {
        vec![Waveform::Sine, Waveform::Saw, Waveform::Square, Waveform::Triangle, Waveform::Noise]
    }

    pub open spec fn spec_name(self) -> Seq<char> {
        match self {
            Waveform::Sine => "Sine"@,
            Waveform::Saw => "Saw"@,
            Waveform::Square => "Square"@,
            Waveform::Triangle => "Triangle"@,
            Waveform::Noise => "Noise"@,
        }
    }

    pub fn name(&self) -> (r: &'static str)
        ensures
            r@ == self.spec_name(),
    {
        match self {
            Waveform::Sine => "Sine",
            Waveform::Saw => "Saw",
            Waveform::Square => "Square",
            Waveform::Triangle => "Triangle",
            Waveform::Noise => "Noise",
        }
    }
}

impl Default for Waveform {
    /// A sine wave, the first in menu order.
    fn default() -> (r: Waveform)
        ensures
            r == Waveform::Sine,
    {
        Waveform::Sine
    }
}

/// The name of every waveform, as the waveform menu gives it.
pub proof fn law_waveform_names(w: Waveform)
    ensures
        match w {
            Waveform::Sine => w.spec_name() == "Sine"@,
            Waveform::Saw => w.spec_name() == "Saw"@,
            Waveform::Square => w.spec_name() == "Square"@,
            Waveform::Triangle => w.spec_name() == "Triangle"@,
            Waveform::Noise => w.spec_name() == "Noise"@,
        },
{
}

} // verus!
