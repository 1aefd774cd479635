//! Configuration values that the verified logic reads.
use vstd::prelude::*;

verus! {

/// Audio capture settings.
#[derive(Debug, Clone)]
pub struct AudioConfig {
    pub sample_rate: u32,
    pub channels: u16,
    pub frame_duration_ms: u32,
    pub device: Option<String>,
}

/// Samples in one frame: `sample_rate * frame_duration_ms / 1000`.
pub open spec fn spec_frame_samples(sample_rate: u32, frame_duration_ms: u32) -> int {
    sample_rate * frame_duration_ms / 1000
}

impl AudioConfig {
    /// The number of samples in one frame.
    pub fn frame_samples(&self) -> (r: usize)
        requires
            self.sample_rate * self.frame_duration_ms <= u32::MAX,
        ensures
            r == spec_frame_samples(self.sample_rate, self.frame_duration_ms),
    {
        (self.sample_rate * self.frame_duration_ms / 1000) as usize
    }
}

/// Speech-to-text settings.
#[derive(Debug, Clone)]
pub struct TranscriberConfig {
    pub model_size: String,
    pub language: String,
}

/// Agreement policy settings.
#[derive(Debug, Clone)]
pub struct AgreementConfig {
    pub n: usize,
}

/// The program that types text into the focused window.
#[derive(Debug, Clone, Copy, PartialEq, Eq, Structural)]
pub enum Backend {
    Xdotool,
    Ydotool,
}

/// The name of a backend's program.
pub open spec fn backend_name(b: Backend) -> Seq<char> {
    match b {
        Backend::Xdotool => "xdotool"@,
        Backend::Ydotool => "ydotool"@,
    }
}

impl Backend {
    /// The backend's name, which is also its program's name.
    pub fn to_string(&self) -> (s: String)
        ensures
            s@ == backend_name(*self),
    {
        match self {
            Backend::Xdotool => String::from_str("xdotool"),
            Backend::Ydotool => String::from_str("ydotool"),
        }
    }
}

/// Text injection settings.
#[derive(Debug, Clone)]
pub struct InjectorConfig {
    pub backend: Backend,
    pub inter_key_delay_ms: u32,
}

/// VOX listens all the time; PTT leaves the microphone to push-to-talk.
#[derive(Debug, Clone, Copy, PartialEq, Eq, Structural)]
pub enum Mode {
    Vox,
    Ptt,
}

/// The name of a mode.
pub open spec fn mode_name(m: Mode) -> Seq<char> {
    match m {
        Mode::Vox => "vox"@,
        Mode::Ptt => "ptt"@,
    }
}

impl Mode {
    /// The mode's name.
    pub fn to_string(&self) -> (s: String)
        ensures
            s@ == mode_name(*self),
    {
        match self {
            Mode::Vox => String::from_str("vox"),
            Mode::Ptt => String::from_str("ptt"),
        }
    }
}

/// Daemon settings.
#[derive(Debug, Clone)]
pub struct DaemonConfig {
    pub mode: Mode,
    pub pid_file: String,
    pub socket_path: String,
}

} // verus!
