//! The notes and envelope sections of the CPC-style sound queues, and the
//! integer arithmetic that steps an envelope.
use vstd::prelude::*;

verus! {

/// A queued note: channel state bits, tone period, duration in
/// centiseconds (negative: run the volume envelope that many times), volume,
/// envelope numbers and noise period.
#[derive(Clone, Copy, Debug, PartialEq, Eq, Structural)]
pub struct Note {
    pub state: u8,
    pub period: u16,
    pub duration: i16,
    pub volume: u8,
    pub volume_env: u8,
    pub tone_env: u8,
    pub noise: u8,
}

/// One section of a volume or tone envelope: `steps` relative steps of
/// `delta`, or an absolute value; each step lasts `ticks` centiseconds.
#[derive(Clone, Copy, Debug, PartialEq, Eq, Structural)]
pub enum Section {
    Step { steps: u8, delta: i16, ticks: u16 },
    Absolute { value: u16, ticks: u16 },
}

/// Which envelope a section belongs to.
#[derive(Clone, Copy, Debug, PartialEq, Eq, Structural)]
pub enum EnvelopeKind {
    Volume,
    Tone,
}

/// The number of ticks one step of `s` lasts: zero stands for 256.
pub open spec fn section_ticks(s: Section) -> int {
    let t = match s {
        Section::Step { ticks, .. } => ticks,
        Section::Absolute { ticks, .. } => ticks,
    };
    if t == 0 { 256 } else { t as int }
}

/// The number of steps of `s`: at least one.
pub open spec fn section_steps(s: Section) -> int {
    match s {
        Section::Step { steps, .. } => if steps == 0 { 1 } else { steps as int },
        Section::Absolute { .. } => 1,
    }
}

/// The Euclidean remainder of `x` by 16.
pub open spec fn mod16(x: int) -> int {
    x % 16
}

/// The value after one step of `s` from `value`: volumes wrap modulo 16,
/// tone periods stay within 0..=4095; a relative section without steps sets
/// the volume to its delta and leaves a tone period as it is.
pub open spec fn stepped_value(s: Section, kind: EnvelopeKind, value: int) -> int {
    match (s, kind) {
        (Section::Absolute { value: v, .. }, EnvelopeKind::Volume) => v as int % 16,
        (Section::Absolute { value: v, .. }, EnvelopeKind::Tone) => if v > 4095 { 4095 } else { v as int },
        (Section::Step { steps, delta, .. }, EnvelopeKind::Volume) => if steps == 0 {
            mod16(delta as int)
        } else {
            mod16(value + delta)
        },
        (Section::Step { steps, delta, .. }, EnvelopeKind::Tone) => if steps == 0 {
            value
        } else if value + delta < 0 {
            0
        } else if value + delta > 4095 {
            4095
        } else {
            value + delta
        },
    }
}

impl Section {
    /// The number of ticks one step lasts.
    pub fn ticks(self) -> (r: u16)
        ensures
            r as int == section_ticks(self),
    {
        let ticks = match self {
            Section::Step { ticks, .. } => ticks,
            Section::Absolute { ticks, .. } => ticks,
        };
        if ticks == 0 { 256 } else { ticks }
    }

    /// The number of steps.
    pub fn steps(self) -> (r: u16)
        ensures
            r as int == section_steps(self),
    {
        match self {
            Section::Step { steps, .. } => if steps == 0 { 1 } else { steps as u16 },
            Section::Absolute { .. } => 1,
        }
    }

    /// The envelope's value after one step of this section from `value`.
    pub fn step_value(self, kind: EnvelopeKind, value: u16) -> (r: u16)
        ensures
            r as int == stepped_value(self, kind, value as int),
    {
        match (self, kind) {
            (Section::Absolute { value: v, .. }, EnvelopeKind::Volume) => v % 16,
            (Section::Absolute { value: v, .. }, EnvelopeKind::Tone) => if v > 4095 { 4095 } else { v },
            (Section::Step { steps, delta, .. }, EnvelopeKind::Volume) => {
                let x: i32 = if steps == 0 { delta as i32 } else { value as i32 + delta as i32 };
                let shifted: u32 = (x + 32768) as u32;
                let e: u32 = shifted % 16;
                proof {
                    assert((x as int + 32768) % 16 == (x as int) % 16) by (nonlinear_arith);
                }
                e as u16
            },
            (Section::Step { steps, delta, .. }, EnvelopeKind::Tone) => {
                if steps == 0 {
                    value
                } else {
                    let x: i32 = value as i32 + delta as i32;
                    if x < 0 { 0 } else if x > 4095 { 4095 } else { x as u16 }
                }
            },
        }
    }
}

/// The number of sound channels of the sample player.
pub const CHANNELS: usize = 32;

/// The number of sample slots.
pub const ASSETS: u8 = 64;

/// The bytes of one stereo 16-bit frame sent to PulseAudio.
pub const FRAME_BYTES: u32 = 4;

/// The most bytes PulseAudio may ask for at once: a tenth of a second at
/// 48 kHz.
pub const TARGET_BYTES: u32 = 19200;

/// The index of sample channel `channel` (1..=32).
pub fn channel_index(channel: u8) -> (r: Result<usize, String>)
    ensures
        match r {
            Ok(i) => 1 <= channel <= CHANNELS && i == channel - 1,
            Err(m) => !(1 <= channel <= CHANNELS) && m@ == "Sound channel must be between 1 and 32"@,
        },
{
    if 1 <= channel && (channel as usize) <= CHANNELS {
        Ok(channel as usize - 1)
    } else {
        Err(String::from_str("Sound channel must be between 1 and 32"))
    }
}

/// Checks that `id` names a sample slot (1..=64).
pub fn check_asset(id: u8) -> (r: Result<(), String>)
    ensures
        match r {
            Ok(()) => 1 <= id <= ASSETS,
            Err(m) => !(1 <= id <= ASSETS) && m@ == "Sound ID must be between 1 and 64"@,
        },
{
    if 1 <= id && id <= ASSETS {
        Ok(())
    } else {
        Err(String::from_str("Sound ID must be between 1 and 64"))
    }
}

/// Checks a PulseAudio request for `bytes` of audio: whole frames, at most
/// the target length.
pub fn validate_request(bytes: u32) -> (r: Result<(), String>)
    ensures
        match r {
            Ok(()) => bytes % FRAME_BYTES == 0 && bytes <= TARGET_BYTES,
            Err(m) => !(bytes % FRAME_BYTES == 0 && bytes <= TARGET_BYTES) && m@
                == "PulseAudio requested an invalid PCM block ("@ + crate::text::decimal(bytes as nat) + " bytes)"@,
        },
{
    if bytes % FRAME_BYTES != 0 || bytes > TARGET_BYTES {
        let mut text = crate::text::str_chars("PulseAudio requested an invalid PCM block (");
        let digits = crate::text::nat_to_decimal(bytes as u64);
        crate::text::extend_with_chars(&mut text, &digits);
        crate::text::extend_with_str(&mut text, " bytes)");
        return Err(crate::text::string_from_chars(&text));
    }
    Ok(())
}

} // verus!
