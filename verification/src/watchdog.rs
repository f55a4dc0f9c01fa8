//! Supervision of the audio output: a watchdog over the frames that the
//! output callback reports, the first recorded failure, and the choice of
//! the WSL Pulse server.
use vstd::prelude::*;

verus! {

/// How long the output may go without progress, in nanoseconds.
pub const CALLBACK_TIMEOUT_NS: u64 = 2_000_000_000;

/// The same for the Pulse output, whose sink requests may take seconds.
pub const PULSE_CALLBACK_TIMEOUT_NS: u64 = 5_000_000_000;

/// `a - b`, or 0 when `b` is later.
pub open spec fn since(a: u64, b: u64) -> int {
    if a >= b {
        a - b
    } else {
        0
    }
}

/// Detects an output that stopped calling back, or that plays below half
/// its sample rate over a whole timeout window. Times are nanoseconds on a
/// monotonic clock.
#[derive(Debug, Clone, Copy, PartialEq, Eq, Structural)]
pub struct CallbackWatchdog {
    pub timeout: u64,
    pub frames: u64,
    pub progressed_at: u64,
    pub window_frames: u64,
    pub window_started: u64,
}

impl CallbackWatchdog {
    /// A watchdog with the default timeout, started at `now` with `frames`
    /// played.
    pub fn new(frames: u64, now: u64) -> (r: CallbackWatchdog)
        ensures
            r == (CallbackWatchdog {
                timeout: CALLBACK_TIMEOUT_NS,
                frames,
                progressed_at: now,
                window_frames: frames,
                window_started: now,
            }),
    {
        CallbackWatchdog::with_timeout(frames, now, CALLBACK_TIMEOUT_NS)
    }

    pub fn with_timeout(frames: u64, now: u64, timeout: u64) -> (r: CallbackWatchdog)
        ensures
            r == (CallbackWatchdog { timeout, frames, progressed_at: now, window_frames: frames, window_started: now }),
    {
        CallbackWatchdog { timeout, frames, progressed_at: now, window_frames: frames, window_started: now }
    }

    /// Whether the output has stalled at time `now`, with `frames` played at
    /// `sample_rate`: no new frame for a whole timeout, or, once a timeout
    /// window has passed, fewer frames than half the rate asks for over it.
    pub fn stalled(&mut self, frames: u64, now: u64, sample_rate: u32) -> (r: bool)
        ensures
            ({
                let progressed = if frames != old(self).frames {
                    now
                } else {
                    old(self).progressed_at
                };
                let elapsed = since(now, old(self).window_started);
                let played = if frames >= old(self).window_frames {
                    frames - old(self).window_frames
                } else {
                    frames + 0x1_0000_0000_0000_0000 - old(self).window_frames
                };
                &&& final(self).timeout == old(self).timeout
                &&& final(self).frames == frames
                &&& final(self).progressed_at == progressed
                &&& if since(now, progressed) >= old(self).timeout {
                    &&& r
                    &&& final(self).window_frames == old(self).window_frames
                    &&& final(self).window_started == old(self).window_started
                } else if elapsed >= old(self).timeout {
                    &&& r == (sample_rate > 0 && 2_000_000_000 * played < elapsed * sample_rate)
                    &&& final(self).window_frames == frames
                    &&& final(self).window_started == now
                } else {
                    &&& !r
                    &&& final(self).window_frames == old(self).window_frames
                    &&& final(self).window_started == old(self).window_started
                }
            }),
    {
        if frames != self.frames {
            self.frames = frames;
            self.progressed_at = now;
        }
        let idle = if now >= self.progressed_at { now - self.progressed_at } else { 0 };
        if idle >= self.timeout {
            return true;
        }
        let elapsed = if now >= self.window_started { now - self.window_started } else { 0 };
        if elapsed >= self.timeout {
            let wf = self.window_frames;
            let played: u64 = frames.wrapping_sub(wf);
            proof {
                assert(played as int == (if frames >= wf {
                    frames - wf
                } else {
                    frames + 0x1_0000_0000_0000_0000 - wf
                }));
            }
            self.window_frames = frames;
            self.window_started = now;
            if sample_rate == 0 {
                return false;
            }
            let lhs: u128 = 2_000_000_000u128 * (played as u128);
            proof {
                assert((elapsed as u128) * (sample_rate as u128) <= 0xffff_ffff_ffff_ffffu128 * 0xffff_ffffu128)
                    by (nonlinear_arith)
                    requires
                        elapsed <= 0xffff_ffff_ffff_ffffu64,
                        sample_rate <= 0xffff_ffffu32,
                ;
            }
            let rhs: u128 = (elapsed as u128) * (sample_rate as u128);
            return lhs < rhs;
        }
        false
    }
}

/// The first failure that the output reported.
pub struct Failure {
    pub failed: bool,
    pub frames: u64,
    pub message: Option<String>,
}

impl Failure {
    /// No failure yet.
    pub fn new() -> (r: Failure)
        ensures
            !r.failed,
            r.frames == 0,
            r.message is None,
    {
        Failure { failed: false, frames: 0, message: None }
    }

    /// Records a failure; the first message is kept.
    pub fn record(&mut self, message: String)
        ensures
            final(self).failed,
            final(self).frames == old(self).frames,
            match old(self).message {
                Some(m) => final(self).message matches Some(k) && k@ == m@,
                None => final(self).message matches Some(k) && k@ == message@,
            },
    {
        if self.message.is_none() {
            self.message = Some(message);
        }
        self.failed = true;
    }

    /// The failure's message: none before a failure, else the first one
    /// recorded (or a generic one).
    pub fn message(&self) -> (r: Option<String>)
        ensures
            !self.failed ==> r is None,
            self.failed ==> match self.message {
                Some(m) => r matches Some(k) && k@ == m@,
                None => r matches Some(k) && k@ == "Audio output failed"@,
            },
    {
        if !self.failed {
            return None;
        }
        match &self.message {
            Some(m) => Some(m.clone()),
            None => Some(String::from_str("Audio output failed")),
        }
    }
}

/// WSL needs the explicit Pulse output: inside a WSL distribution, with
/// Windows interop, or with a Pulse server under `/mnt/wslg/`.
pub fn needs_wsl_pulse(server: Option<&str>, distro: bool, interop: bool) -> (r: bool)
    ensures
        r == (distro || interop || (server matches Some(s) && crate::text::contains_seq(s@, "/mnt/wslg/"@))),
{
    if distro || interop {
        return true;
    }
    match server {
        Some(s) => {
            let chars = crate::text::str_chars(s);
            let needle = crate::text::str_chars("/mnt/wslg/");
            crate::text::chars_contain(&chars, &needle)
        },
        None => false,
    }
}

} // verus!
