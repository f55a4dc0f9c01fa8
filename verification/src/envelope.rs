//! Volume and tone envelopes: up to five sections, and a cursor that steps
//! through them, repeating a volume envelope as often as the note asks and
//! a repeating tone envelope without end. How long each step lasts is
//! timed by the caller, from the ticks each step reports.
use vstd::prelude::*;
use crate::sound::{section_steps, section_ticks, stepped_value, EnvelopeKind, Section};

verus! {

/// The most sections an envelope keeps.
pub const MAX_SECTIONS: usize = 5;

/// An envelope: its sections, and for a tone envelope whether it repeats.
#[derive(Debug, Clone)]
pub struct Envelope {
    pub sections: Vec<Section>,
    pub repeat: bool,
}

/// The centiseconds all steps of `sections[..n]` last.
pub open spec fn sections_duration(sections: Seq<Section>, n: int) -> int
    decreases n,
{
    if n <= 0 {
        0
    } else {
        sections_duration(sections, n - 1) + section_steps(sections[n - 1]) * section_ticks(sections[n - 1])
    }
}

/// The centiseconds one run of an envelope lasts; an empty volume envelope
/// holds its level for two seconds.
pub open spec fn envelope_duration(sections: Seq<Section>) -> int {
    if sections.len() == 0 {
        200
    } else {
        sections_duration(sections, sections.len() as int)
    }
}

/// Where a cursor stands in an envelope: the section, the steps taken of
/// it, the runs left (0: without end) and whether it has finished.
#[derive(Debug, Clone, Copy, PartialEq, Eq, Structural)]
pub struct EnvelopeCursor {
    pub section: usize,
    pub step: u16,
    pub cycles_left: u32,
    pub done: bool,
}

/// What one step of the cursor gives: the cursor afterwards, the new
/// value, and how many ticks the step lasts (none once the envelope has
/// finished).
pub open spec fn advanced(
    sections: Seq<Section>,
    c: EnvelopeCursor,
    wrapped: bool,
    value: int,
    initial: int,
    kind: EnvelopeKind,
) -> (EnvelopeCursor, int, Option<int>)
    decreases (if wrapped { 0 } else { sections.len() + 1 }) + sections.len() - c.section,
    when c.section <= sections.len() && sections.len() <= 5
{
    if sections.len() == 0 || c.done {
        (EnvelopeCursor { done: true, ..c }, value, None)
    } else if c.section == sections.len() {
        if c.cycles_left == 1 {
            (EnvelopeCursor { done: true, ..c }, value, None)
        } else if wrapped {
            (EnvelopeCursor { done: true, ..c }, value, None)
        } else {
            let cycles = if c.cycles_left > 1 {
                (c.cycles_left - 1) as u32
            } else {
                c.cycles_left
            };
            let v = if kind == EnvelopeKind::Volume {
                initial
            } else {
                value
            };
            advanced(
                sections,
                EnvelopeCursor { section: 0, step: 0, cycles_left: cycles, done: false },
                true,
                v,
                initial,
                kind,
            )
        }
    } else {
        let s = sections[c.section as int];
        if c.step == section_steps(s) {
            advanced(sections, EnvelopeCursor { section: (c.section + 1) as usize, step: 0, ..c }, wrapped, value, initial, kind)
        } else {
            (
                EnvelopeCursor { step: (c.step + 1) as u16, ..c },
                stepped_value(s, kind, value),
                Some(section_ticks(s)),
            )
        }
    }
}

impl Envelope {
    pub open spec fn wf(&self) -> bool {
        self.sections@.len() <= MAX_SECTIONS
    }

    /// An envelope of the first five of `sections`.
    pub fn new(sections: Vec<Section>, repeat: bool) -> (r: Envelope)
        ensures
            r.wf(),
            r.sections@ == sections@.subrange(
                0,
                if sections@.len() < 5 {
                    sections@.len() as int
                } else {
                    5
                },
            ),
            r.repeat == repeat,
    {
        let mut kept: Vec<Section> = Vec::new();
        let mut i: usize = 0;
        while i < sections.len() && i < MAX_SECTIONS
            invariant
                i <= sections@.len(),
                i <= MAX_SECTIONS,
                kept@ == sections@.subrange(0, i as int),
            decreases sections@.len() - i,
        {
            kept.push(sections[i]);
            i += 1;
            assert(kept@ =~= sections@.subrange(0, i as int));
        }
        Envelope { sections: kept, repeat }
    }

    /// The centiseconds one run of the envelope lasts.
    pub fn duration_centiseconds(&self) -> (r: u32)
        requires
            self.wf(),
        ensures
            r as int == envelope_duration(self.sections@),
    {
        if self.sections.len() == 0 {
            return 200;
        }
        let mut total: u32 = 0;
        let mut i: usize = 0;
        while i < self.sections.len()
            invariant
                self.wf(),
                i <= self.sections@.len(),
                total as int == sections_duration(self.sections@, i as int),
                total <= i * 16711425,
            decreases self.sections@.len() - i,
        {
            let s = self.sections[i];
            let steps = s.steps() as u32;
            let ticks = s.ticks() as u32;
            assert(steps * ticks <= 16711425) by (nonlinear_arith)
                requires
                    steps <= 255,
                    ticks <= 65535,
            ;
            let part: u32 = steps * ticks;
            total = total + part;
            i += 1;
        }
        total
    }
}

impl EnvelopeCursor {
    /// A cursor at the start of `envelope`, to run it `cycles` times (0:
    /// without end); finished at once for an empty envelope.
    pub fn new(envelope: &Envelope, cycles: u32) -> (r: EnvelopeCursor)
        ensures
            r == (EnvelopeCursor { section: 0, step: 0, cycles_left: cycles, done: envelope.sections@.len() == 0 }),
    {
        EnvelopeCursor { section: 0, step: 0, cycles_left: cycles, done: envelope.sections.len() == 0 }
    }

    pub open spec fn wf(&self, envelope: &Envelope) -> bool {
        &&& envelope.wf()
        &&& self.section <= envelope.sections@.len()
        &&& self.section < envelope.sections@.len() ==> self.step <= section_steps(envelope.sections@[self.section as int])
    }

    /// Takes the next step of the envelope once the previous one has
    /// lasted its ticks: the new value and the ticks the step lasts, or the
    /// value unchanged once the envelope has finished. At the end of a run
    /// a volume envelope starts again from `initial`; a tone envelope keeps
    /// its last period.
    pub fn apply(&mut self, envelope: &Envelope, value: u16, initial: u16, kind: EnvelopeKind) -> (r: (u16, Option<u16>))
        requires
            old(self).wf(envelope),
        ensures
            final(self).wf(envelope),
            ({
                let (c, v, t) = advanced(envelope.sections@, *old(self), false, value as int, initial as int, kind);
                &&& *final(self) == c
                &&& r.0 as int == v
                &&& match (r.1, t) {
                    (Some(a), Some(b)) => a as int == b,
                    (None, None) => true,
                    _ => false,
                }
            }),
    {
        let len = envelope.sections.len();
        if len == 0 || self.done {
            self.done = true;
            return (value, None);
        }
        let mut current = value;
        let mut ticks_out: Option<u16> = None;
        let mut wrapped = false;
        loop
            invariant_except_break
                envelope.wf(),
                len == envelope.sections@.len(),
                len > 0,
                !self.done,
                self.section <= len,
                self.section < len ==> self.step <= section_steps(envelope.sections@[self.section as int]),
                wrapped ==> self.section == 0 && self.step == 0,
                advanced(envelope.sections@, *old(self), false, value as int, initial as int, kind) == advanced(
                    envelope.sections@,
                    *self,
                    wrapped,
                    current as int,
                    initial as int,
                    kind,
                ),
            ensures
                self.wf(envelope),
                ({
                    let (c, v, t) = advanced(envelope.sections@, *old(self), false, value as int, initial as int, kind);
                    &&& *self == c
                    &&& current as int == v
                    &&& match (ticks_out, t) {
                        (Some(a), Some(b)) => a as int == b,
                        (None, None) => true,
                        _ => false,
                    }
                }),
            decreases (if wrapped { 0int } else { len + 1 }) + len - self.section,
        {
            if self.section == len {
                if self.cycles_left == 1 {
                    self.done = true;
                    ticks_out = None;
                    break;
                }
                if self.cycles_left > 1 {
                    self.cycles_left -= 1;
                }
                self.section = 0;
                self.step = 0;
                if kind == EnvelopeKind::Volume {
                    current = initial;
                }
                wrapped = true;
                continue;
            }
            let section = envelope.sections[self.section];
            if self.step == section.steps() {
                self.section += 1;
                self.step = 0;
                continue;
            }
            current = section.step_value(kind, current);
            self.step += 1;
            ticks_out = Some(section.ticks());
            break;
        }
        (current, ticks_out)
    }
}

/// The initial value plays no part in a tone envelope: whatever initial
/// period a note started from, the steps of its tone envelope give the same
/// cursors, periods and timings.
pub proof fn tone_steps_ignore_the_initial_value(
    sections: Seq<Section>,
    c: EnvelopeCursor,
    wrapped: bool,
    value: int,
    a: int,
    b: int,
)
    requires
        c.section <= sections.len(),
        sections.len() <= 5,
    ensures
        advanced(sections, c, wrapped, value, a, EnvelopeKind::Tone) == advanced(
            sections,
            c,
            wrapped,
            value,
            b,
            EnvelopeKind::Tone,
        ),
    decreases (if wrapped { 0 } else { sections.len() + 1 }) + sections.len() - c.section,
{
    if sections.len() == 0 || c.done {
    } else if c.section == sections.len() {
        if c.cycles_left == 1 || wrapped {
        } else {
            let cycles = if c.cycles_left > 1 {
                (c.cycles_left - 1) as u32
            } else {
                c.cycles_left
            };
            tone_steps_ignore_the_initial_value(
                sections,
                EnvelopeCursor { section: 0, step: 0, cycles_left: cycles, done: false },
                true,
                value,
                a,
                b,
            );
        }
    } else {
        let s = sections[c.section as int];
        if c.step == section_steps(s) {
            tone_steps_ignore_the_initial_value(
                sections,
                EnvelopeCursor { section: (c.section + 1) as usize, step: 0, ..c },
                wrapped,
                value,
                a,
                b,
            );
        }
    }
}

/// At the end of a run that repeats, the next step is the first step of the
/// envelope taken from where the run ended for a tone envelope (its last
/// period), and from the initial value for a volume envelope.
pub proof fn a_repeat_starts_from_the_right_value(
    sections: Seq<Section>,
    c: EnvelopeCursor,
    value: int,
    initial: int,
)
    requires
        0 < sections.len() <= 5,
        c.section == sections.len(),
        !c.done,
        c.cycles_left != 1,
    ensures
        advanced(sections, c, false, value, initial, EnvelopeKind::Tone).1 == stepped_value(
            sections[0],
            EnvelopeKind::Tone,
            value,
        ),
        advanced(sections, c, false, value, initial, EnvelopeKind::Volume).1 == stepped_value(
            sections[0],
            EnvelopeKind::Volume,
            initial,
        ),
        advanced(sections, c, false, value, initial, EnvelopeKind::Tone).2 == Some(section_ticks(sections[0])),
{
    let cycles = if c.cycles_left > 1 {
        (c.cycles_left - 1) as u32
    } else {
        c.cycles_left
    };
    let fresh = EnvelopeCursor { section: 0, step: 0, cycles_left: cycles, done: false };
    assert(section_steps(sections[0]) >= 1);
    assert(advanced(sections, fresh, true, value, initial, EnvelopeKind::Tone).1 == stepped_value(sections[0], EnvelopeKind::Tone, value));
    assert(advanced(sections, fresh, true, initial, initial, EnvelopeKind::Volume).1 == stepped_value(sections[0], EnvelopeKind::Volume, initial));
}

} // verus!
