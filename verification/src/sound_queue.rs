//! The three CPC sound channels' note queues: up to four pending notes per
//! channel besides the one playing, notes held until released, and
//! rendezvous between channels whose notes start together. How long a
//! playing note lasts is timed by the caller, which reports its end.
use vstd::prelude::*;
use crate::envelope::Envelope;
use crate::sound::{Note, Section};

verus! {

/// The number of notes a channel queues besides the one it plays.
pub const QUEUE_CAPACITY: usize = 4;

/// The number of volume (ENV) and of tone (ENT) envelope definitions.
pub const ENVELOPE_SLOTS: usize = 16;

/// An envelope as its sections and repeat flag.
pub open spec fn envelope_view(e: Envelope) -> (Seq<Section>, bool) {
    (e.sections@, e.repeat)
}

/// The envelope that definition `k` of `defs` gives a note: the one defined
/// there, or the empty envelope when `k` names no definition.
pub open spec fn definition(defs: Seq<Envelope>, k: u8) -> (Seq<Section>, bool) {
    if (k as int) < defs.len() {
        envelope_view(defs[k as int])
    } else {
        (Seq::empty(), false)
    }
}

/// Every definition of `defs` is the empty envelope.
pub open spec fn all_default(defs: Seq<Envelope>) -> bool {
    &&& defs.len() == ENVELOPE_SLOTS
    &&& forall|k: int| 0 <= k < defs.len() ==> #[trigger] envelope_view(defs[k]) == (Seq::<Section>::empty(), false)
}

/// The state bit of channel `m` (A, B, C).
pub open spec fn bit(m: int) -> u8 {
    if m == 0 {
        1
    } else if m == 1 {
        2
    } else {
        4
    }
}

/// The channels a note on channel `index` waits for: its rendezvous bits
/// and the other channels it is queued on.
pub open spec fn rendezvous_mask(note: Note, index: int) -> u8 {
    (((note.state >> 3u8) & 7u8) | (note.state & 7u8)) & !bit(index)
}

/// The queues as the caller sees them: each channel's pending notes, oldest
/// first, whether it plays a note, and the noise period of the last noisy
/// note started.
pub struct QueueView {
    pub pending: Seq<Seq<Note>>,
    pub busy: Seq<bool>,
    pub noise_period: u8,
}

pub open spec fn head(q: QueueView, m: int) -> Option<Note> {
    if q.pending[m].len() > 0 {
        Some(q.pending[m][0])
    } else {
        None
    }
}

/// The channels that channel `m` of `group` brings in.
pub open spec fn required(q: QueueView, group: u8, m: int) -> u8 {
    if group & bit(m) != 0 && head(q, m) is Some {
        rendezvous_mask(head(q, m)->0, m)
    } else {
        0
    }
}

/// `group` with the channels its members wait for.
pub open spec fn grow(q: QueueView, group: u8) -> u8 {
    ((group | required(q, group, 0)) | required(q, group, 1)) | required(q, group, 2)
}

/// The channels that start together with channel `index`: those it waits
/// for, and those they wait for.
pub open spec fn group_of(q: QueueView, index: int) -> u8 {
    grow(q, grow(q, grow(q, bit(index))))
}

/// Channel `t`, which channel `m` waits for, has a note at its head that
/// waits for `m` too.
pub open spec fn partner_ok(q: QueueView, m: int, t: int) -> bool {
    rendezvous_mask(head(q, m)->0, m) & bit(t) != 0 ==> (head(q, t) is Some && rendezvous_mask(head(q, t)->0, t)
        & bit(m) != 0)
}

/// Channel `m` can start its head note now: it is free, the note is not
/// held, and every channel it waits for waits for it in turn.
pub open spec fn member_ok(q: QueueView, m: int) -> bool {
    &&& head(q, m) is Some
    &&& !q.busy[m]
    &&& head(q, m)->0.state & 64u8 == 0
    &&& partner_ok(q, m, 0) && partner_ok(q, m, 1) && partner_ok(q, m, 2)
}

pub open spec fn group_valid(q: QueueView, group: u8) -> bool {
    &&& (group & bit(0) != 0 ==> member_ok(q, 0))
    &&& (group & bit(1) != 0 ==> member_ok(q, 1))
    &&& (group & bit(2) != 0 ==> member_ok(q, 2))
}

/// Channel `m` of `group` starts its head note.
pub open spec fn start_member(q: QueueView, started: Seq<(usize, Note)>, group: u8, m: int) -> (QueueView, Seq<(usize, Note)>) {
    if group & bit(m) != 0 && head(q, m) is Some {
        let note = head(q, m)->0;
        (
            QueueView {
                pending: q.pending.update(m, q.pending[m].drop_first()),
                busy: q.busy.update(m, true),
                noise_period: if note.noise != 0 {
                    if note.noise < 31 { note.noise } else { 31 }
                } else {
                    q.noise_period
                },
            },
            started.push((m as usize, note)),
        )
    } else {
        (q, started)
    }
}

pub open spec fn start_group(q: QueueView, started: Seq<(usize, Note)>, group: u8) -> (QueueView, Seq<(usize, Note)>) {
    let (q0, s0) = start_member(q, started, group, 0);
    let (q1, s1) = start_member(q0, s0, group, 1);
    start_member(q1, s1, group, 2)
}

/// Starts, from channel `index` on, each free channel whose head note can
/// start, with the channels it meets: the queues afterwards and the notes
/// started, with their channels, appended to `started`.
pub open spec fn ready_from(q: QueueView, started: Seq<(usize, Note)>, index: int) -> (QueueView, Seq<(usize, Note)>)
    decreases 3 - index,
{
    if index >= 3 || index < 0 {
        (q, started)
    } else {
        let group = group_of(q, index);
        if !q.busy[index] && head(q, index) is Some && head(q, index)->0.state & 64u8 == 0 && group_valid(q, group) {
            let (q2, s2) = start_group(q, started, group);
            ready_from(q2, s2, index + 1)
        } else {
            ready_from(q, started, index + 1)
        }
    }
}

/// The queues after queueing `note` on the channels of `selected`, emptied
/// first when `flush`.
pub open spec fn pushed(q: QueueView, note: Note, selected: u8, flush: bool) -> QueueView {
    QueueView {
        pending: Seq::new(
            3,
            |m: int|
                if selected & bit(m) != 0 {
                    (if flush { Seq::<Note>::empty() } else { q.pending[m] }).push(note)
                } else {
                    q.pending[m]
                },
        ),
        busy: Seq::new(3, |m: int| if selected & bit(m) != 0 && flush { false } else { q.busy[m] }),
        noise_period: q.noise_period,
    }
}

/// Some channel of `selected` has a full queue.
pub open spec fn full_channel(q: QueueView, selected: u8) -> bool {
    ||| (selected & bit(0) != 0 && q.pending[0].len() == 4)
    ||| (selected & bit(1) != 0 && q.pending[1].len() == 4)
    ||| (selected & bit(2) != 0 && q.pending[2].len() == 4)
}

/// The queues after releasing the held head notes of the free channels of
/// `mask`.
pub open spec fn released(q: QueueView, mask: u8) -> QueueView {
    QueueView {
        pending: Seq::new(
            3,
            |m: int|
                if mask & bit(m) != 0 && !q.busy[m] && q.pending[m].len() > 0 {
                    q.pending[m].update(0, Note { state: q.pending[m][0].state & !64u8, ..q.pending[m][0] })
                } else {
                    q.pending[m]
                },
        ),
        busy: q.busy,
        noise_period: q.noise_period,
    }
}

/// What `SOUND`'s channel status reads for a channel: the free slots, and
/// 128 while it plays, else 64 when its head note is held, else the
/// channels that note waits for, times 8.
pub open spec fn status_of(q: QueueView, index: int) -> u8 {
    let free = (4 - q.pending[index].len()) as u8;
    if q.busy[index] {
        free | 128u8
    } else {
        match head(q, index) {
            Some(note) => if note.state & 64u8 != 0 {
                free | 64u8
            } else {
                free | (rendezvous_mask(note, index) << 3u8)
            },
            None => free,
        }
    }
}

/// One channel: its pending notes, oldest first, and whether it plays.
#[derive(Debug, Clone)]
pub struct ChannelQueue {
    pub pending: Vec<Note>,
    pub busy: bool,
}

/// The queues of the three channels.
#[derive(Debug, Clone)]
pub struct SoundQueues {
    pub channels: Vec<ChannelQueue>,
    pub noise_period: u8,
    /// The notes started since the caller last took them, with their
    /// channels, in the order they started.
    pub started: Vec<(usize, Note)>,
    /// The volume and tone envelopes of the started notes, as defined when
    /// each note started.
    pub started_envelopes: Vec<(Envelope, Envelope)>,
    /// The volume envelope definitions (ENV 0 to 15).
    pub volume_envelopes: Vec<Envelope>,
    /// The tone envelope definitions (ENT 0 to 15).
    pub tone_envelopes: Vec<Envelope>,
}

impl View for SoundQueues {
    type V = QueueView;

    open spec fn view(&self) -> QueueView {
        QueueView {
            pending: Seq::new(3, |m: int| self.channels@[m].pending@),
            busy: Seq::new(3, |m: int| self.channels@[m].busy),
            noise_period: self.noise_period,
        }
    }
}

fn channel_bit(m: usize) -> (r: u8)
    requires
        m < 3,
    ensures
        r == bit(m as int),
{
    if m == 0 {
        1
    } else if m == 1 {
        2
    } else {
        4
    }
}

/// The channels a note on channel `index` waits for.
pub fn rendezvous(note: Note, index: usize) -> (r: u8)
    requires
        index < 3,
    ensures
        r == rendezvous_mask(note, index as int),
{
    (((note.state >> 3u8) & 7u8) | (note.state & 7u8)) & !channel_bit(index)
}

/// Sixteen empty envelope definitions.
fn default_definitions() -> (r: Vec<Envelope>)
    ensures
        all_default(r@),
{
    let mut r: Vec<Envelope> = Vec::new();
    while r.len() < ENVELOPE_SLOTS
        invariant
            r@.len() <= ENVELOPE_SLOTS,
            forall|k: int| 0 <= k < r@.len() ==> #[trigger] envelope_view(r@[k]) == (Seq::<Section>::empty(), false),
        decreases ENVELOPE_SLOTS - r@.len(),
    {
        let e = Envelope { sections: Vec::new(), repeat: false };
        assert(envelope_view(e) =~= (Seq::<Section>::empty(), false));
        r.push(e);
    }
    r
}

/// A copy of an envelope.
fn copy_envelope(e: &Envelope) -> (r: Envelope)
    ensures
        envelope_view(r) == envelope_view(*e),
{
    let mut sections: Vec<Section> = Vec::new();
    let mut i: usize = 0;
    while i < e.sections.len()
        invariant
            i <= e.sections@.len(),
            sections@ == e.sections@.subrange(0, i as int),
        decreases e.sections@.len() - i,
    {
        sections.push(e.sections[i]);
        i += 1;
        assert(sections@ =~= e.sections@.subrange(0, i as int));
    }
    assert(e.sections@.subrange(0, i as int) =~= e.sections@);
    Envelope { sections, repeat: e.repeat }
}

/// The envelope that definition `k` of `defs` gives a note.
fn definition_of(defs: &Vec<Envelope>, k: u8) -> (r: Envelope)
    ensures
        envelope_view(r) == definition(defs@, k),
{
    if (k as usize) < defs.len() {
        copy_envelope(&defs[k as usize])
    } else {
        let r = Envelope { sections: Vec::new(), repeat: false };
        assert(envelope_view(r) =~= (Seq::<Section>::empty(), false));
        r
    }
}

/// Queues that start nothing keep the envelopes they carry.
pub proof fn lemma_attached_to_itself(q: SoundQueues)
    requires
        q.wf(),
    ensures
        q.attached_since(q),
{
    assert(q.started_envelopes@.subrange(0, q.started@.len() as int) =~= q.started_envelopes@);
}

impl SoundQueues {
    pub open spec fn wf(&self) -> bool {
        &&& self.channels@.len() == 3
        &&& forall|m: int| 0 <= m < 3 ==> self.channels@[m].pending@.len() <= 4
        &&& self.started_envelopes@.len() == self.started@.len()
        &&& self.volume_envelopes@.len() == ENVELOPE_SLOTS
        &&& self.tone_envelopes@.len() == ENVELOPE_SLOTS
    }

    /// The started notes from position `from` on carry the envelopes that
    /// their `volume_env` and `tone_env` name in the current definitions.
    pub open spec fn envelopes_attached(&self, from: int) -> bool {
        forall|k: int|
            from <= k < self.started@.len() ==> envelope_view(#[trigger] self.started_envelopes@[k].0) == definition(
                self.volume_envelopes@,
                self.started@[k].1.volume_env,
            ) && envelope_view(self.started_envelopes@[k].1) == definition(self.tone_envelopes@, self.started@[k].1.tone_env)
    }

    /// The envelopes of the notes started before, and the definitions, are
    /// those of `before`; the notes started since carry the envelopes then
    /// defined.
    pub open spec fn attached_since(&self, before: SoundQueues) -> bool {
        &&& self.volume_envelopes == before.volume_envelopes
        &&& self.tone_envelopes == before.tone_envelopes
        &&& before.started@.len() <= self.started@.len()
        &&& self.started_envelopes@.subrange(0, before.started@.len() as int) == before.started_envelopes@
        &&& self.envelopes_attached(before.started@.len() as int)
    }

    /// Three idle channels with empty queues.
    pub fn new() -> (r: SoundQueues)
        ensures
            r.wf(),
            r@.pending == seq![Seq::<Note>::empty(), Seq::<Note>::empty(), Seq::<Note>::empty()],
            r@.busy == seq![false, false, false],
            r@.noise_period == 0,
            r.started@.len() == 0,
            all_default(r.volume_envelopes@),
            all_default(r.tone_envelopes@),
    {
        let mut channels: Vec<ChannelQueue> = Vec::new();
        channels.push(ChannelQueue { pending: Vec::new(), busy: false });
        channels.push(ChannelQueue { pending: Vec::new(), busy: false });
        channels.push(ChannelQueue { pending: Vec::new(), busy: false });
        let r = SoundQueues {
            channels,
            noise_period: 0,
            started: Vec::new(),
            started_envelopes: Vec::new(),
            volume_envelopes: default_definitions(),
            tone_envelopes: default_definitions(),
        };
        assert(r@.pending =~= seq![Seq::<Note>::empty(), Seq::<Note>::empty(), Seq::<Note>::empty()]);
        assert(r@.busy =~= seq![false, false, false]);
        r
    }

    fn head_note(&self, m: usize) -> (r: Option<Note>)
        requires
            self.wf(),
            m < 3,
        ensures
            r == head(self@, m as int),
    {
        if self.channels[m].pending.len() > 0 {
            Some(self.channels[m].pending[0])
        } else {
            None
        }
    }

    fn required_by(&self, group: u8, m: usize) -> (r: u8)
        requires
            self.wf(),
            m < 3,
        ensures
            r == required(self@, group, m as int),
    {
        if group & channel_bit(m) != 0 {
            match self.head_note(m) {
                Some(h) => rendezvous(h, m),
                None => 0,
            }
        } else {
            0
        }
    }

    fn grow_group(&self, group: u8) -> (r: u8)
        requires
            self.wf(),
        ensures
            r == grow(self@, group),
    {
        ((group | self.required_by(group, 0)) | self.required_by(group, 1)) | self.required_by(group, 2)
    }

    fn partner_fits(&self, m: usize, t: usize) -> (r: bool)
        requires
            self.wf(),
            m < 3,
            t < 3,
            head(self@, m as int) is Some,
        ensures
            r == partner_ok(self@, m as int, t as int),
    {
        let h = self.head_note(m).unwrap();
        if rendezvous(h, m) & channel_bit(t) != 0 {
            match self.head_note(t) {
                Some(p) => rendezvous(p, t) & channel_bit(m) != 0,
                None => false,
            }
        } else {
            true
        }
    }

    fn member_fits(&self, m: usize) -> (r: bool)
        requires
            self.wf(),
            m < 3,
        ensures
            r == member_ok(self@, m as int),
    {
        match self.head_note(m) {
            None => false,
            Some(h) => !self.channels[m].busy && h.state & 64u8 == 0 && self.partner_fits(m, 0)
                && self.partner_fits(m, 1) && self.partner_fits(m, 2),
        }
    }

    fn group_fits(&self, group: u8) -> (r: bool)
        requires
            self.wf(),
        ensures
            r == group_valid(self@, group),
    {
        (group & channel_bit(0) == 0 || self.member_fits(0)) && (group & channel_bit(1) == 0 || self.member_fits(1))
            && (group & channel_bit(2) == 0 || self.member_fits(2))
    }
    fn start_channel(&mut self, started: &mut Vec<(usize, Note)>, group: u8, m: usize)
        requires
            old(self).wf(),
            m < 3,
        ensures
            final(self).wf(),
            (final(self)@, final(started)@) == start_member(old(self)@, old(started)@, group, m as int),
            final(self).started == old(self).started,
            final(self).started_envelopes == old(self).started_envelopes,
            final(self).volume_envelopes == old(self).volume_envelopes,
            final(self).tone_envelopes == old(self).tone_envelopes,
            old(started)@.len() <= final(started)@.len(),
            final(started)@.subrange(0, old(started)@.len() as int) == old(started)@,
    {
        if group & channel_bit(m) != 0 && self.channels[m].pending.len() > 0 {
            let ghost before = self@;
            let mut ch = self.channels.remove(m);
            let note = ch.pending.remove(0);
            if note.noise != 0 {
                self.noise_period = if note.noise < 31 {
                    note.noise
                } else {
                    31
                };
            }
            ch.busy = true;
            self.channels.insert(m, ch);
            started.push((m, note));
            assert(self@.pending =~= before.pending.update(m as int, before.pending[m as int].drop_first()));
            assert(self@.busy =~= before.busy.update(m as int, true));
        }
    }

    fn start_channels(&mut self, started: &mut Vec<(usize, Note)>, group: u8)
        requires
            old(self).wf(),
        ensures
            final(self).wf(),
            (final(self)@, final(started)@) == start_group(old(self)@, old(started)@, group),
            final(self).started == old(self).started,
            final(self).started_envelopes == old(self).started_envelopes,
            final(self).volume_envelopes == old(self).volume_envelopes,
            final(self).tone_envelopes == old(self).tone_envelopes,
            old(started)@.len() <= final(started)@.len(),
            final(started)@.subrange(0, old(started)@.len() as int) == old(started)@,
    {
        self.start_channel(started, group, 0);
        self.start_channel(started, group, 1);
        self.start_channel(started, group, 2);
    }

    /// Starts every free channel whose head note can start now, together
    /// with the channels it meets, in channel order, adding the notes
    /// started to `started`.
    fn start_ready(&mut self)
        requires
            old(self).wf(),
        ensures
            final(self).wf(),
            (final(self)@, final(self).started@) == ready_from(old(self)@, old(self).started@, 0),
            final(self).attached_since(*old(self)),
    {
        let mut started: Vec<(usize, Note)> = Vec::new();
        std::mem::swap(&mut started, &mut self.started);
        let mut envelopes: Vec<(Envelope, Envelope)> = Vec::new();
        std::mem::swap(&mut envelopes, &mut self.started_envelopes);
        let ghost begin = self@;
        let ghost before_started = started@;
        let mut index: usize = 0;
        while index < 3
            invariant
                self.wf(),
                index <= 3,
                self.started@.len() == 0,
                self.started_envelopes@.len() == 0,
                self.volume_envelopes == old(self).volume_envelopes,
                self.tone_envelopes == old(self).tone_envelopes,
                before_started == old(self).started@,
                before_started.len() <= started@.len(),
                started@.subrange(0, before_started.len() as int) == before_started,
                ready_from(begin, old(self).started@, 0) == ready_from(self@, started@, index as int),
            decreases 3 - index,
        {
            let group = self.grow_group(self.grow_group(self.grow_group(channel_bit(index))));
            let free = !self.channels[index].busy;
            let ready = match self.head_note(index) {
                Some(h) => h.state & 64u8 == 0,
                None => false,
            };
            if free && ready && self.group_fits(group) {
                let ghost prior = started@;
                self.start_channels(&mut started, group);
                assert(started@.subrange(0, before_started.len() as int) =~= prior.subrange(0, before_started.len() as int));
            }
            index += 1;
        }
        let mut k = envelopes.len();
        while k < started.len()
            invariant
                before_started.len() == old(self).started_envelopes@.len(),
                before_started.len() <= k <= started@.len(),
                envelopes@.len() == k,
                envelopes@.subrange(0, before_started.len() as int) == old(self).started_envelopes@,
                self.volume_envelopes == old(self).volume_envelopes,
                self.tone_envelopes == old(self).tone_envelopes,
                forall|j: int|
                    before_started.len() <= j < k ==> envelope_view(#[trigger] envelopes@[j].0) == definition(
                        self.volume_envelopes@,
                        started@[j].1.volume_env,
                    ) && envelope_view(envelopes@[j].1) == definition(self.tone_envelopes@, started@[j].1.tone_env),
            decreases started@.len() - k,
        {
            let note = started[k].1;
            let volume = definition_of(&self.volume_envelopes, note.volume_env);
            let tone = definition_of(&self.tone_envelopes, note.tone_env);
            envelopes.push((volume, tone));
            assert(envelopes@.subrange(0, before_started.len() as int) =~= old(self).started_envelopes@);
            k += 1;
        }
        self.started = started;
        self.started_envelopes = envelopes;
    }

    fn queue_on(&mut self, m: usize, note: Note, selected: u8, flush: bool)
        requires
            old(self).wf(),
            m < 3,
            flush || !(selected & bit(m as int) != 0 && old(self)@.pending[m as int].len() == 4),
        ensures
            final(self).wf(),
            final(self)@ == (if selected & bit(m as int) != 0 {
                QueueView {
                    pending: old(self)@.pending.update(
                        m as int,
                        (if flush { Seq::<Note>::empty() } else { old(self)@.pending[m as int] }).push(note),
                    ),
                    busy: if flush { old(self)@.busy.update(m as int, false) } else { old(self)@.busy },
                    ..old(self)@
                }
            } else {
                old(self)@
            }),
            final(self).started@ == old(self).started@,
            final(self).started == old(self).started,
            final(self).started_envelopes == old(self).started_envelopes,
            final(self).volume_envelopes == old(self).volume_envelopes,
            final(self).tone_envelopes == old(self).tone_envelopes,
    {
        if selected & channel_bit(m) != 0 {
            let ghost prev = self.channels@;
            let ghost before = self@;
            let mut ch = self.channels.remove(m);
            if flush {
                ch.pending = Vec::new();
                ch.busy = false;
            }
            ch.pending.push(note);
            self.channels.insert(m, ch);
            assert(self.channels@ =~= prev.update(m as int, self.channels@[m as int]));
            assert(self@.pending =~= before.pending.update(
                m as int,
                (if flush { Seq::<Note>::empty() } else { before.pending[m as int] }).push(note),
            ));
            assert(self@.busy =~= (if flush { before.busy.update(m as int, false) } else { before.busy }));
        }
    }

    fn release_on(&mut self, m: usize, mask: u8)
        requires
            old(self).wf(),
            m < 3,
        ensures
            final(self).wf(),
            final(self)@ == (if mask & bit(m as int) != 0 && !old(self)@.busy[m as int] && old(self)@.pending[m as int].len() > 0 {
                QueueView {
                    pending: old(self)@.pending.update(
                        m as int,
                        old(self)@.pending[m as int].update(
                            0,
                            Note { state: old(self)@.pending[m as int][0].state & !64u8, ..old(self)@.pending[m as int][0] },
                        ),
                    ),
                    ..old(self)@
                }
            } else {
                old(self)@
            }),
            final(self).started@ == old(self).started@,
            final(self).started == old(self).started,
            final(self).started_envelopes == old(self).started_envelopes,
            final(self).volume_envelopes == old(self).volume_envelopes,
            final(self).tone_envelopes == old(self).tone_envelopes,
    {
        if mask & channel_bit(m) != 0 && !self.channels[m].busy && self.channels[m].pending.len() > 0 {
            let ghost prev = self.channels@;
            let ghost before = self@;
            let mut ch = self.channels.remove(m);
            let head = ch.pending[0];
            ch.pending.set(0, Note { state: head.state & !64u8, ..head });
            self.channels.insert(m, ch);
            assert(self.channels@ =~= prev.update(m as int, self.channels@[m as int]));
            assert(self@.pending =~= before.pending.update(
                m as int,
                before.pending[m as int].update(0, Note { state: head.state & !64u8, ..head }),
            ));
            assert(self@.busy =~= before.busy);
        }
    }

    fn finish_on(&mut self, m: usize, mask: u8)
        requires
            old(self).wf(),
            m < 3,
        ensures
            final(self).wf(),
            final(self)@ == (if mask & bit(m as int) != 0 {
                QueueView { busy: old(self)@.busy.update(m as int, false), ..old(self)@ }
            } else {
                old(self)@
            }),
            final(self).started@ == old(self).started@,
            final(self).started == old(self).started,
            final(self).started_envelopes == old(self).started_envelopes,
            final(self).volume_envelopes == old(self).volume_envelopes,
            final(self).tone_envelopes == old(self).tone_envelopes,
    {
        if mask & channel_bit(m) != 0 {
            let ghost prev = self.channels@;
            let ghost before = self@;
            let mut ch = self.channels.remove(m);
            ch.busy = false;
            self.channels.insert(m, ch);
            assert(self.channels@ =~= prev.update(m as int, self.channels@[m as int]));
            assert(self@.pending =~= before.pending);
            assert(self@.busy =~= before.busy.update(m as int, false));
        }
    }

    /// Queues `note` on each channel of its state bits, emptying those
    /// queues first when it flushes; nothing changes when a queue without a
    /// flush is full. Then starts what can start.
    pub fn enqueue(&mut self, note: Note) -> (r: bool)
        requires
            old(self).wf(),
        ensures
            final(self).wf(),
            ({
                let selected = note.state & 7u8;
                let flush = note.state & 128u8 != 0;
                if selected == 0 {
                    r && final(self)@ == old(self)@ && final(self).started@ == old(self).started@
                } else if !flush && full_channel(old(self)@, selected) {
                    !r && final(self)@ == old(self)@ && final(self).started@ == old(self).started@
                } else {
                    r && (final(self)@, final(self).started@) == ready_from(
                        pushed(old(self)@, note, selected, flush),
                        old(self).started@,
                        0,
                    )
                }
            }),
            final(self).attached_since(*old(self)),
    {
        proof {
            lemma_attached_to_itself(*old(self));
        }
        let selected = note.state & 7u8;
        if selected == 0 {
            return true;
        }
        let flush = note.state & 128u8 != 0;
        if !flush {
            let mut m: usize = 0;
            while m < 3
                invariant
                    self.wf(),
                    self@ == old(self)@,
                    self.started@ == old(self).started@,
                    self.started_envelopes == old(self).started_envelopes,
                    self.volume_envelopes == old(self).volume_envelopes,
                    self.tone_envelopes == old(self).tone_envelopes,
                    old(self).attached_since(*old(self)),
                    selected == note.state & 7u8,
                    selected != 0,
                    !flush,
                    flush == (note.state & 128u8 != 0),
                    m <= 3,
                    forall|k: int| 0 <= k < m ==> !(selected & bit(k) != 0 && self@.pending[k].len() == 4),
                decreases 3 - m,
            {
                if selected & channel_bit(m) != 0 && self.channels[m].pending.len() == QUEUE_CAPACITY {
                    proof {
                        let k = m as int;
                        assert(self@.pending[k].len() == 4);
                        assert(k == 0 || k == 1 || k == 2);
                        assert(full_channel(self@, selected));
                    }
                    return false;
                }
                m += 1;
            }
            assert(!full_channel(self@, selected)) by {
                assert(!(selected & bit(0) != 0 && self@.pending[0].len() == 4));
                assert(!(selected & bit(1) != 0 && self@.pending[1].len() == 4));
                assert(!(selected & bit(2) != 0 && self@.pending[2].len() == 4));
            }
        }
        let ghost before = self@;
        self.queue_on(0, note, selected, flush);
        self.queue_on(1, note, selected, flush);
        self.queue_on(2, note, selected, flush);
        assert(self@.pending =~= pushed(before, note, selected, flush).pending);
        assert(self@.busy =~= pushed(before, note, selected, flush).busy);
        self.start_ready();
        true
    }

    /// Releases the held note at the head of each free channel of `mask`,
    /// then starts what can start.
    pub fn release(&mut self, mask: u8)
        requires
            old(self).wf(),
        ensures
            final(self).wf(),
            (final(self)@, final(self).started@) == ready_from(released(old(self)@, mask), old(self).started@, 0),
            final(self).attached_since(*old(self)),
    {
        let ghost before = self@;
        self.release_on(0, mask);
        self.release_on(1, mask);
        self.release_on(2, mask);
        assert(self@.pending =~= released(before, mask).pending);
        assert(self@.busy =~= before.busy);
        self.start_ready();
    }

    /// The notes playing on the channels of `mask` have ended; starts what
    /// can start.
    pub fn notes_finished(&mut self, mask: u8)
        requires
            old(self).wf(),
        ensures
            final(self).wf(),
            (final(self)@, final(self).started@) == ready_from(
                QueueView {
                    busy: Seq::new(3, |m: int| old(self)@.busy[m] && mask & bit(m) == 0),
                    ..old(self)@
                },
                old(self).started@,
                0,
            ),
            final(self).attached_since(*old(self)),
    {
        let ghost before = self@;
        self.finish_on(0, mask);
        self.finish_on(1, mask);
        self.finish_on(2, mask);
        assert(self@.pending =~= before.pending);
        assert(self@.busy =~= Seq::new(3, |k: int| before.busy[k] && mask & bit(k) == 0));
        self.start_ready();
    }

    /// Takes the notes started since the last call, with their volume and
    /// tone envelopes.
    pub fn take_started(&mut self) -> (r: (Vec<(usize, Note)>, Vec<(Envelope, Envelope)>))
        requires
            old(self).wf(),
        ensures
            final(self).wf(),
            r.0@ == old(self).started@,
            r.1@ == old(self).started_envelopes@,
            final(self).started@.len() == 0,
            final(self).channels == old(self).channels,
            final(self).noise_period == old(self).noise_period,
            final(self).volume_envelopes == old(self).volume_envelopes,
            final(self).tone_envelopes == old(self).tone_envelopes,
    {
        let mut notes: Vec<(usize, Note)> = Vec::new();
        std::mem::swap(&mut notes, &mut self.started);
        let mut envelopes: Vec<(Envelope, Envelope)> = Vec::new();
        std::mem::swap(&mut envelopes, &mut self.started_envelopes);
        (notes, envelopes)
    }

    /// Defines volume envelope `index` (ENV) from the first five of
    /// `sections`; an index past the sixteen definitions changes nothing.
    pub fn define_volume(&mut self, index: u8, sections: Vec<Section>)
        requires
            old(self).wf(),
        ensures
            final(self).wf(),
            final(self)@ == old(self)@,
            final(self).started == old(self).started,
            final(self).started_envelopes == old(self).started_envelopes,
            final(self).tone_envelopes == old(self).tone_envelopes,
            forall|k: int|
                0 <= k < ENVELOPE_SLOTS ==> #[trigger] envelope_view(final(self).volume_envelopes@[k]) == (if k
                    == index {
                    (sections@.subrange(0, if sections@.len() < 5 { sections@.len() as int } else { 5 }), false)
                } else {
                    envelope_view(old(self).volume_envelopes@[k])
                }),
    {
        if (index as usize) < self.volume_envelopes.len() {
            let e = Envelope::new(sections, false);
            self.volume_envelopes.set(index as usize, e);
        }
    }

    /// Defines tone envelope `index` (ENT) from the first five of
    /// `sections`, repeating or not; an index past the sixteen definitions
    /// changes nothing.
    pub fn define_tone(&mut self, index: u8, repeat: bool, sections: Vec<Section>)
        requires
            old(self).wf(),
        ensures
            final(self).wf(),
            final(self)@ == old(self)@,
            final(self).started == old(self).started,
            final(self).started_envelopes == old(self).started_envelopes,
            final(self).volume_envelopes == old(self).volume_envelopes,
            forall|k: int|
                0 <= k < ENVELOPE_SLOTS ==> #[trigger] envelope_view(final(self).tone_envelopes@[k]) == (if k
                    == index {
                    (sections@.subrange(0, if sections@.len() < 5 { sections@.len() as int } else { 5 }), repeat)
                } else {
                    envelope_view(old(self).tone_envelopes@[k])
                }),
    {
        if (index as usize) < self.tone_envelopes.len() {
            let e = Envelope::new(sections, repeat);
            self.tone_envelopes.set(index as usize, e);
        }
    }

    /// The status byte of channel 1, 2 or 4 (A, B, C); 0 for any other
    /// number.
    pub fn status(&self, channel: u8) -> (r: u8)
        requires
            self.wf(),
        ensures
            r == (if channel == 1 {
                status_of(self@, 0)
            } else if channel == 2 {
                status_of(self@, 1)
            } else if channel == 4 {
                status_of(self@, 2)
            } else {
                0
            }),
    {
        let index: usize = if channel == 1 {
            0
        } else if channel == 2 {
            1
        } else if channel == 4 {
            2
        } else {
            return 0;
        };
        let free = (QUEUE_CAPACITY - self.channels[index].pending.len()) as u8;
        if self.channels[index].busy {
            return free | 128u8;
        }
        match self.head_note(index) {
            Some(note) => if note.state & 64u8 != 0 {
                free | 64u8
            } else {
                free | (rendezvous(note, index) << 3u8)
            },
            None => free,
        }
    }

    /// No channel plays or has notes waiting.
    pub fn is_idle(&self) -> (r: bool)
        requires
            self.wf(),
        ensures
            r == (forall|m: int| 0 <= m < 3 ==> !self@.busy[m] && self@.pending[m].len() == 0),
    {
        let mut m: usize = 0;
        while m < 3
            invariant
                self.wf(),
                m <= 3,
                forall|k: int| 0 <= k < m ==> !self@.busy[k] && self@.pending[k].len() == 0,
            decreases 3 - m,
        {
            proof {
                let k = m as int;
                assert(self@.busy[k] == self.channels@[k].busy);
                assert(self@.pending[k] == self.channels@[k].pending@);
            }
            if self.channels[m].busy || self.channels[m].pending.len() > 0 {
                proof {
                    let k = m as int;
                    assert(0 <= k < 3);
                    assert(self@.busy[k] == self.channels@[k].busy);
                    assert(self@.pending[k] == self.channels@[k].pending@);
                    assert(!(!self@.busy[k] && self@.pending[k].len() == 0));
                }
                return false;
            }
            m += 1;
        }
        true
    }

    /// Stops every channel and drops every pending note; the envelope
    /// definitions stay.
    pub fn stop(&mut self)
        requires
            old(self).wf(),
        ensures
            final(self).wf(),
            final(self)@.pending == seq![Seq::<Note>::empty(), Seq::<Note>::empty(), Seq::<Note>::empty()],
            final(self)@.busy == seq![false, false, false],
            final(self)@.noise_period == 0,
            final(self).started@.len() == 0,
            final(self).volume_envelopes == old(self).volume_envelopes,
            final(self).tone_envelopes == old(self).tone_envelopes,
    {
        let mut fresh = SoundQueues::new();
        std::mem::swap(&mut fresh.volume_envelopes, &mut self.volume_envelopes);
        std::mem::swap(&mut fresh.tone_envelopes, &mut self.tone_envelopes);
        *self = fresh;
    }

    /// Stops everything and drops the envelope definitions too.
    pub fn clear(&mut self)
        ensures
            final(self).wf(),
            final(self)@.pending == seq![Seq::<Note>::empty(), Seq::<Note>::empty(), Seq::<Note>::empty()],
            final(self)@.busy == seq![false, false, false],
            final(self)@.noise_period == 0,
            final(self).started@.len() == 0,
            all_default(final(self).volume_envelopes@),
            all_default(final(self).tone_envelopes@),
    {
        *self = SoundQueues::new();
    }
}

} // verus!
