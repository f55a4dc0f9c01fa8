use avl_basic::envelope::{Envelope, EnvelopeCursor};
use avl_basic::sound::{EnvelopeKind, Section};

#[test]
fn volume_envelope_steps_wrap_and_finish() {
    let envelope = Envelope::new(vec![Section::Step { steps: 3, delta: 2, ticks: 1 }], false);
    let mut cursor = EnvelopeCursor::new(&envelope, 1);
    assert_eq!(cursor.apply(&envelope, 10, 10, EnvelopeKind::Volume), (12, Some(1)));
    assert_eq!(cursor.apply(&envelope, 12, 10, EnvelopeKind::Volume), (14, Some(1)));
    assert_eq!(cursor.apply(&envelope, 14, 10, EnvelopeKind::Volume), (0, Some(1)));
    assert_eq!(cursor.apply(&envelope, 0, 10, EnvelopeKind::Volume), (0, None));
    assert!(cursor.done);
    assert_eq!(cursor.apply(&envelope, 0, 10, EnvelopeKind::Volume), (0, None));
}

#[test]
fn repeated_volume_envelope_restarts_from_the_initial_level() {
    let envelope = Envelope::new(vec![Section::Step { steps: 1, delta: -1, ticks: 5 }], false);
    let mut cursor = EnvelopeCursor::new(&envelope, 2);
    assert_eq!(cursor.apply(&envelope, 8, 8, EnvelopeKind::Volume), (7, Some(5)));
    assert_eq!(cursor.apply(&envelope, 7, 8, EnvelopeKind::Volume), (7, Some(5)));
    assert_eq!(cursor.apply(&envelope, 7, 8, EnvelopeKind::Volume), (7, None));
}

#[test]
fn tone_envelopes_clamp_periods_and_repeat_without_end() {
    let envelope = Envelope::new(vec![Section::Absolute { value: 5000, ticks: 0 }], true);
    let mut cursor = EnvelopeCursor::new(&envelope, 0);
    assert_eq!(cursor.apply(&envelope, 100, 100, EnvelopeKind::Tone), (4095, Some(256)));
    assert_eq!(cursor.apply(&envelope, 4095, 100, EnvelopeKind::Tone), (4095, Some(256)));
    assert!(!cursor.done);
}

#[test]
fn envelopes_keep_five_sections_and_know_their_length() {
    let sections = vec![Section::Step { steps: 3, delta: 2, ticks: 1 }; 6];
    assert_eq!(Envelope::new(sections, false).sections.len(), 5);
    let envelope = Envelope::new(
        vec![Section::Step { steps: 3, delta: 2, ticks: 1 }, Section::Absolute { value: 0, ticks: 0 }],
        false,
    );
    assert_eq!(envelope.duration_centiseconds(), 259);
    assert_eq!(Envelope::new(Vec::new(), false).duration_centiseconds(), 200);
    assert!(EnvelopeCursor::new(&Envelope::new(Vec::new(), false), 1).done);
}
