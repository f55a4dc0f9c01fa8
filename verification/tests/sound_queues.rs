use avl_basic::sound::{Note, Section};
use avl_basic::sound_queue::{rendezvous, SoundQueues};

fn note(state: u8) -> Note {
    Note { state, period: 125, duration: 100, volume: 15, volume_env: 0, tone_env: 0, noise: 0 }
}

#[test]
fn queued_held_note_waits_for_release() {
    let mut queues = SoundQueues::new();
    assert!(queues.enqueue(note(65)));
    assert_eq!(queues.status(1), 67);
    assert!(queues.take_started().0.is_empty());
    queues.release(1);
    assert_eq!(queues.status(1), 132);
    assert_eq!(queues.take_started().0, vec![(0, note(1))]);
    queues.notes_finished(1);
    assert_eq!(queues.status(1), 4);
    assert!(queues.is_idle());
}

#[test]
fn release_reaches_only_the_note_at_a_free_channel() {
    let mut queues = SoundQueues::new();
    queues.enqueue(note(65));
    queues.enqueue(note(65));
    queues.release(1);
    assert_eq!(queues.status(1), 131);
    queues.release(1);
    queues.notes_finished(1);
    assert_eq!(queues.status(1), 67);
}

#[test]
fn enqueue_on_several_channels_is_all_or_nothing_and_flush_replaces() {
    let mut queues = SoundQueues::new();
    for _ in 0..4 {
        assert!(queues.enqueue(note(65)));
    }
    assert!(!queues.enqueue(note(3)));
    assert_eq!(queues.status(1), 64);
    assert_eq!(queues.status(2), 4);
    assert!(queues.enqueue(note(131)));
    assert_eq!(queues.status(1), 132);
    assert_eq!(queues.status(2), 132);
    assert_eq!(queues.take_started().0, vec![(0, note(131)), (1, note(131))]);
}

#[test]
fn a_playing_note_leaves_four_slots() {
    let mut queues = SoundQueues::new();
    for _ in 0..5 {
        assert!(queues.enqueue(note(1)));
    }
    assert_eq!(queues.status(1), 128);
    assert!(!queues.enqueue(note(1)));
    queues.notes_finished(1);
    assert_eq!(queues.status(1), 129);
}

#[test]
fn rendezvous_needs_both_heads_waiting_for_each_other() {
    let mut queues = SoundQueues::new();
    queues.enqueue(note(17));
    assert_eq!(queues.status(1), 19);
    queues.enqueue(note(2));
    assert_eq!(queues.status(1), 19);
    assert_eq!(queues.status(2), 132);
    queues.enqueue(note(10));
    assert_eq!(queues.status(1), 19);
    assert_eq!(queues.status(2), 131);
    queues.take_started();
    queues.notes_finished(2);
    assert_eq!(queues.status(1), 132);
    assert_eq!(queues.status(2), 132);
    assert_eq!(queues.take_started().0, vec![(0, note(17)), (1, note(10))]);
}

#[test]
fn a_note_on_two_channels_waits_for_both() {
    let mut queues = SoundQueues::new();
    queues.enqueue(note(1));
    queues.enqueue(note(3));
    assert_eq!(queues.status(2), 11);
    queues.notes_finished(1);
    assert_eq!(queues.status(1), 132);
    assert_eq!(queues.status(2), 132);
}

#[test]
fn three_channels_start_together_once_the_held_partner_is_released() {
    let mut queues = SoundQueues::new();
    queues.enqueue(note(1 | 16 | 32));
    queues.enqueue(note(2 | 8 | 32 | 64));
    queues.enqueue(note(4 | 8 | 16));
    assert_eq!(queues.status(1), 3 | 16 | 32);
    assert_eq!(queues.status(2), 67);
    assert_eq!(queues.status(4), 3 | 8 | 16);
    queues.release(2);
    for channel in [1, 2, 4] {
        assert_eq!(queues.status(channel), 132);
    }
    queues.notes_finished(7);
    assert!(queues.is_idle());
}

#[test]
fn noisy_notes_set_the_shared_noise_period_and_stop_clears_everything() {
    let mut queues = SoundQueues::new();
    queues.enqueue(Note { noise: 40, ..note(1) });
    assert_eq!(queues.noise_period, 31);
    queues.enqueue(Note { noise: 7, ..note(2) });
    assert_eq!(queues.noise_period, 7);
    queues.enqueue(note(4));
    assert_eq!(queues.noise_period, 7);
    queues.stop();
    assert!(queues.is_idle());
    assert_eq!(queues.noise_period, 0);
    assert_eq!(queues.status(3), 0);
}

#[test]
fn rendezvous_masks_leave_out_the_own_channel() {
    assert_eq!(rendezvous(note(1 | 16 | 32), 0), 6);
    assert_eq!(rendezvous(note(3), 1), 1);
    assert_eq!(rendezvous(note(4), 2), 0);
}

#[test]
fn stop_keeps_envelope_definitions_and_clear_drops_them() {
    let mut queues = SoundQueues::new();
    queues.define_volume(1, vec![Section::Absolute { value: 3, ticks: 256 }]);
    queues.stop();
    assert!(queues.enqueue(Note { volume_env: 1, duration: 0, ..note(1) }));
    let (started, envelopes) = queues.take_started();
    assert_eq!(started.len(), 1);
    assert_eq!(envelopes[0].0.sections, vec![Section::Absolute { value: 3, ticks: 256 }]);
    assert!(envelopes[0].1.sections.is_empty());
    queues.clear();
    assert!(queues.is_idle());
    assert!(queues.enqueue(Note { volume_env: 1, duration: 0, ..note(1) }));
    let (_, envelopes) = queues.take_started();
    assert!(envelopes[0].0.sections.is_empty());
}

#[test]
fn pending_notes_take_the_envelopes_defined_when_they_start() {
    let mut queues = SoundQueues::new();
    queues.define_volume(1, vec![Section::Absolute { value: 3, ticks: 10 }]);
    queues.define_tone(2, true, vec![Section::Step { steps: 2, delta: -1, ticks: 5 }]);
    assert!(queues.enqueue(Note { volume_env: 1, tone_env: 2, ..note(1) }));
    assert!(queues.enqueue(Note { volume_env: 1, ..note(1) }));
    queues.define_volume(1, vec![Section::Absolute { value: 7, ticks: 10 }]);
    let (_, first) = queues.take_started();
    assert_eq!(first.len(), 1);
    assert_eq!(first[0].0.sections, vec![Section::Absolute { value: 3, ticks: 10 }]);
    assert!(first[0].1.repeat);
    assert_eq!(first[0].1.sections, vec![Section::Step { steps: 2, delta: -1, ticks: 5 }]);
    queues.notes_finished(1);
    let (_, second) = queues.take_started();
    assert_eq!(second[0].0.sections, vec![Section::Absolute { value: 7, ticks: 10 }]);
    queues.define_volume(16, vec![Section::Absolute { value: 9, ticks: 1 }]);
    assert!(queues.enqueue(Note { volume_env: 16, ..note(130) }));
    let (_, beyond) = queues.take_started();
    assert!(beyond[0].0.sections.is_empty());
}
