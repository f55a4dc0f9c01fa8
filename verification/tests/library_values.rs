use avl_basic::error::{BasicError, ErrorCode};
use avl_basic::sound::{EnvelopeKind, Note, Section};
use avl_basic::texture::Texture;
use avl_basic::noise::{advance_noise, noise_step};
use avl_basic::sound::{channel_index, check_asset, validate_request};
use avl_basic::editor_keys::{editor_replace_count_status, editor_replace_status};

#[test]
fn saved_screens_become_textures() {
    let texture = Texture::from_gscr("2x2:ff000000ff000000ffffffff").unwrap();
    assert_eq!(texture.width, 2);
    assert_eq!(texture.height, 2);
    assert_eq!(texture.pixels, vec![0xff0000, 0x00ff00, 0x0000ff, 0xffffff]);

    let signed = Texture::from_gscr("+1x+1:+abcde").unwrap();
    assert_eq!(signed.pixels, vec![0xabcde]);

    for invalid in ["2x2:ff", "2:ffffff", "ax1:ffffff", "0x0:", "1x1:gggggg", "1x1:ffffff00", "1x1:-fffff"] {
        let error = Texture::from_gscr(invalid).unwrap_err();
        assert_eq!(error.code, ErrorCode::InvalidValue, "accepted {invalid}");
    }
    assert!(Texture::from_gscr("1x1:ééé").is_err());
}

#[test]
fn basic_errors_show_their_line_and_detail() {
    let plain = BasicError::new(ErrorCode::InvalidValue);
    assert_eq!(plain.display_for_basic("Invalid value"), "Invalid value");
    let at_line = BasicError::new(ErrorCode::InvalidValue).at_line(20);
    assert_eq!(at_line.display_for_basic("Invalid value"), "Line 20. Invalid value");
    let detailed = BasicError::new(ErrorCode::FileNotFound)
        .at_line(-3)
        .with_detail("missing.bas".to_string());
    assert_eq!(detailed.display_for_basic("File not found"), "Line -3. missing.bas");
}

#[test]
fn envelope_sections_step_volumes_and_tones() {
    let step = Section::Step { steps: 0, delta: -3, ticks: 0 };
    assert_eq!(step.ticks(), 256);
    assert_eq!(step.steps(), 1);
    assert_eq!(step.step_value(EnvelopeKind::Volume, 9), 13);
    assert_eq!(step.step_value(EnvelopeKind::Tone, 9), 9);

    let down = Section::Step { steps: 4, delta: -3, ticks: 5 };
    assert_eq!(down.ticks(), 5);
    assert_eq!(down.steps(), 4);
    assert_eq!(down.step_value(EnvelopeKind::Volume, 1), 14);
    assert_eq!(down.step_value(EnvelopeKind::Tone, 1), 0);
    let up = Section::Step { steps: 1, delta: 100, ticks: 1 };
    assert_eq!(up.step_value(EnvelopeKind::Tone, 4090), 4095);

    let absolute = Section::Absolute { value: 5000, ticks: 7 };
    assert_eq!(absolute.steps(), 1);
    assert_eq!(absolute.step_value(EnvelopeKind::Tone, 0), 4095);
    assert_eq!(absolute.step_value(EnvelopeKind::Volume, 0), 5000 % 16);

    let note = Note { state: 1, period: 478, duration: 50, volume: 12, volume_env: 0, tone_env: 0, noise: 0 };
    assert_eq!(note, note.clone());
}

#[test]
fn jumping_the_noise_register_matches_stepping_it() {
    for count in [0u64, 1, 64, 65, 1000, 100_000] {
        let mut sequential = 0x1ffff;
        for _ in 0..count {
            sequential = noise_step(sequential);
        }
        assert_eq!(advance_noise(0x1ffff, count), sequential);
    }
    let mut sequential = 0x12345;
    for _ in 0..777 {
        sequential = noise_step(sequential);
    }
    assert_eq!(advance_noise(0x12345, 777), sequential);
    assert_eq!(advance_noise(0xfff12345, 777), sequential);
}

#[test]
fn sound_channels_assets_and_pulse_requests_are_checked() {
    assert_eq!(channel_index(1), Ok(0));
    assert_eq!(channel_index(32), Ok(31));
    assert_eq!(
        channel_index(0),
        Err("Sound channel must be between 1 and 32".to_string())
    );
    assert!(channel_index(33).is_err());
    assert_eq!(check_asset(64), Ok(()));
    assert_eq!(check_asset(0), Err("Sound ID must be between 1 and 64".to_string()));
    assert!(check_asset(65).is_err());
    assert_eq!(validate_request(19200), Ok(()));
    assert_eq!(validate_request(0), Ok(()));
    assert_eq!(
        validate_request(19201),
        Err("PulseAudio requested an invalid PCM block (19201 bytes)".to_string())
    );
    assert!(validate_request(19204).is_err());
}

#[test]
fn replace_status_counts_occurrences() {
    assert_eq!(editor_replace_count_status(1), "Replaced 1 occurrence");
    assert_eq!(editor_replace_count_status(0), "Replaced 0 occurrences");
    assert_eq!(editor_replace_count_status(12), "Replaced 12 occurrences");
    assert!(editor_replace_status().starts_with("Replace: "));
}
