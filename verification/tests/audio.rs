use presentation::audio_assets::{
    admit_voice, digest_matches, verify_asset, AssetError, BudgetError, Clip, VoiceError, VoiceMeta,
    VOICE_SLACK,
};
use presentation::mixer::{
    check_recording, due_requests, envelope_advances, fade_milliseconds, AudioCommand, Catalog, Cue,
    Envelope, Mixer, MixerError, RecordingError, MAX_RECORDING_FRAMES, RATE,
};
use presentation::voice::{speak, voice_frames, voice_step, Completions, Routed, SpeakError, VoiceRequests};
use sha2::Digest;
use std::io::Cursor;

fn wave(rate: u32, pcm: &[i16]) -> Vec<u8> {
    let mut bytes = Cursor::new(Vec::new());
    let mut writer = hound::WavWriter::new(
        &mut bytes,
        hound::WavSpec {
            channels: 1,
            sample_rate: rate,
            bits_per_sample: 16,
            sample_format: hound::SampleFormat::Int,
        },
    )
    .unwrap();
    for sample in pcm {
        writer.write_sample(*sample).unwrap();
    }
    writer.finalize().unwrap();
    bytes.into_inner()
}

fn hex(bytes: &[u8]) -> String {
    bytes.iter().map(|b| format!("{:02x}", b)).collect()
}

#[test]
fn shared_voice_loader_preserves_native_pcm_and_uses_the_playback_clock() {
    let pcm: [i16; 4] = [1234, -2345, 32767, -32768];
    let bytes = wave(32000, &pcm);
    let sha256 = format!("{:x}", sha2::Sha256::digest(&bytes));
    assert_eq!(verify_asset(&bytes, bytes.len(), &sha256), Ok(()));
    let mut voice = VoiceMeta { frames: 4, channels: 1, sample_rate: 32028, source_sample_rate: 32000 };
    let clip = Clip::decode(bytes.clone(), &voice).unwrap();
    assert_eq!(clip.pcm, pcm);
    assert_eq!(clip.rate, 32028);
    assert_eq!(clip.channels, 1);
    assert!(Clip::decode(wave(32028, &pcm), &voice).is_err(), "relabelled WAVs must be recooked");
    voice.source_sample_rate = 22050;
    assert!(Clip::decode(bytes, &voice).is_err());
}

#[test]
fn spoken_lines_name_each_decoding_failure() {
    let voice = VoiceMeta { frames: 4, channels: 1, sample_rate: RATE, source_sample_rate: 32000 };
    assert_eq!(Clip::decode(vec![1, 2, 3], &voice).unwrap_err(), VoiceError::Wav);
    let three = wave(32000, &[1, 2, 3]);
    assert_eq!(Clip::decode(three, &voice).unwrap_err(), VoiceError::Format);
    assert_eq!(Clip::from_samples(vec![1, 2, 3], &voice).unwrap_err(), VoiceError::Truncated);
    assert_eq!(Clip::from_samples(vec![1, 2, 3, 4], &voice).unwrap().rate, RATE);
}

#[test]
fn assets_must_match_their_size_and_digest() {
    let bytes = b"abc".to_vec();
    let digest = "ba7816bf8f01cfea414140de5dae2223b00361a396177a9cb410ff61f20015ad";
    assert_eq!(verify_asset(&bytes, 3, digest), Ok(()));
    assert_eq!(verify_asset(&bytes, 2, digest), Err(AssetError::Mismatch));
    assert_eq!(verify_asset(&bytes, 3, &digest.to_uppercase()), Err(AssetError::Mismatch));
    assert_eq!(verify_asset(&bytes, 3, &digest[..62]), Err(AssetError::Mismatch));
    assert!(digest_matches(&vec![0x0a, 0xff], "0aff"));
    assert!(!digest_matches(&vec![0x0a, 0xff], "0aff0"));
    assert!(!digest_matches(&vec![0x0a, 0xff], "0af"));
    assert_eq!(hex(&[0x0a, 0xff]), "0aff");
}

#[test]
fn spoken_lines_share_one_decoded_budget() {
    let line = VoiceMeta { frames: 1000, channels: 2, sample_rate: RATE, source_sample_rate: RATE };
    assert_eq!(admit_voice(0, &line), Ok((2000, 4000 + VOICE_SLACK)));
    assert_eq!(admit_voice(63_998_000, &line), Ok((64_000_000, 4000 + VOICE_SLACK)));
    assert_eq!(admit_voice(63_998_001, &line), Err(BudgetError::OverBudget));
    assert_eq!(admit_voice(usize::MAX - 1, &line), Err(BudgetError::Overflow));
}

fn catalog() -> Catalog {
    Catalog { music: vec![3, 82], sounds: vec![7], voices: vec![1] }
}

#[test]
fn a_new_score_rises_from_silence_and_repeating_it_changes_nothing() {
    let catalog = catalog();
    let mut mixer = Mixer::new();
    assert_eq!(mixer.envelope, Envelope::Steady);
    mixer.command(&catalog, AudioCommand::MusicVolume { volume: 50, duration_ticks: 0 }).unwrap();
    mixer.command(&catalog, AudioCommand::Music(82)).unwrap();
    assert_eq!((mixer.music, mixer.envelope), (Some(82), Envelope::Rise));
    mixer.command(&catalog, AudioCommand::MusicVolume { volume: 72, duration_ticks: 120 }).unwrap();
    mixer.command(&catalog, AudioCommand::Music(82)).unwrap();
    assert_eq!(mixer.envelope, Envelope::Toward { volume: 72, milliseconds: 2000 });
    assert_eq!(mixer.command(&catalog, AudioCommand::Music(4)), Err(MixerError::UncookedMusic(4)));
    assert_eq!(mixer.music, Some(82));
    mixer.command(&catalog, AudioCommand::Music(-1)).unwrap();
    assert_eq!((mixer.music, mixer.envelope), (None, Envelope::Rise));
}

#[test]
fn volume_commands_last_their_updates_in_whole_milliseconds() {
    assert_eq!(fade_milliseconds(0), Some(0));
    assert_eq!(fade_milliseconds(1), Some(17));
    assert_eq!(fade_milliseconds(2), Some(33));
    assert_eq!(fade_milliseconds(120), Some(2000));
    assert_eq!(fade_milliseconds(3932), Some(65533));
    assert_eq!(fade_milliseconds(3933), None);
    let catalog = catalog();
    let mut mixer = Mixer::new();
    assert_eq!(
        mixer.command(&catalog, AudioCommand::MusicVolume { volume: 128, duration_ticks: 1 }),
        Err(MixerError::InvalidMusicVolume)
    );
    assert_eq!(
        mixer.command(&catalog, AudioCommand::MusicVolume { volume: 0, duration_ticks: 4000 }),
        Err(MixerError::FadeTooLong)
    );
    mixer.command(&catalog, AudioCommand::MusicVolume { volume: 0, duration_ticks: 1 }).unwrap();
    assert_eq!(mixer.envelope, Envelope::Toward { volume: 0, milliseconds: 17 });
}

#[test]
fn a_cue_taking_a_slot_releases_its_holder() {
    let catalog = catalog();
    let mut mixer = Mixer::new();
    mixer.command(&catalog, AudioCommand::Sound { id: 7, pan: 64, volume: 100, slot: Some(2) }).unwrap();
    mixer.command(&catalog, AudioCommand::Sound { id: 7, pan: 10, volume: 20, slot: Some(2) }).unwrap();
    assert_eq!(
        mixer.sounds,
        vec![
            Cue { sound: 7, volume: 100, pan: 64, slot: None, released: true },
            Cue { sound: 7, volume: 20, pan: 10, slot: Some(2), released: false },
        ]
    );
    mixer.command(&catalog, AudioCommand::SoundVolume { slot: 2, volume: 5 }).unwrap();
    mixer.command(&catalog, AudioCommand::SoundPan { slot: 2, pan: 6 }).unwrap();
    assert_eq!(mixer.sounds[1], Cue { sound: 7, volume: 5, pan: 6, slot: Some(2), released: false });
    assert_eq!(mixer.sounds[0].volume, 100);
    mixer.command(&catalog, AudioCommand::StopSound(2)).unwrap();
    assert!(mixer.sounds.iter().all(|cue| cue.released && cue.slot.is_none()));
    assert_eq!(
        mixer.command(&catalog, AudioCommand::SoundVolume { slot: 2, volume: 128 }),
        Err(MixerError::InvalidSoundVolume)
    );
    assert_eq!(
        mixer.command(&catalog, AudioCommand::SoundPan { slot: 2, pan: 200 }),
        Err(MixerError::InvalidSoundPan)
    );
}

#[test]
fn an_uncooked_cue_still_releases_its_slot() {
    let catalog = catalog();
    let mut mixer = Mixer::new();
    mixer.command(&catalog, AudioCommand::Sound { id: 7, pan: 0, volume: 0, slot: Some(1) }).unwrap();
    assert_eq!(
        mixer.command(&catalog, AudioCommand::Sound { id: 8, pan: 0, volume: 0, slot: Some(1) }),
        Err(MixerError::UncookedSound(8))
    );
    assert_eq!(mixer.sounds.len(), 1);
    assert!(mixer.sounds[0].released);
}

#[test]
fn at_most_sixty_four_cues_play() {
    let catalog = catalog();
    let mut mixer = Mixer::new();
    for _ in 0..64 {
        mixer.command(&catalog, AudioCommand::Sound { id: 7, pan: 0, volume: 0, slot: None }).unwrap();
    }
    assert_eq!(
        mixer.command(&catalog, AudioCommand::Sound { id: 7, pan: 0, volume: 0, slot: None }),
        Err(MixerError::InvalidCue)
    );
    assert_eq!(mixer.sounds.len(), 64);
    let mut fresh = Mixer::new();
    assert_eq!(
        fresh.command(&catalog, AudioCommand::Sound { id: 7, pan: 128, volume: 0, slot: None }),
        Err(MixerError::InvalidCue)
    );
}

#[test]
fn spoken_lines_and_banks() {
    let catalog = catalog();
    let mut mixer = Mixer::new();
    mixer.command(&catalog, AudioCommand::Voice(1)).unwrap();
    assert_eq!(mixer.voice, Some(1));
    assert_eq!(mixer.command(&catalog, AudioCommand::Voice(2)), Err(MixerError::UncookedVoice(2)));
    assert_eq!(mixer.voice, Some(1));
    mixer.command(&catalog, AudioCommand::StopVoice).unwrap();
    assert_eq!(mixer.voice, None);
    assert_eq!(mixer.command(&catalog, AudioCommand::SelectBank(0)), Ok(()));
    assert_eq!(mixer.command(&catalog, AudioCommand::SelectBank(2)), Ok(()));
    assert_eq!(mixer.command(&catalog, AudioCommand::SelectBank(1)), Err(MixerError::UncookedBank(1)));
}

#[test]
fn score_blocks_preserve_the_fade_change_after_the_first_millisecond() {
    assert_eq!(envelope_advances(160), [true, false, false, false, false]);
    assert_eq!(envelope_advances(128), [false, true, false, false, false]);
    assert_eq!(envelope_advances(0), [true, false, false, false, false]);
    assert_eq!(envelope_advances(129), [true, false, false, false, false]);
}

#[test]
fn a_clip_lasts_its_frames_on_the_mixer_clock() {
    assert_eq!(voice_frames(2000, 2, RATE), 1000);
    assert_eq!(voice_frames(4, 1, 32000), 5);
    assert_eq!(voice_frames(0, 1, 32000), 0);
    assert_eq!(voice_step(0, RATE, 1000), Some((0, 1, 0)));
    assert_eq!(voice_step(999, RATE, 1000), Some((999, 999, 0)));
    assert_eq!(voice_step(1000, RATE, 1000), None);
    assert_eq!(voice_step(1, 32000, 4), Some((0, 1, 32000)));
}

#[test]
fn completions_are_acknowledged_once_played_out() {
    let mut completions = Completions::new();
    assert!(completions.push(100, 1));
    assert!(completions.push(50, 2));
    assert!(completions.push(300, 3));
    assert_eq!(completions.acknowledge(100), vec![1, 2]);
    assert_eq!(completions.entries, vec![(300, 3)]);
    assert_eq!(completions.acknowledge(299), Vec::<u64>::new());
    for ticket in 0..63 {
        assert!(completions.push(1000, ticket));
    }
    assert!(!completions.push(1000, 99));
    assert_eq!(completions.entries.len(), 64);
}

#[test]
fn a_voice_command_answers_the_oldest_waiting_line() {
    let mut requests = VoiceRequests::new();
    requests.begin(5, 10);
    requests.begin(6, 11);
    assert_eq!(requests.route(AudioCommand::Voice(6)), Routed::Script(AudioCommand::Voice(6)));
    assert_eq!(requests.route(AudioCommand::Voice(5)), Routed::Voice(5, 10));
    assert_eq!(requests.route(AudioCommand::StopVoice), Routed::Script(AudioCommand::StopVoice));
    assert_eq!(requests.route(AudioCommand::Voice(6)), Routed::Voice(6, 11));
    assert!(requests.entries.is_empty());
}

#[test]
fn recordings_are_bounded_and_ordered() {
    assert_eq!(MAX_RECORDING_FRAMES, u64::from(RATE) * 300);
    assert_eq!(check_recording(0, &vec![]), Err(RecordingError::TooLong));
    assert_eq!(check_recording(MAX_RECORDING_FRAMES + 1, &vec![]), Err(RecordingError::TooLong));
    assert_eq!(check_recording(MAX_RECORDING_FRAMES, &vec![0, 0, 5]), Ok(()));
    assert_eq!(check_recording(10, &vec![3, 2]), Err(RecordingError::OutOfOrder));
    assert_eq!(check_recording(10, &vec![3, 10]), Err(RecordingError::OutsideRecording));
    let at = vec![0, 0, 4, 9];
    assert_eq!(due_requests(&at, 0, 0), 2);
    assert_eq!(due_requests(&at, 2, 3), 2);
    assert_eq!(due_requests(&at, 2, 4), 3);
    assert_eq!(due_requests(&at, 4, 9), 4);
}

#[test]
fn finishing_releases_every_cue_but_keeps_their_slots() {
    let catalog = catalog();
    let mut mixer = Mixer::new();
    mixer.command(&catalog, AudioCommand::Sound { id: 7, pan: 1, volume: 2, slot: Some(3) }).unwrap();
    mixer.command(&catalog, AudioCommand::Sound { id: 7, pan: 1, volume: 2, slot: None }).unwrap();
    mixer.release_all();
    assert_eq!(
        mixer.sounds,
        vec![
            Cue { sound: 7, volume: 2, pan: 1, slot: Some(3), released: true },
            Cue { sound: 7, volume: 2, pan: 1, slot: None, released: true },
        ]
    );
}

#[test]
fn script_volume_commands_match_observed_short_and_long_music_fades() {
    let catalog = catalog();
    let mut mixer = Mixer::new();
    mixer.command(&catalog, AudioCommand::MusicVolume { volume: 50, duration_ticks: 0 }).unwrap();
    assert_eq!(mixer.envelope, Envelope::Toward { volume: 50, milliseconds: 0 });
    mixer.command(&catalog, AudioCommand::MusicVolume { volume: 0, duration_ticks: 1 }).unwrap();
    assert_eq!(mixer.envelope, Envelope::Toward { volume: 0, milliseconds: 17 });
    mixer.command(&catalog, AudioCommand::MusicVolume { volume: 72, duration_ticks: 120 }).unwrap();
    assert_eq!(mixer.envelope, Envelope::Toward { volume: 72, milliseconds: 2000 });
}

#[test]
fn a_spoken_line_completes_when_its_last_frame_has_played() {
    let catalog = catalog();
    let mut mixer = Mixer::new();
    let mut completions = Completions::new();
    assert_eq!(speak(&mut mixer, &catalog, &mut completions, 1, 2000, 2, RATE, 500, 9), Ok(()));
    assert_eq!(mixer.voice, Some(1));
    assert_eq!(completions.entries, vec![(1500, 9)]);
    assert_eq!(
        speak(&mut mixer, &catalog, &mut completions, 2, 2000, 2, RATE, 500, 10),
        Err(SpeakError::Mixer(MixerError::UncookedVoice(2)))
    );
    assert_eq!(completions.entries.len(), 1);
    for ticket in 0..63 {
        assert!(completions.push(0, ticket));
    }
    assert_eq!(
        speak(&mut mixer, &catalog, &mut completions, 1, 4, 1, 32000, 0, 11),
        Err(SpeakError::CompletionsFull)
    );
    assert_eq!(mixer.voice, Some(1));
    mixer.command(&catalog, AudioCommand::Music(3)).unwrap();
    mixer.command(&catalog, AudioCommand::Sound { id: 7, pan: 0, volume: 0, slot: None }).unwrap();
    mixer.stop();
    assert_eq!((mixer.music, mixer.sounds.len(), mixer.voice), (None, 0, None));
}
