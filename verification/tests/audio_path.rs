use soundboard::audio::{effect_chain, find_device, Effect};
use soundboard::frames::{count_frames, fill_stereo, split_stereo};
use soundboard::playback::{sound_request, ActiveState};

#[test]
fn split_two_channels() {
    let input = [1, 2, 3, 4, 5, 6];
    assert_eq!(split_stereo(&input, 2, 0), vec![(1, 2), (3, 4), (5, 6)]);
}

#[test]
fn split_keeps_last_even_and_odd_channel() {
    let input = [1, 2, 3, 4, 5, 6, 7, 8];
    assert_eq!(split_stereo(&input, 4, 0), vec![(3, 4), (7, 8)]);
    let input = [1, 2, 3, 4, 5, 6];
    assert_eq!(split_stereo(&input, 3, 0), vec![(3, 2), (6, 5)]);
}

#[test]
fn split_short_last_frame() {
    let input = [1, 2, 3, 4, 5];
    assert_eq!(split_stereo(&input, 2, 0), vec![(1, 2), (3, 4), (5, 0)]);
    let input = [1, 2, 3, 4, 5, 6, 7];
    assert_eq!(split_stereo(&input, 3, -1), vec![(3, 2), (6, 5), (7, -1)]);
}

#[test]
fn split_mono_has_silent_right() {
    let input = [0.25f32, -0.5];
    assert_eq!(split_stereo(&input, 1, 0.0), vec![(0.25, 0.0), (-0.5, 0.0)]);
}

#[test]
fn split_empty() {
    let input: [i16; 0] = [];
    assert_eq!(split_stereo(&input, 2, 0), vec![]);
}

#[test]
fn frame_counts() {
    assert_eq!(count_frames(0, 2), 0);
    assert_eq!(count_frames(6, 2), 3);
    assert_eq!(count_frames(7, 2), 4);
    assert_eq!(count_frames(7, 3), 3);
    assert_eq!(count_frames(5, 1), 5);
}

#[test]
fn fill_interleaves_pairs() {
    let mut out = [0i16; 6];
    fill_stereo(&mut out, 3, &[(1, 2), (3, 4)]);
    assert_eq!(out, [1, 2, 1, 3, 4, 3]);
    let mut out = [0i16; 5];
    fill_stereo(&mut out, 2, &[(1, 2), (3, 4), (5, 6)]);
    assert_eq!(out, [1, 2, 3, 4, 5]);
}

#[test]
fn fill_then_split_round_trip() {
    let pairs = vec![(1u16, 2u16), (3, 4), (5, 6)];
    for channels in 2..6 {
        let mut out = vec![0u16; pairs.len() * channels];
        fill_stereo(&mut out, channels, &pairs);
        assert_eq!(split_stereo(&out, channels, 9), pairs);
    }
    let mut out = vec![0u16; 3];
    fill_stereo(&mut out, 1, &pairs);
    assert_eq!(split_stereo(&out, 1, 9), vec![(1, 9), (3, 9), (5, 9)]);
}

#[test]
fn device_is_last_with_the_wanted_name() {
    let names = vec!["Mic".to_string(), "Headset".to_string(), "Mic".to_string()];
    assert_eq!(find_device(&names, &"Mic".to_string()), Some(2));
    assert_eq!(find_device(&names, &"Headset".to_string()), Some(1));
    assert_eq!(find_device(&names, &"Speakers".to_string()), None);
    assert_eq!(find_device(&vec![], &"Mic".to_string()), None);
}

#[test]
fn effects_run_bandpass_pitch_flanger() {
    assert_eq!(effect_chain([false, false, false]), vec![]);
    assert_eq!(
        effect_chain([true, true, true]),
        vec![Effect::Bandpass, Effect::PitchShift, Effect::Flanger]
    );
    assert_eq!(effect_chain([true, false, false]), vec![Effect::PitchShift]);
    assert_eq!(effect_chain([false, true, true]), vec![Effect::Bandpass, Effect::Flanger]);
}

#[test]
fn sound_path_and_switch() {
    assert_eq!(sound_request(true, &"boom.wav".to_string()), Some("Sounds\\boom.wav".to_string()));
    assert_eq!(sound_request(false, &"boom.wav".to_string()), None);
    let mut s = ActiveState::new();
    assert!(s.active);
    s.toggle();
    assert!(!s.active);
    s.toggle();
    assert!(s.active);
}
