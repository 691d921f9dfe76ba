use recordplayer::core_types::{
    AudioFormat, CrossfaderAssign, CrossfaderCurve, DeckId, PlaybackState, Quantize,
    RecordPlayerError, SamplePosition, SyncMode, TrackId,
};
use recordplayer::core_types::str_equal;
use recordplayer::transport::GlobalTransport;

#[test]
fn sample_position_arithmetic() {
    let p = SamplePosition(1000);
    assert_eq!(p.add(500), SamplePosition(1500));
    assert_eq!(SamplePosition(100).sub(SamplePosition(250)), -150);
    assert_eq!(SamplePosition(250).sub(SamplePosition(100)), 150);
    // Positions past i64::MAX are taken as wrapped i64 values.
    assert_eq!(SamplePosition(u64::MAX).sub(SamplePosition(u64::MAX - 1)), 1);
    assert_eq!(SamplePosition::zero(), SamplePosition(0));
    assert!(SamplePosition(3) < SamplePosition(4));
}

#[test]
fn deck_ids_are_zero_to_three() {
    assert_eq!(DeckId::deck_a(), DeckId(0));
    assert_eq!(DeckId::deck_b(), DeckId(1));
    assert_eq!(DeckId::deck_c(), DeckId(2));
    assert_eq!(DeckId::deck_d(), DeckId(3));
    assert_eq!(TrackId(7), TrackId(7));
}

#[test]
fn audio_format_default_is_cd_quality() {
    let f = AudioFormat::default();
    assert_eq!(f.sample_rate, 44100);
    assert_eq!(f.channels, 2);
    assert_eq!(f.bits_per_sample, 16);
}

#[test]
fn quantize_grid_sizes() {
    assert_eq!(Quantize::Off.beats(), 0);
    assert_eq!(Quantize::Beat.beats(), 1);
    assert_eq!(Quantize::Bar.beats(), 4);
}

#[test]
fn enums_compare_by_variant() {
    assert_ne!(PlaybackState::Playing, PlaybackState::Paused);
    assert_eq!(SyncMode::Phase, SyncMode::Phase);
    assert_ne!(CrossfaderAssign::A, CrossfaderAssign::Thru);
    assert_ne!(CrossfaderCurve::Linear, CrossfaderCurve::Scratch);
    let e = RecordPlayerError::Database("locked".to_string());
    assert!(format!("{:?}", e).contains("locked"));
}

#[test]
fn transport_starts_stopped_at_zero_and_120_bpm() {
    let t = GlobalTransport::new(48000);
    assert_eq!(t.sample_position(), 0);
    assert_eq!(t.tempo_bpm_scaled(), 120_000);
    assert_eq!(t.sample_rate(), 48000);
    assert!(!t.is_playing());
}

#[test]
fn transport_controls() {
    let mut t = GlobalTransport::new(44100);
    t.play();
    assert!(t.is_playing());
    t.advance(512);
    t.advance(512);
    assert_eq!(t.sample_position(), 1024);
    t.stop();
    assert!(!t.is_playing());
    assert_eq!(t.sample_position(), 1024);
    t.set_sample_position(5);
    assert_eq!(t.sample_position(), 5);
    t.set_tempo_bpm_scaled(128_500);
    assert_eq!(t.tempo_bpm_scaled(), 128_500);
    t.set_sample_rate(96000);
    assert_eq!(t.sample_rate(), 96000);
}

#[test]
fn transport_advance_wraps() {
    let mut t = GlobalTransport::new(44100);
    t.set_sample_position(u64::MAX - 1);
    t.advance(3);
    assert_eq!(t.sample_position(), 1);
}

#[test]
fn ui_names_of_modes() {
    assert_eq!(SyncMode::from_name("tempo"), SyncMode::Tempo);
    assert_eq!(SyncMode::from_name("phase"), SyncMode::Phase);
    assert_eq!(SyncMode::from_name("Tempo"), SyncMode::Off);
    assert_eq!(SyncMode::from_name(""), SyncMode::Off);
    assert_eq!(Quantize::from_name("beat"), Quantize::Beat);
    assert_eq!(Quantize::from_name("bar"), Quantize::Bar);
    assert_eq!(Quantize::from_name("bars"), Quantize::Off);
}

#[test]
fn cue_jumps_wait_for_a_beat_or_a_bar() {
    assert_eq!(Quantize::Beat.cue_grid_beats(), 1);
    assert_eq!(Quantize::Bar.cue_grid_beats(), 4);
    assert_eq!(Quantize::Off.cue_grid_beats(), 4);
}

#[test]
fn text_equality() {
    assert!(str_equal("bar", "bar"));
    assert!(!str_equal("bar", "ba"));
    assert!(!str_equal("bär", "bar"));
    assert!(str_equal("", ""));
}

#[test]
fn playing_follows_the_last_play_or_stop() {
    let mut t = GlobalTransport::new(44100);
    t.advance(10);
    t.set_tempo_bpm_scaled(90_000);
    assert!(!t.is_playing());
    t.play();
    t.set_sample_position(3);
    t.set_sample_rate(48000);
    t.advance(7);
    assert!(t.is_playing());
    t.stop();
    t.advance(1);
    assert!(!t.is_playing());
    t.stop();
    t.play();
    t.play();
    assert!(t.is_playing());
    assert!(t.is_playing());
}
