use recordplayer::analysis::{analysis_window, BeatGridAnalyzer, BpmDetector};
use recordplayer::display::{clip_range, column_frames, event_offset};
use recordplayer::scanner::{default_search_paths, Platform, PluginScanner};
use std::path::PathBuf;

#[test]
fn linux_searches_system_and_home() {
    let p = default_search_paths(Platform::Linux, Some(PathBuf::from("/home/dj")));
    assert_eq!(p, vec![PathBuf::from("/usr/lib/vst3"), PathBuf::from("/home/dj/.vst3")]);
    let no_home = default_search_paths(Platform::Linux, None);
    assert_eq!(no_home, vec![PathBuf::from("/usr/lib/vst3")]);
}

#[test]
fn macos_and_windows_paths() {
    let p = default_search_paths(Platform::MacOs, Some(PathBuf::from("/Users/dj/")));
    assert_eq!(
        p,
        vec![
            PathBuf::from("/Library/Audio/Plug-Ins/VST3"),
            PathBuf::from("/Users/dj/Library/Audio/Plug-Ins/VST3")
        ]
    );
    let w = default_search_paths(Platform::Windows, Some(PathBuf::from("C:\\Users\\dj")));
    assert_eq!(w, vec![PathBuf::from("C:\\Program Files\\Common Files\\VST3")]);
    assert!(default_search_paths(Platform::Other, None).is_empty());
}

#[test]
fn scanner_finds_no_plugins_yet() {
    let s = PluginScanner::new(Platform::Linux);
    assert_eq!(s.search_paths()[0], PathBuf::from("/usr/lib/vst3"));
    assert!(s.scan().is_empty());
    let custom = PluginScanner::with_search_paths(vec![PathBuf::from("/x")]);
    assert_eq!(custom.search_paths().len(), 1);
}

#[test]
fn analysers_keep_their_rate() {
    assert_eq!(BeatGridAnalyzer::new(44100).sample_rate(), 44100);
    assert_eq!(BpmDetector::new(48000).sample_rate(), 48000);
}

#[test]
fn analysis_window_choice() {
    let sr = 1000u32;
    // Short track: whole track.
    assert_eq!(analysis_window(100_000, sr), (0, 100_000));
    // Very short track: the whole track, never past its end.
    assert_eq!(analysis_window(10, sr), (0, 10));
    // Long track: 150 s after a 30 s lead-in.
    assert_eq!(analysis_window(1_000_000, sr), (30_000, 180_000));
    // Exactly window plus lead-in: the whole window.
    assert_eq!(analysis_window(180_000, sr), (30_000, 180_000));
}

#[test]
fn drawn_range_is_clipped() {
    assert_eq!(clip_range(100, 10, 50, 20), (10, 50, 20));
    assert_eq!(clip_range(100, 500, 600, 0), (100, 100, 1));
    assert_eq!(clip_range(100, 60, 40, 9000), (60, 60, 8000));
    assert_eq!(clip_range(100, 0, 1000, 5), (0, 100, 5));
}

#[test]
fn columns_split_the_range() {
    // 10 frames over 4 columns: 0..2, 2..5, 5..7, 7..10.
    let cols: Vec<(usize, usize, usize)> = (0..4).map(|p| column_frames(0, 10, 4, p, 1024)).collect();
    assert_eq!(cols, vec![(0, 2, 1), (2, 5, 1), (5, 7, 1), (7, 10, 1)]);
    // Fewer frames than columns: each column widened to one frame.
    assert_eq!(column_frames(5, 7, 4, 0, 1024), (5, 6, 1));
    assert_eq!(column_frames(5, 7, 4, 3, 1024), (6, 7, 1));
    // Long column: subsampled.
    assert_eq!(column_frames(0, 10_000, 1, 0, 1024), (0, 10_000, 9));
}

#[test]
fn scheduled_events_fall_into_blocks() {
    assert_eq!(event_offset(1000, 1000, 256), Some(0));
    assert_eq!(event_offset(900, 1000, 256), Some(0));
    assert_eq!(event_offset(1100, 1000, 256), Some(100));
    assert_eq!(event_offset(1256, 1000, 256), None);
}
