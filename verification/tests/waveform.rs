use recordplayer::cache::{waveform_file_name, WaveformCache};
use recordplayer::generator::{isqrt, WaveformGenerator};
use recordplayer::mipmap::{MipmapLevel, WaveformMipmap, WaveformPoint};
use std::path::PathBuf;

fn pt(min: i16, max: i16, rms: u16) -> WaveformPoint {
    WaveformPoint { min, max, rms }
}

fn mipmap_with(reductions: &[u32], len: usize) -> WaveformMipmap {
    let mut m = WaveformMipmap::new(44100, 1_000_000, 2);
    for &r in reductions {
        let mut level = MipmapLevel::new(r);
        for i in 0..len {
            level.data.push(pt(-(i as i16), i as i16, i as u16));
        }
        m.levels.push(level);
    }
    m
}

#[test]
fn integer_square_root() {
    assert_eq!(isqrt(0), 0);
    assert_eq!(isqrt(1), 1);
    assert_eq!(isqrt(15), 3);
    assert_eq!(isqrt(16), 4);
    assert_eq!(isqrt(17), 4);
    assert_eq!(isqrt(u64::MAX), 4_294_967_295);
    assert_eq!(isqrt(65535u64 * 65535), 65535);
}

#[test]
fn downsample_combines_pairs() {
    let g = WaveformGenerator::new();
    let data = [pt(-10, 20, 300), pt(-30, 5, 400), pt(1, 2, 3)];
    let out = g.downsample_2x(&data);
    assert_eq!(out.len(), 1);
    assert_eq!(out[0].min, -30);
    assert_eq!(out[0].max, 20);
    // sqrt((300^2 + 400^2) / 2) = sqrt(125000) = 353.55...
    assert_eq!(out[0].rms, 353);
    let loud = g.downsample_2x(&[pt(0, 0, 65535), pt(0, 0, 65535)]);
    assert_eq!(loud[0].rms, 65535);
}

#[test]
fn mipmap_levels_halve_until_too_small() {
    let g = WaveformGenerator::default();
    let base: Vec<WaveformPoint> = (0..10).map(|i| pt(-i, i, i as u16)).collect();
    let m = g.generate_from_base(base, 48000, 640, 2);
    assert_eq!(m.sample_rate, 48000);
    assert_eq!(m.total_samples, 640);
    assert_eq!(m.channels, 2);
    let lens: Vec<usize> = m.levels.iter().map(|l| l.len()).collect();
    assert_eq!(lens, vec![10, 5, 2, 1]);
    let reductions: Vec<u32> = m.levels.iter().map(|l| l.reduction).collect();
    assert_eq!(reductions, vec![64, 128, 256, 512]);
}

#[test]
fn mipmap_stops_at_twelve_levels() {
    let g = WaveformGenerator::new();
    let base: Vec<WaveformPoint> = (0..10_000).map(|_| pt(0, 0, 0)).collect();
    let m = g.generate_from_base(base, 44100, 640_000, 300);
    assert_eq!(m.levels.len(), 12);
    assert_eq!(m.levels[11].reduction, 64 * 2048);
    assert_eq!(m.levels[11].len(), 10_000 / 2048);
    assert_eq!(m.channels, 44); // 300 truncated to u8
}

#[test]
fn zoom_picks_coarsest_level_still_fine_enough() {
    let m = mipmap_with(&[64, 128, 256], 4);
    assert_eq!(m.get_level_for_zoom(300).unwrap().reduction, 256);
    assert_eq!(m.get_level_for_zoom(200).unwrap().reduction, 128);
    assert_eq!(m.get_level_for_zoom(64).unwrap().reduction, 64);
    // Finer than every level: the finest level.
    assert_eq!(m.get_level_for_zoom(0).unwrap().reduction, 64);
    let empty = WaveformMipmap::new(44100, 0, 2);
    assert!(empty.get_level_for_zoom(100).is_none());
    assert!(MipmapLevel::new(2).is_empty());
}

#[test]
fn visible_range_reads_matching_level() {
    let m = mipmap_with(&[64, 128, 256], 10);
    // 1280 samples over 10 pixels: 128 per pixel, level 1.
    let r = m.get_visible_range(256, 1536, 10);
    assert_eq!(r.len(), 10 - 2);
    assert_eq!(r[0].max, 2);
    // Start beyond the level: nothing.
    assert!(m.get_visible_range(128 * 20, 128 * 30, 10).is_empty());
    // No pixels: a nonempty range counts as the coarsest zoom.
    let coarse = m.get_visible_range(0, 2560, 0);
    assert_eq!(coarse.len(), 10);
    assert!(WaveformMipmap::new(1, 1, 1).get_visible_range(0, 10, 1).is_empty());
}

#[test]
fn waveform_files_are_named_by_hex_hash() {
    assert_eq!(waveform_file_name(0xabcd), "000000000000abcd.waveform");
    assert_eq!(waveform_file_name(u64::MAX), "ffffffffffffffff.waveform");
    let cache = WaveformCache::new(PathBuf::from("/tmp/wf"), 1024);
    assert_eq!(cache.disk_path(1), PathBuf::from("/tmp/wf/0000000000000001.waveform"));
}

#[test]
fn cache_stores_and_clears() {
    let mut cache = WaveformCache::new(PathBuf::from("/tmp"), 1 << 20);
    let m = mipmap_with(&[64], 3);
    let size = cache.estimate_size(&m).unwrap();
    assert_eq!(size, std::mem::size_of::<WaveformMipmap>() + 3 * std::mem::size_of::<WaveformPoint>());
    cache.insert(7, m);
    assert_eq!(cache.memory_usage(), size);
    assert_eq!(cache.get(7).unwrap().levels[0].len(), 3);
    assert!(cache.get(8).is_none());
    cache.clear();
    assert!(cache.get(7).is_none());
    assert_eq!(cache.memory_usage(), 0);
}

#[test]
fn cache_evicts_to_stay_in_budget() {
    let one = mipmap_with(&[64], 100);
    let probe = WaveformCache::new(PathBuf::from("/tmp"), 0);
    let size = probe.estimate_size(&one).unwrap();
    // Room for one waveform only.
    let mut cache = WaveformCache::new(PathBuf::from("/tmp"), size + size / 2);
    cache.insert(1, mipmap_with(&[64], 100));
    cache.insert(2, mipmap_with(&[64], 100));
    assert!(cache.get(2).is_some());
    assert!(cache.get(1).is_none());
    assert_eq!(cache.memory_usage(), size);
}

#[test]
fn reinserting_a_track_releases_the_replaced_waveform() {
    let probe = WaveformCache::new(PathBuf::from("/tmp"), 0);
    let small = probe.estimate_size(&mipmap_with(&[64], 3)).unwrap();
    let large = probe.estimate_size(&mipmap_with(&[64], 10)).unwrap();
    let mut cache = WaveformCache::new(PathBuf::from("/tmp"), 1 << 20);
    cache.insert(5, mipmap_with(&[64], 3));
    cache.insert(6, mipmap_with(&[64], 3));
    cache.insert(5, mipmap_with(&[64], 10));
    assert_eq!(cache.memory_usage(), small + large);
    assert_eq!(cache.get(5).unwrap().levels[0].len(), 10);
    assert_eq!(cache.get(6).unwrap().levels[0].len(), 3);
}

#[test]
fn eviction_stops_once_the_new_waveform_fits() {
    let probe = WaveformCache::new(PathBuf::from("/tmp"), 0);
    let size = probe.estimate_size(&mipmap_with(&[64], 100)).unwrap();
    // Room for two waveforms: inserting a third evicts exactly one.
    let mut cache = WaveformCache::new(PathBuf::from("/tmp"), 2 * size + size / 2);
    cache.insert(1, mipmap_with(&[64], 100));
    cache.insert(2, mipmap_with(&[64], 100));
    cache.insert(3, mipmap_with(&[64], 100));
    assert!(cache.get(3).is_some());
    // The oldest goes first.
    assert!(cache.get(1).is_none());
    assert!(cache.get(2).is_some());
    assert_eq!(cache.memory_usage(), 2 * size);
}

#[test]
fn reinserted_track_becomes_the_newest() {
    let probe = WaveformCache::new(PathBuf::from("/tmp"), 0);
    let size = probe.estimate_size(&mipmap_with(&[64], 100)).unwrap();
    let mut cache = WaveformCache::new(PathBuf::from("/tmp"), 2 * size + size / 2);
    cache.insert(1, mipmap_with(&[64], 100));
    cache.insert(2, mipmap_with(&[64], 100));
    cache.insert(1, mipmap_with(&[64], 100));
    cache.insert(3, mipmap_with(&[64], 100));
    assert!(cache.get(1).is_some());
    assert!(cache.get(2).is_none());
    assert!(cache.get(3).is_some());
    assert_eq!(cache.memory_usage(), 2 * size);
}

#[test]
fn distinct_tracks_have_distinct_disk_paths() {
    let cache = WaveformCache::new(PathBuf::from("/c"), 0);
    assert_eq!(cache.disk_path(255), PathBuf::from("/c/00000000000000ff.waveform"));
    assert_ne!(cache.disk_path(255), cache.disk_path(256));
    assert_ne!(cache.disk_path(0), cache.disk_path(u64::MAX));
}

#[test]
fn every_level_keeps_min_at_or_below_max() {
    let g = WaveformGenerator::default();
    let base: Vec<WaveformPoint> = (0..37)
        .map(|i| pt(-((i * 7 % 11) as i16), (i * 5 % 13) as i16, (i * 3) as u16))
        .collect();
    let m = g.generate_from_base(base, 44100, 37 * 64, 1);
    assert_eq!(m.levels.len(), 6);
    for level in &m.levels {
        for p in &level.data {
            assert!(p.min <= p.max);
        }
    }
}
