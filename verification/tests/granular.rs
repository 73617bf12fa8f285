use granular::Grain;
use granular::Granular;
use granular::Q_ONE;
use granular::MAX_GRAINS;
use granular::RING_SECONDS;

#[test]
fn tukey_window_symmetry_and_edges() {
    let mut data = vec![Q_ONE; 10];
    granular::apply_tukey(&mut data, 32768);

    let n = data.len();
    assert!(data[0].abs() < 1);
    assert!(data[n - 1].abs() < 1);

    for i in 0..n {
        let j = n - 1 - i;
        assert!((data[i] - data[j]).abs() < 1, "window not symmetric at {i}");
        assert!(data[i] <= Q_ONE);
    }
}

#[test]
fn grain_done_checks_bounds() {
    let g = Grain { buf: vec![0, Q_ONE], pos: 2, ch: 0 };
    assert!(g.done());
    let g = Grain { buf: vec![0, Q_ONE], pos: 1, ch: 0 };
    assert!(!g.done());
}

#[test]
fn tukey_alpha_zero_is_rectangular() {
    let mut data = vec![Q_ONE; 16];
    let orig = data.clone();
    granular::apply_tukey(&mut data, 0);
    assert_eq!(data, orig);
}

#[test]
fn plugin_initializes_ring_size() {
    let mut plugin = Granular::default();
    assert!(plugin.initialize(44100, 64));

    plugin.params.density.snap();
    plugin.params.min_ms.snap();
    plugin.params.max_ms.snap();
    plugin.params.mix.snap();

    let expected = (RING_SECONDS as usize) * 44100;
    assert_eq!(plugin.ring_len(), expected);
}

#[test]
fn process_handles_multiple_channels() {
    let mut plugin = Granular::default();
    assert!(plugin.initialize(48000, 64));

    // four channels of silence
    let frames = 32;
    let mut channels = vec![vec![0i64; frames]; 4];
    assert!(plugin.process_checked(&mut channels));

    assert_eq!(channels.len(), 4);
    assert_eq!(channels[0].len(), frames);
}

#[test]
fn grains_mix_to_correct_channels() {
    let mut plugin = Granular::default();
    assert!(plugin.initialize(48000, 64));

    plugin.params.density.snap();
    plugin.params.min_ms.snap();
    plugin.params.max_ms.snap();
    plugin.params.mix.snap();

    assert!(plugin.push_grain(Grain { buf: vec![Q_ONE], pos: 0, ch: 0 }));
    assert!(plugin.push_grain(Grain { buf: vec![Q_ONE / 2], pos: 0, ch: 1 }));
    while plugin.grain_count() < MAX_GRAINS {
        assert!(plugin.push_grain(Grain { buf: Vec::new(), pos: 0, ch: 0 }));
    }

    let frames = 1;
    let mut channels = vec![vec![0i64; frames]; 2];
    assert!(plugin.process_checked(&mut channels));

    assert!((channels[0][0] - Q_ONE).abs() < 1);
    assert!((channels[1][0] - Q_ONE / 2).abs() < 1);
}

#[test]
fn smoothing_ramps_linearly_to_target() {
    let mut p = granular::SmoothedParam::new(0, 65536, 0, 4096);
    p.set_target(10000);
    assert_eq!(p.next_value(), 4096);
    assert_eq!(p.next_value(), 8192);
    assert_eq!(p.next_value(), 10000);
    assert_eq!(p.next_value(), 10000);
    p.set_target(2000);
    assert_eq!(p.next_value(), 5904);
    p.set_target(-5);
    assert_eq!(p.current_value(), 5904);
    p.snap();
    assert_eq!(p.current_value(), 0);
}

#[test]
fn downmix_sums_channels_into_history() {
    let mut plugin = Granular::default();
    assert!(plugin.initialize(1, 16));
    let mut channels = vec![vec![10i64], vec![20i64]];
    assert!(plugin.process_checked(&mut channels));
    assert_eq!(plugin.ring_at(0), 30);
}

#[test]
fn history_wraps_and_read_window_follows() {
    let mut plugin = Granular::default();
    assert!(plugin.initialize(1, 16));
    assert_eq!(plugin.ring_len(), 5);
    // Seven frames into a five-slot ring: the last five survive, the
    // oldest two are overwritten.
    let mut channels = vec![vec![1i64, 2, 3, 4, 5, 6, 7]];
    assert!(plugin.process_checked(&mut channels));
    assert_eq!(
        (0..5).map(|i| plugin.ring_at(i)).collect::<Vec<i64>>(),
        vec![6, 7, 3, 4, 5]
    );
    assert_eq!(plugin.read_window(3, 4), vec![4, 5, 6, 7]);
}

#[test]
fn silent_blocks_overwrite_history_with_zeros() {
    let mut plugin = Granular::default();
    assert!(plugin.initialize(1, 16));
    let mut loud = vec![vec![100i64, 200, 300]];
    assert!(plugin.process_checked(&mut loud));
    // Longer than ring_seconds * sample_rate worth of silence.
    let mut silent = vec![vec![0i64; 6]];
    assert!(plugin.process_checked(&mut silent));
    for i in 0..plugin.ring_len() {
        assert_eq!(plugin.ring_at(i), 0);
    }
}

#[test]
fn grain_count_never_exceeds_cap() {
    let mut plugin = Granular::default();
    assert!(plugin.initialize(1000, 16));
    plugin.params.density.set_target(65536);
    plugin.params.density.snap();
    let mut channels = vec![vec![0i64; 4]];
    for _ in 0..100 {
        assert!(plugin.process_checked(&mut channels));
        assert!(plugin.grain_count() <= MAX_GRAINS);
    }
}

#[test]
fn full_density_spawns_one_grain_per_block() {
    let mut plugin = Granular::default();
    assert!(plugin.initialize(44100, 64));
    plugin.params.density.set_target(65536);
    plugin.params.density.snap();
    assert_eq!(plugin.grain_count(), 0);
    let mut channels = vec![vec![0i64; 8]];
    assert!(plugin.process_checked(&mut channels));
    assert_eq!(plugin.grain_count(), 1);
}

#[test]
fn reset_then_process_is_silent() {
    let mut plugin = Granular::default();
    assert!(plugin.initialize(1000, 16));
    plugin.params.density.set_target(65536);
    plugin.params.density.snap();
    let mut loud = vec![vec![Q_ONE; 32], vec![Q_ONE; 32]];
    assert!(plugin.process_checked(&mut loud));
    plugin.reset();
    assert_eq!(plugin.grain_count(), 0);
    let mut silent = vec![vec![0i64; 32], vec![0i64; 32]];
    assert!(plugin.process_checked(&mut silent));
    for ch in &silent {
        for &v in ch {
            assert_eq!(v, 0);
        }
    }
}

#[test]
fn half_mix_scales_wet_signal() {
    let mut plugin = Granular::default();
    assert!(plugin.initialize(48000, 64));
    plugin.params.mix.set_target(32768);
    plugin.params.mix.snap();
    assert!(plugin.push_grain(Grain { buf: vec![Q_ONE], pos: 0, ch: 0 }));
    while plugin.grain_count() < MAX_GRAINS {
        assert!(plugin.push_grain(Grain { buf: Vec::new(), pos: 0, ch: 0 }));
    }
    let mut channels = vec![vec![0i64]];
    assert!(plugin.process_checked(&mut channels));
    assert_eq!(channels[0][0], 32768);
}

#[test]
fn tukey_weight_plateau_and_edges() {
    // Full taper over ten samples: two zero endpoints, a flat middle.
    assert_eq!(granular::tukey_weight_at(10, 65536, 0), 0);
    assert_eq!(granular::tukey_weight_at(10, 65536, 9), 0);
    assert_eq!(granular::tukey_weight_at(10, 65536, 4), 65536);
    assert_eq!(granular::tukey_weight_at(10, 65536, 5), 65536);
    let rising = granular::tukey_weight_at(10, 65536, 2);
    assert!(0 < rising && rising < 65536);
}

#[test]
fn initialize_rejects_bad_sample_rate() {
    let mut plugin = Granular::default();
    assert!(!plugin.initialize(0, 64));
    assert_eq!(plugin.ring_len(), 0);
    assert!(!plugin.initialize(granular::MAX_SAMPLE_RATE + 1, 64));
    assert_eq!(plugin.ring_len(), 0);
}

#[test]
fn push_grain_rejects_overfull_and_malformed() {
    let mut plugin = Granular::default();
    assert!(plugin.initialize(1000, 16));
    // Cursor past the end of the buffer is refused.
    assert!(!plugin.push_grain(Grain { buf: vec![0], pos: 2, ch: 0 }));
    // A sample beyond the stored-sample bound is refused.
    assert!(!plugin.push_grain(Grain { buf: vec![i64::MAX], pos: 0, ch: 0 }));
    while plugin.grain_count() < MAX_GRAINS {
        assert!(plugin.push_grain(Grain { buf: vec![1], pos: 0, ch: 0 }));
    }
    // A full pool takes nothing more.
    assert!(!plugin.push_grain(Grain { buf: vec![1], pos: 0, ch: 0 }));
}

#[test]
fn process_checked_rejects_bad_blocks() {
    let mut plugin = Granular::default();
    // Not initialized yet.
    let mut channels = vec![vec![0i64; 4]];
    assert!(!plugin.process_checked(&mut channels));
    assert!(plugin.initialize(1000, 16));
    // Zero channels.
    let mut empty: Vec<Vec<i64>> = Vec::new();
    assert!(!plugin.process_checked(&mut empty));
    // Ragged channel lengths.
    let mut ragged = vec![vec![0i64; 4], vec![0i64; 3]];
    assert!(!plugin.process_checked(&mut ragged));
    // A sample out of range.
    let mut loud = vec![vec![granular::SAMPLE_LIMIT + 1]];
    assert!(!plugin.process_checked(&mut loud));
    // A well-formed block passes.
    let mut fine = vec![vec![0i64; 4]];
    assert!(plugin.process_checked(&mut fine));
}

#[test]
fn zero_density_never_spawns() {
    let mut plugin = Granular::default();
    assert!(plugin.initialize(1000, 16));
    plugin.params.density.set_target(0);
    plugin.params.density.snap();
    let mut channels = vec![vec![Q_ONE; 8]];
    for _ in 0..50 {
        assert!(plugin.process_checked(&mut channels));
        assert_eq!(plugin.grain_count(), 0);
        channels = vec![vec![Q_ONE; 8]];
    }
}
