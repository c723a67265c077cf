use wake_bench::config::{Config, Strategy};
use wake_bench::durations::DurationGen;

#[test]
fn degenerate_bounds_always_give_the_minimum() {
    // With minimum 10, maximum 20 (exclusive) and granularity 10, every
    // sample in [10, 20) quantizes to exactly 10.
    let gen = DurationGen::new(10, 20, 10);
    for _ in 0..200 {
        assert_eq!(gen.next_ms(), 10);
    }
}

#[test]
fn bounds_below_the_granularity_collapse_to_zero() {
    // Every sample in [0, 10) rounds down to 0; a generator that handed
    // back the raw bound instead would return a nonzero value.
    let gen = DurationGen::new(0, 10, 10);
    for _ in 0..200 {
        assert_eq!(gen.next_ms(), 0);
    }
}

#[test]
fn generated_delays_are_quantized_and_bounded() {
    let gen = DurationGen::new(10, 60_000, 10);
    for _ in 0..500 {
        let ms = gen.next_ms();
        assert_eq!(ms % 10, 0);
        assert!(ms >= 10);
        assert!(ms < 60_000);
    }
}

#[test]
fn config_accepts_sound_bounds_and_rejects_bad_ones() {
    let cfg = Config::new(5, 10, 60_000, 10, Strategy::EventAware).unwrap();
    assert_eq!(cfg.count, 5);
    assert_eq!(cfg.min_ms, 10);
    assert_eq!(cfg.max_ms, 60_000);
    assert_eq!(cfg.granularity_ms, 10);
    assert_eq!(cfg.strategy, Strategy::EventAware);
    assert!(Config::new(5, 20, 20, 10, Strategy::Rescan).is_none());
    assert!(Config::new(5, 30, 20, 10, Strategy::Rescan).is_none());
    assert!(Config::new(5, 10, 20, 0, Strategy::Rescan).is_none());
}
