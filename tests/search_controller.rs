use std::cell::Cell;

use bitrate_optimizer::search::{next_bitrate, search, within_tolerance, RunConfig, Termination};

/// The raw score whose normalized score is `norm` (both in millionths), for
/// normalized scores that are multiples of 20.
fn raw_for(norm: u64) -> u64 {
    4_100_000 + norm * 13 / 100
}

#[test]
fn converges_on_the_bitrate_that_meets_the_target() {
    let cfg = RunConfig::new(4_000_000);
    let best: u64 = 64_000;
    // Quality proportional to bitrate: target exactly at `best`.
    let stub = |b: u32| -> Result<u64, ()> {
        let norm = 4_000_000u64 * b as u64 / best;
        Ok(raw_for(norm - norm % 100))
    };
    let res = search(&cfg, stub).unwrap();
    assert_eq!(res.reason, Termination::Converged);
    assert_eq!(res.bitrate, 64_000);
    assert_eq!(res.score, 4_000_000);
    assert!(res.iterations() <= 8);
    assert_eq!(res.probes[0].bitrate, 96_000);
    assert_eq!(res.probes[0].score, 6_000_000);
    assert_eq!(res.probes.len(), 2);
}

#[test]
fn converges_on_first_probe_within_tolerance() {
    let cfg = RunConfig::new(4_000_000);
    // 4.1 normalized is within 0.2 of 4.0.
    let res = search(&cfg, |_b: u32| -> Result<u64, ()> { Ok(raw_for(4_100_000)) }).unwrap();
    assert_eq!(res.reason, Termination::Converged);
    assert_eq!(res.bitrate, 96_000);
    assert_eq!(res.iterations(), 1);
}

#[test]
fn tolerance_is_exclusive() {
    let cfg = RunConfig::new(4_000_000);
    assert!(within_tolerance(&cfg, 4_199_999));
    assert!(!within_tolerance(&cfg, 4_200_000));
    assert!(within_tolerance(&cfg, 3_800_001));
    assert!(!within_tolerance(&cfg, 3_800_000));
}

#[test]
fn exhausts_after_exactly_eight_probes() {
    let cfg = RunConfig::new(4_000_000);
    let calls = Cell::new(0usize);
    let stub = |_b: u32| -> Result<u64, ()> {
        calls.set(calls.get() + 1);
        Ok(raw_for(6_000_000))
    };
    let res = search(&cfg, stub).unwrap();
    assert_eq!(res.reason, Termination::Exhausted);
    assert_eq!(res.iterations(), 8);
    assert_eq!(calls.get(), 8);
    assert_eq!(res.score, 6_000_000);
    // The best effort is the bitrate that the last probe proposed.
    let last = res.probes[7];
    assert_eq!(res.bitrate, next_bitrate(&cfg, last.bitrate, last.score));
    assert_eq!(res.probes[1].bitrate, 64_000);
    assert_eq!(res.probes[2].bitrate, 42_666);
}

#[test]
fn iteration_cap_is_configurable() {
    let cfg = RunConfig::with_limits(4_000_000, 200_000, 3, 500, 512_000, 96_000).unwrap();
    let res = search(&cfg, |_b: u32| -> Result<u64, ()> { Ok(raw_for(6_000_000)) }).unwrap();
    assert_eq!(res.reason, Termination::Exhausted);
    assert_eq!(res.iterations(), 3);
}

#[test]
fn proposals_are_pinned_to_the_bounds() {
    let cfg = RunConfig::new(4_000_000);
    assert_eq!(next_bitrate(&cfg, 512_000, 1), 512_000);
    assert_eq!(next_bitrate(&cfg, 96_000, 1_000_000_000), 500);
    assert_eq!(next_bitrate(&cfg, 500, 4_000_001), 500);
    assert_eq!(next_bitrate(&cfg, 96_000, 4_000_000), 96_000);
    assert_eq!(next_bitrate(&cfg, 96_000, 6_000_000), 64_000);
    assert_eq!(next_bitrate(&cfg, 96_000, 3_000_000), 128_000);
}

#[test]
fn low_scores_push_to_the_highest_bitrate_without_stalling() {
    let cfg = RunConfig::new(4_000_000);
    // Below the floor every probe normalizes to 1.0: each step asks for four
    // times the bitrate, pinned at the top.
    let res = search(&cfg, |_b: u32| -> Result<u64, ()> { Ok(3_000_000) }).unwrap();
    assert_eq!(res.reason, Termination::Exhausted);
    assert_eq!(res.probes[1].bitrate, 384_000);
    assert_eq!(res.probes[2].bitrate, 512_000);
    assert_eq!(res.bitrate, 512_000);
    for p in res.probes.iter() {
        assert!(p.bitrate >= 500 && p.bitrate <= 512_000);
    }
}

#[test]
fn zero_score_pins_the_highest_bitrate() {
    let cfg = RunConfig::new(4_000_000);
    assert_eq!(next_bitrate(&cfg, 96_000, 0), 512_000);
    assert_eq!(next_bitrate(&cfg, 500, 0), 512_000);
    let res = search(&cfg, |_b: u32| -> Result<u64, ()> { Ok(4_100_000) }).unwrap();
    assert_eq!(res.probes[0].score, 0);
    assert_eq!(res.probes[1].bitrate, 512_000);
    assert_eq!(res.bitrate, 512_000);
    assert_eq!(res.reason, Termination::Exhausted);
}

#[test]
fn probe_error_ends_the_search() {
    let cfg = RunConfig::new(4_000_000);
    let calls = Cell::new(0usize);
    let stub = |b: u32| -> Result<u64, String> {
        calls.set(calls.get() + 1);
        if b == 96_000 {
            Ok(raw_for(6_000_000))
        } else {
            Err(format!("no encode at {}", b))
        }
    };
    let err = search(&cfg, stub).unwrap_err();
    assert_eq!(err, "no encode at 64000");
    assert_eq!(calls.get(), 2);
}

#[test]
fn run_config_limits_are_checked() {
    assert!(RunConfig::with_limits(4_000_000, 200_000, 0, 500, 512_000, 96_000).is_none());
    assert!(RunConfig::with_limits(4_000_000, 200_000, 8, 500, 512_000, 600_000).is_none());
    assert!(RunConfig::with_limits(4_000_000, 200_000, 8, 100_000, 512_000, 96_000).is_none());
    let cfg = RunConfig::with_limits(3_000_000, 100_000, 4, 1_000, 256_000, 2_000).unwrap();
    assert_eq!(cfg.max_probes, 4);
    assert_eq!(cfg.start_bitrate, 2_000);
    let d = RunConfig::new(4_000_000);
    assert_eq!(d.tolerance, 200_000);
    assert_eq!(d.max_probes, 8);
    assert_eq!((d.min_bitrate, d.max_bitrate, d.start_bitrate), (500, 512_000, 96_000));
}
