use std::time::{Duration, Instant};

use bitrate_optimizer::schedule::{collect_results, resolve_workers, worker_count, JobFailure};
use bitrate_optimizer::search::{search, RunConfig, SearchResult, Termination};
use rayon::iter::{IntoParallelRefIterator, ParallelIterator};

fn raw_for(norm: u64) -> u64 {
    4_100_000 + norm * 13 / 100
}

/// A stub job whose quality is proportional to bitrate and meets the
/// target exactly at `best`, after a deliberate delay.
fn run_job(cfg: &RunConfig, best: u64, delay_micros: u64) -> Result<SearchResult, String> {
    search(cfg, |b: u32| -> Result<u64, String> {
        let start = Instant::now();
        while start.elapsed() < Duration::from_micros(delay_micros) {
            std::hint::spin_loop();
        }
        let norm = 4_000_000u64 * b as u64 / best;
        Ok(raw_for(norm - norm % 100))
    })
}

#[test]
fn parallel_jobs_keep_their_own_results() {
    let cfg = RunConfig::new(4_000_000);
    // Targets reachable in one proportional step from 96 kb/s.
    let bests: Vec<u64> = vec![64_000, 48_000, 96_000, 32_000, 24_000, 128_000, 192_000, 16_000];
    let mut seed: u64 = 0x2545_f491_4f6c_dd1d;
    let mut jobs: Vec<(u64, u64)> = Vec::new();
    for b in bests.iter() {
        seed = seed.wrapping_mul(6364136223846793005).wrapping_add(1442695040888963407);
        jobs.push((*b, (seed >> 33) % 3_000));
    }
    let pool = rayon::ThreadPoolBuilder::new().num_threads(4).build().unwrap();
    let outcomes: Vec<Result<SearchResult, String>> =
        pool.install(|| jobs.par_iter().map(|(best, delay)| run_job(&cfg, *best, *delay)).collect());
    let results = collect_results(outcomes).unwrap();
    assert_eq!(results.len(), bests.len());
    for (r, best) in results.iter().zip(bests.iter()) {
        assert_eq!(r.reason, Termination::Converged);
        assert_eq!(r.bitrate as u64, *best);
    }
}

#[test]
fn first_failed_segment_fails_the_run() {
    let cfg = RunConfig::new(4_000_000);
    let ok = run_job(&cfg, 64_000, 0).unwrap();
    let outcomes: Vec<Result<SearchResult, String>> = vec![
        Ok(ok.clone()),
        Err("probe of segment 1".to_string()),
        Ok(ok.clone()),
        Err("probe of segment 3".to_string()),
    ];
    let f = collect_results(outcomes).unwrap_err();
    assert_eq!(f, JobFailure { segment: 1, error: "probe of segment 1".to_string() });
}

#[test]
fn all_results_in_segment_order() {
    let cfg = RunConfig::new(4_000_000);
    let a = run_job(&cfg, 64_000, 0).unwrap();
    let b = run_job(&cfg, 48_000, 0).unwrap();
    let outcomes: Vec<Result<SearchResult, ()>> = vec![Ok(a.clone()), Ok(b.clone())];
    let v = collect_results(outcomes).unwrap();
    assert_eq!(v, vec![a, b]);
    let none: Vec<Result<SearchResult, ()>> = Vec::new();
    assert_eq!(collect_results(none).unwrap().len(), 0);
}

#[test]
fn worker_count_defaults_and_bounds() {
    assert_eq!(worker_count(None, 8, 10), 4);
    assert_eq!(worker_count(None, 8, 3), 3);
    assert_eq!(worker_count(None, 1, 5), 1);
    assert_eq!(worker_count(Some(16), 2, 3), 3);
    assert_eq!(worker_count(Some(2), 64, 10), 2);
    assert_eq!(worker_count(Some(0), 64, 10), 1);
    assert_eq!(worker_count(Some(2), 64, 0), 0);
}

#[test]
fn resolved_workers_follow_the_request() {
    assert_eq!(resolve_workers(Some(3), 10), 3);
    assert_eq!(resolve_workers(Some(30), 10), 10);
    let w = resolve_workers(None, 1_000);
    assert!(w >= 1 && w <= 1_000);
    assert_eq!(resolve_workers(None, 1), 1);
}
