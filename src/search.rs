//! The per-segment search for the lowest bitrate that meets a quality target.
use vstd::prelude::*;
use crate::quality::{normalize, normalized};

verus! {

/// The default tolerance: 0.2 points of normalized score.
pub const DEFAULT_TOLERANCE: u64 = 200_000;

/// The default number of probes before a search gives up.
pub const DEFAULT_MAX_PROBES: usize = 8;

/// The default lowest bitrate, in bits per second.
pub const DEFAULT_MIN_BITRATE: u32 = 500;

/// The default highest bitrate, in bits per second.
pub const DEFAULT_MAX_BITRATE: u32 = 512_000;

/// The default bitrate of the first probe, in bits per second.
pub const DEFAULT_START_BITRATE: u32 = 96_000;

/// The settings that every search of a run shares. Scores count millionths
/// of a point, bitrates bits per second.
#[derive(Debug, Clone, Copy, PartialEq, Eq, Structural)]
pub struct RunConfig {
    /// The normalized score to reach.
    pub target: u64,
    /// How far from `target` a score may lie and still be accepted (exclusive).
    pub tolerance: u64,
    /// The most probes that one search makes.
    pub max_probes: usize,
    /// The lowest bitrate that a search proposes.
    pub min_bitrate: u32,
    /// The highest bitrate that a search proposes.
    pub max_bitrate: u32,
    /// The bitrate of the first probe.
    pub start_bitrate: u32,
}

impl RunConfig {
    /// At least one probe, and the first bitrate within the bounds.
    pub open spec fn wf(&self) -> bool {
        &&& self.max_probes >= 1
        &&& self.min_bitrate <= self.start_bitrate <= self.max_bitrate
    }

    /// The settings with the default tolerance, probe cap and bitrates.
    pub fn new(target: u64) -> (r: RunConfig)
        ensures
            r.wf(),
            r.target == target,
            r.tolerance == DEFAULT_TOLERANCE,
            r.max_probes == DEFAULT_MAX_PROBES,
            r.min_bitrate == DEFAULT_MIN_BITRATE,
            r.max_bitrate == DEFAULT_MAX_BITRATE,
            r.start_bitrate == DEFAULT_START_BITRATE,
    {
        RunConfig {
            target,
            tolerance: DEFAULT_TOLERANCE,
            max_probes: DEFAULT_MAX_PROBES,
            min_bitrate: DEFAULT_MIN_BITRATE,
            max_bitrate: DEFAULT_MAX_BITRATE,
            start_bitrate: DEFAULT_START_BITRATE,
        }
    }

    /// Settings of the caller's choice; `None` where they allow no probe or
    /// the first bitrate lies outside the bounds.
    pub fn with_limits(
        target: u64,
        tolerance: u64,
        max_probes: usize,
        min_bitrate: u32,
        max_bitrate: u32,
        start_bitrate: u32,
    ) -> (r: Option<RunConfig>)
        ensures
            r == (if max_probes >= 1 && min_bitrate <= start_bitrate <= max_bitrate {
                Some(
                    RunConfig {
                        target,
                        tolerance,
                        max_probes,
                        min_bitrate,
                        max_bitrate,
                        start_bitrate,
                    },
                )
            } else {
                None
            }),
    {
        if max_probes >= 1 && min_bitrate <= start_bitrate && start_bitrate <= max_bitrate {
            Some(RunConfig { target, tolerance, max_probes, min_bitrate, max_bitrate, start_bitrate })
        } else {
            None
        }
    }
}

/// Why a search stopped.
#[derive(Debug, Clone, Copy, PartialEq, Eq, Structural)]
pub enum Termination {
    /// A probe came within tolerance of the target.
    Converged,
    /// The probe cap was reached first; the result is a best effort.
    Exhausted,
}

/// One trial encode: its bitrate, the raw score and the normalized score.
#[derive(Debug, Clone, Copy, PartialEq, Eq, Structural)]
pub struct Probe {
    pub bitrate: u32,
    pub raw: u64,
    pub score: u128,
}

/// What a search settled on, with the probes that led there.
#[derive(Debug, Clone, PartialEq, Eq)]
pub struct SearchResult {
    /// The bitrate to encode the segment at.
    pub bitrate: u32,
    /// The normalized score of the last probe.
    pub score: u128,
    /// Every probe, in the order made.
    pub probes: Vec<Probe>,
    pub reason: Termination,
}

impl SearchResult {
    /// How many probes the search made.
    pub fn iterations(&self) -> (r: usize)
        ensures
            r == self.probes@.len(),
    {
        self.probes.len()
    }
}

/// `score` lies strictly within the tolerance of the target.
pub open spec fn accepts(cfg: RunConfig, score: int) -> bool {
    &&& score - cfg.target < cfg.tolerance
    &&& cfg.target - score < cfg.tolerance
}

/// The proportional step `bitrate * target / score`; a zero score, where the
/// step is undefined, proposes the highest bitrate.
pub open spec fn proposed_rate(cfg: RunConfig, bitrate: int, score: int) -> int {
    if score == 0 {
        cfg.max_bitrate as int
    } else {
        bitrate * cfg.target / score
    }
}

/// `b` pinned to the configured bounds.
pub open spec fn clamped_rate(cfg: RunConfig, b: int) -> int {
    if b > cfg.max_bitrate {
        cfg.max_bitrate as int
    } else if b < cfg.min_bitrate {
        cfg.min_bitrate as int
    } else {
        b
    }
}

/// The bitrate probed after a probe at `bitrate` scored `score`.
pub open spec fn next_rate(cfg: RunConfig, bitrate: int, score: int) -> int {
    clamped_rate(cfg, proposed_rate(cfg, bitrate, score))
}

/// The probes `h` are a run of the search: each scored by the quality
/// transform, the first at the start bitrate, each next one at the bitrate
/// that its predecessor's score proposes, and none but the last accepted.
pub open spec fn follows_rule(cfg: RunConfig, h: Seq<Probe>) -> bool {
    &&& forall|i: int| 0 <= i < h.len() ==> #[trigger] h[i].score == normalized(h[i].raw as int)
    &&& h.len() > 0 ==> h[0].bitrate == cfg.start_bitrate
    &&& forall|i: int|
        0 < i < h.len() ==> #[trigger] h[i].bitrate == next_rate(
            cfg,
            h[i - 1].bitrate as int,
            h[i - 1].score as int,
        )
    &&& forall|i: int| 0 <= i < h.len() - 1 ==> !accepts(cfg, #[trigger] h[i].score as int)
}

/// `res` is what the search returns after the probes it records: it stops
/// at the first accepted probe, or after `max_probes` probes with the
/// bitrate that the last one proposes.
pub open spec fn search_outcome(cfg: RunConfig, res: SearchResult) -> bool {
    let h = res.probes@;
    &&& 1 <= h.len() <= cfg.max_probes
    &&& follows_rule(cfg, h)
    &&& res.score == h.last().score
    &&& if accepts(cfg, h.last().score as int) {
        &&& res.reason == Termination::Converged
        &&& res.bitrate == h.last().bitrate
    } else {
        &&& res.reason == Termination::Exhausted
        &&& h.len() == cfg.max_probes
        &&& res.bitrate == next_rate(cfg, h.last().bitrate as int, h.last().score as int)
    }
}

/// The bitrate that the search probes after the probes `h`.
pub open spec fn rate_after(cfg: RunConfig, h: Seq<Probe>) -> int {
    if h.len() == 0 {
        cfg.start_bitrate as int
    } else {
        next_rate(cfg, h.last().bitrate as int, h.last().score as int)
    }
}

/// The search made the probes `h`, each answered by `probe` and none
/// accepted, and `probe` then returned `e` at the next bitrate, with the
/// probe cap not yet reached.
pub open spec fn failed_after<E, F: Fn(u32) -> Result<u64, E>>(
    cfg: RunConfig,
    probe: F,
    h: Seq<Probe>,
    e: E,
) -> bool {
    &&& h.len() < cfg.max_probes
    &&& follows_rule(cfg, h)
    &&& forall|i: int| 0 <= i < h.len() ==> !accepts(cfg, #[trigger] h[i].score as int)
    &&& forall|i: int|
        0 <= i < h.len() ==> probe.ensures((#[trigger] h[i].bitrate,), Ok::<u64, E>(h[i].raw))
    &&& probe.ensures((rate_after(cfg, h) as u32,), Err::<u64, E>(e))
}

/// The search ended with the error `e` of the probe at the bitrate it had
/// reached.
pub open spec fn search_failed<E, F: Fn(u32) -> Result<u64, E>>(
    cfg: RunConfig,
    probe: F,
    e: E,
) -> bool {
    exists|h: Seq<Probe>| failed_after(cfg, probe, h, e)
}

/// Whether `score` is within the tolerance of the target.
pub fn within_tolerance(cfg: &RunConfig, score: u128) -> (r: bool)
    ensures
        r == accepts(*cfg, score as int),
{
    let t = cfg.target as u128;
    let tol = cfg.tolerance as u128;
    if score >= t {
        score - t < tol
    } else {
        t - score < tol
    }
}

/// The bitrate to probe after a probe at `bitrate` scored `score`: the
/// proportional step, pinned to the bounds.
pub fn next_bitrate(cfg: &RunConfig, bitrate: u32, score: u128) -> (r: u32)
    requires
        cfg.min_bitrate <= cfg.max_bitrate,
    ensures
        r == next_rate(*cfg, bitrate as int, score as int),
        cfg.min_bitrate <= r <= cfg.max_bitrate,
{
    if score == 0 {
        return cfg.max_bitrate;
    }
    let b = bitrate as u128;
    let t = cfg.target as u128;
    assert(b * t <= 0xffff_ffffu128 * 0xffff_ffff_ffff_ffffu128) by (nonlinear_arith)
        requires
            b <= 0xffff_ffffu128,
            t <= 0xffff_ffff_ffff_ffffu128,
    ;
    let p = b * t / score;
    if p > cfg.max_bitrate as u128 {
        cfg.max_bitrate
    } else if p < cfg.min_bitrate as u128 {
        cfg.min_bitrate
    } else {
        p as u32
    }
}

/// Searches for the lowest bitrate that meets the target. `probe` encodes
/// the segment at a bitrate and returns the raw score; its first error ends
/// the search.
pub fn search<E, F: Fn(u32) -> Result<u64, E>>(cfg: &RunConfig, probe: F) -> (r: Result<
    SearchResult,
    E,
>)
    requires
        cfg.wf(),
        forall|b: u32| probe.requires((b,)),
    ensures
        r matches Ok(res) ==> {
            &&& search_outcome(*cfg, res)
            &&& forall|i: int|
                0 <= i < res.probes@.len() ==> probe.ensures(
                    (#[trigger] res.probes@[i].bitrate,),
                    Ok::<u64, E>(res.probes@[i].raw),
                )
        },
        r matches Err(e) ==> search_failed(*cfg, probe, e),
{
    let mut bitrate = cfg.start_bitrate;
    let mut probes: Vec<Probe> = Vec::new();
    while probes.len() < cfg.max_probes
        invariant
            cfg.wf(),
            forall|b: u32| probe.requires((b,)),
            probes@.len() <= cfg.max_probes,
            follows_rule(*cfg, probes@),
            forall|i: int| 0 <= i < probes@.len() ==> !accepts(*cfg, #[trigger] probes@[i].score as int),
            probes@.len() == 0 ==> bitrate == cfg.start_bitrate,
            probes@.len() > 0 ==> bitrate == next_rate(
                *cfg,
                probes@.last().bitrate as int,
                probes@.last().score as int,
            ),
            forall|i: int|
                0 <= i < probes@.len() ==> probe.ensures(
                    (#[trigger] probes@[i].bitrate,),
                    Ok::<u64, E>(probes@[i].raw),
                ),
        decreases cfg.max_probes - probes@.len(),
    {
        let answer = probe(bitrate);
        let ghost answered = answer;
        let raw = match answer {
            Ok(v) => v,
            Err(e) => {
                assert(probe.ensures((bitrate,), answered));
                assert(failed_after(*cfg, probe, probes@, e));
                return Err(e);
            },
        };
        let score = normalize(raw);
        probes.push(Probe { bitrate, raw, score });
        if within_tolerance(cfg, score) {
            return Ok(SearchResult { bitrate, score, probes, reason: Termination::Converged });
        }
        bitrate = next_bitrate(cfg, bitrate, score);
    }
    let score = probes[probes.len() - 1].score;
    Ok(SearchResult { bitrate, score, probes, reason: Termination::Exhausted })
}

/// A probe whose normalized score is exactly zero proposes the highest
/// bitrate, whatever bitrate it was made at.
pub proof fn lemma_zero_score_pins_max(cfg: RunConfig, bitrate: int)
    requires
        cfg.wf(),
    ensures
        next_rate(cfg, bitrate, 0) == cfg.max_bitrate,
{
}

/// Every proposal, however far out of range, is pinned to the bounds.
pub proof fn lemma_next_rate_within_bounds(cfg: RunConfig, bitrate: int, score: int)
    requires
        cfg.wf(),
    ensures
        cfg.min_bitrate <= next_rate(cfg, bitrate, score) <= cfg.max_bitrate,
        proposed_rate(cfg, bitrate, score) > cfg.max_bitrate ==> next_rate(cfg, bitrate, score)
            == cfg.max_bitrate,
        proposed_rate(cfg, bitrate, score) < cfg.min_bitrate ==> next_rate(cfg, bitrate, score)
            == cfg.min_bitrate,
{
}

/// Every bitrate that a search probes, and the bitrate it settles on, lies
/// within the configured bounds.
pub proof fn lemma_search_within_bounds(cfg: RunConfig, res: SearchResult)
    requires
        cfg.wf(),
        search_outcome(cfg, res),
    ensures
        forall|i: int|
            0 <= i < res.probes@.len() ==> cfg.min_bitrate <= #[trigger] res.probes@[i].bitrate
                <= cfg.max_bitrate,
        cfg.min_bitrate <= res.bitrate <= cfg.max_bitrate,
{
    let h = res.probes@;
    assert forall|i: int| 0 <= i < h.len() implies cfg.min_bitrate <= #[trigger] h[i].bitrate
        <= cfg.max_bitrate by {
        if i > 0 {
            lemma_next_rate_within_bounds(cfg, h[i - 1].bitrate as int, h[i - 1].score as int);
        }
    }
    lemma_next_rate_within_bounds(cfg, h.last().bitrate as int, h.last().score as int);
}

/// A search whose probes never come within tolerance ends exhausted after
/// exactly `max_probes` probes.
pub proof fn lemma_never_accepted_exhausts(cfg: RunConfig, res: SearchResult)
    requires
        search_outcome(cfg, res),
        forall|i: int|
            0 <= i < res.probes@.len() ==> !accepts(cfg, #[trigger] res.probes@[i].score as int),
    ensures
        res.reason == Termination::Exhausted,
        res.probes@.len() == cfg.max_probes,
{
    assert(!accepts(cfg, res.probes@[res.probes@.len() - 1].score as int));
}

/// A probe that scores exactly the target ends the search, converged, at
/// that probe's bitrate (for any positive tolerance).
pub proof fn lemma_target_score_converges(cfg: RunConfig, res: SearchResult, i: int)
    requires
        cfg.tolerance > 0,
        search_outcome(cfg, res),
        0 <= i < res.probes@.len(),
        res.probes@[i].score == cfg.target,
    ensures
        res.reason == Termination::Converged,
        i == res.probes@.len() - 1,
        res.bitrate == res.probes@[i].bitrate,
{
    assert(accepts(cfg, res.probes@[i].score as int));
}

/// Against an evaluator that scores every bitrate the same way each time,
/// with quality proportional to bitrate around the start (the first score
/// is `target * start / best` exactly) and the target met at `best` (within
/// the bounds), a search whose first probe misses converges on `best` with
/// its second probe.
pub proof fn lemma_proportional_stub_converges(
    cfg: RunConfig,
    res: SearchResult,
    score_at: spec_fn(u32) -> u128,
    best: u32,
)
    requires
        cfg.tolerance > 0,
        cfg.max_probes >= 2,
        search_outcome(cfg, res),
        forall|k: int|
            0 <= k < res.probes@.len() ==> #[trigger] res.probes@[k].score == score_at(
                res.probes@[k].bitrate,
            ),
        !accepts(cfg, score_at(cfg.start_bitrate) as int),
        score_at(cfg.start_bitrate) > 0,
        score_at(cfg.start_bitrate) * best == cfg.start_bitrate * cfg.target,
        cfg.min_bitrate <= best <= cfg.max_bitrate,
        score_at(best) == cfg.target,
    ensures
        res.reason == Termination::Converged,
        res.bitrate == best,
        res.probes@.len() == 2,
{
    let h = res.probes@;
    let s0 = score_at(cfg.start_bitrate) as int;
    vstd::arithmetic::div_mod::lemma_div_by_multiple(best as int, s0);
    assert(best as int * s0 == s0 * best) by (nonlinear_arith);
    assert(proposed_rate(cfg, cfg.start_bitrate as int, s0) == best);
    assert(h[0].score == score_at(h[0].bitrate));
    assert(h.len() >= 2);
    assert(h[1].bitrate == next_rate(cfg, h[0].bitrate as int, h[0].score as int));
    assert(h[1].score == score_at(h[1].bitrate));
    assert(accepts(cfg, h[1].score as int));
    assert(h.len() == 2);
}

proof fn lemma_same_answers_same_probes(
    cfg: RunConfig,
    h1: Seq<Probe>,
    h2: Seq<Probe>,
    answer: spec_fn(u32) -> u64,
    i: int,
)
    requires
        follows_rule(cfg, h1),
        follows_rule(cfg, h2),
        forall|k: int| 0 <= k < h1.len() ==> #[trigger] h1[k].raw == answer(h1[k].bitrate),
        forall|k: int| 0 <= k < h2.len() ==> #[trigger] h2[k].raw == answer(h2[k].bitrate),
        0 <= i < h1.len(),
        i < h2.len(),
    ensures
        h1[i] == h2[i],
    decreases i,
{
    if i > 0 {
        lemma_same_answers_same_probes(cfg, h1, h2, answer, i - 1);
        assert(h1[i].bitrate == next_rate(cfg, h1[i - 1].bitrate as int, h1[i - 1].score as int));
        assert(h2[i].bitrate == next_rate(cfg, h2[i - 1].bitrate as int, h2[i - 1].score as int));
    }
    assert(h1[i].bitrate == h2[i].bitrate);
    assert(h1[i].raw == answer(h1[i].bitrate));
    assert(h2[i].raw == answer(h2[i].bitrate));
    assert(h1[i].score == normalized(h1[i].raw as int));
    assert(h2[i].score == normalized(h2[i].raw as int));
}

/// A search's result depends on nothing but the settings and how its own
/// evaluator answers: two searches whose probes were all answered by the
/// same function of the bitrate made the same probes and settled alike.
pub proof fn lemma_result_depends_only_on_own_answers(
    cfg: RunConfig,
    r1: SearchResult,
    r2: SearchResult,
    answer: spec_fn(u32) -> u64,
)
    requires
        search_outcome(cfg, r1),
        search_outcome(cfg, r2),
        forall|k: int|
            0 <= k < r1.probes@.len() ==> #[trigger] r1.probes@[k].raw == answer(
                r1.probes@[k].bitrate,
            ),
        forall|k: int|
            0 <= k < r2.probes@.len() ==> #[trigger] r2.probes@[k].raw == answer(
                r2.probes@[k].bitrate,
            ),
    ensures
        r1.probes@ == r2.probes@,
        r1.bitrate == r2.bitrate,
        r1.score == r2.score,
        r1.reason == r2.reason,
{
    let h1 = r1.probes@;
    let h2 = r2.probes@;
    assert forall|i: int| 0 <= i < h1.len() && i < h2.len() implies h1[i] == h2[i] by {
        lemma_same_answers_same_probes(cfg, h1, h2, answer, i);
    }
    if h1.len() < h2.len() {
        assert(h1[h1.len() - 1] == h2[h1.len() - 1]);
    } else if h2.len() < h1.len() {
        assert(h1[h2.len() - 1] == h2[h2.len() - 1]);
    }
    assert(h1 =~= h2);
}

} // verus!
