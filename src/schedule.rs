//! Sizing the worker pool and gathering the searches' results.
use vstd::prelude::*;
use crate::search::SearchResult;

verus! {

/// The worker count for `segments` jobs: the request, or half the
/// available parallelism where there is none; at least one, and no more
/// than there are jobs.
pub open spec fn workers_for(requested: Option<usize>, available: usize, segments: usize) -> int {
    let wanted: int = match requested {
        Some(n) => n as int,
        None => (available / 2) as int,
    };
    let positive: int = if wanted < 1 {
        1
    } else {
        wanted
    };
    if positive < segments {
        positive
    } else {
        segments as int
    }
}

/// Chooses the worker count for `segments` jobs from the request and the
/// available parallelism.
pub fn worker_count(requested: Option<usize>, available: usize, segments: usize) -> (r: usize)
    ensures
        r == workers_for(requested, available, segments),
{
    let wanted = match requested {
        Some(n) => n,
        None => available / 2,
    };
    let positive = if wanted < 1 {
        1
    } else {
        wanted
    };
    if positive < segments {
        positive
    } else {
        segments
    }
}

/// Relies on num_cpus::get: the number of CPUs this process may use. It
/// depends on the machine, so nothing is stated of it.
#[verifier::external_body]
fn available_parallelism() -> (r: usize) {
    num_cpus::get()
}

/// Resolves the worker count of a run once, before any job starts: the
/// request, or half of this machine's parallelism.
pub fn resolve_workers(requested: Option<usize>, segments: usize) -> (r: usize)
    ensures
        exists|available: usize| r == workers_for(requested, available, segments),
        requested is Some ==> r == workers_for(requested, 0, segments),
        r <= segments,
        segments >= 1 ==> r >= 1,
{
    let available = available_parallelism();
    worker_count(requested, available, segments)
}

/// A job that failed: the segment's index and the error it returned.
#[derive(Debug, Clone, PartialEq, Eq)]
pub struct JobFailure<E> {
    pub segment: usize,
    pub error: E,
}

/// Gathers the outcomes of the jobs, one per segment in index order. All
/// succeeded: their results, each at its own segment's index. Otherwise the
/// failure of the lowest segment that failed; no partial list is returned.
pub fn collect_results<E>(outcomes: Vec<Result<SearchResult, E>>) -> (r: Result<
    Vec<SearchResult>,
    JobFailure<E>,
>)
    ensures
        r is Ok <==> forall|k: int| 0 <= k < outcomes@.len() ==> #[trigger] outcomes@[k] is Ok,
        r matches Ok(v) ==> v@.len() == outcomes@.len() && forall|k: int|
            0 <= k < outcomes@.len() ==> outcomes@[k] == Ok::<SearchResult, E>(#[trigger] v@[k]),
        r matches Err(f) ==> {
            &&& f.segment < outcomes@.len()
            &&& outcomes@[f.segment as int] == Err::<SearchResult, E>(f.error)
            &&& forall|k: int| 0 <= k < f.segment ==> #[trigger] outcomes@[k] is Ok
        },
{
    let ghost orig = outcomes@;
    let n = outcomes.len();
    let mut rest = outcomes;
    let mut reversed: Vec<SearchResult> = Vec::new();
    let mut failure: Option<JobFailure<E>> = None;
    while rest.len() > 0
        invariant
            orig.len() == n,
            rest@.len() <= n,
            rest@ == orig.take(rest@.len() as int),
            failure is None ==> {
                &&& forall|k: int| rest@.len() <= k < n ==> #[trigger] orig[k] is Ok
                &&& reversed@.len() == n - rest@.len()
                &&& forall|j: int|
                    0 <= j < reversed@.len() ==> orig[n - 1 - j] == Ok::<SearchResult, E>(
                        #[trigger] reversed@[j],
                    )
            },
            failure matches Some(f) ==> {
                &&& rest@.len() <= f.segment < n
                &&& orig[f.segment as int] == Err::<SearchResult, E>(f.error)
                &&& forall|k: int| rest@.len() <= k < f.segment ==> #[trigger] orig[k] is Ok
            },
        decreases rest@.len(),
    {
        let k = rest.len() - 1;
        let item = rest.pop().unwrap();
        assert(orig[k as int] == item);
        match item {
            Ok(res) => {
                if failure.is_none() {
                    reversed.push(res);
                }
            },
            Err(e) => {
                failure = Some(JobFailure { segment: k, error: e });
            },
        }
    }
    if let Some(f) = failure {
        return Err(f);
    }
    let mut results: Vec<SearchResult> = Vec::new();
    while reversed.len() > 0
        invariant
            orig.len() == n,
            forall|k: int| 0 <= k < n ==> #[trigger] orig[k] is Ok,
            results@.len() + reversed@.len() == n,
            forall|j: int|
                0 <= j < reversed@.len() ==> orig[n - 1 - j] == Ok::<SearchResult, E>(
                    #[trigger] reversed@[j],
                ),
            forall|k: int|
                0 <= k < results@.len() ==> orig[k] == Ok::<SearchResult, E>(#[trigger] results@[k]),
        decreases reversed@.len(),
    {
        let res = reversed.pop().unwrap();
        results.push(res);
    }
    Ok(results)
}

} // verus!
