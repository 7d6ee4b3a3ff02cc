//! The fan-in point of aggregation. The three fetches of every resolved
//! image run outside this function; what is decided here, and proved, is
//! the fail-fast policy: one failed fetch aborts the whole job with the
//! failing image id, and partial results are discarded. Callers hand the
//! per-image outcomes back in resolver order, so the aggregated sequence
//! is deterministic however the fetches were scheduled.

use vstd::prelude::*;
use crate::models::AggView;
use crate::models::AggregatedImage;
use crate::models::ExportError;
use crate::models::FetchCause;
use crate::models::FetchResult;
use crate::models::FetchView;
use crate::models::agg_views;
use crate::models::fetch_views;

verus! {

/// The aggregated images of a fully successful outcome sequence.
pub open spec fn outcome_images(results: Seq<FetchView>) -> Seq<AggView> {
    results.map_values(|r: FetchView| r.outcome->Ok_0)
}

/// Fail-fast aggregation over per-image outcomes: the first failed fetch,
/// in order, decides the error — the failing image id together with which
/// of its fetches failed; only a fully successful sequence aggregates.
pub open spec fn aggregate_spec(results: Seq<FetchView>) -> Result<
    Seq<AggView>,
    (u128, FetchCause),
>
    decreases results.len(),
{
    if results.len() == 0 {
        Ok(Seq::empty())
    } else if results[0].outcome is Err {
        Err((results[0].id, results[0].outcome->Err_0))
    } else {
        match aggregate_spec(results.skip(1)) {
            Ok(rest) => Ok(seq![results[0].outcome->Ok_0] + rest),
            Err(f) => Err(f),
        }
    }
}

proof fn lemma_aggregate_spec_err(results: Seq<FetchView>, k: int)
    requires
        0 <= k < results.len(),
        forall|i: int| 0 <= i < k ==> results[i].outcome is Ok,
        results[k].outcome is Err,
    ensures
        aggregate_spec(results) == Err::<Seq<AggView>, (u128, FetchCause)>(
            (results[k].id, results[k].outcome->Err_0),
        ),
    decreases results.len(),
{
    if k == 0 {
    } else {
        assert forall|i: int| 0 <= i < k - 1 implies results.skip(1)[i].outcome is Ok by {
            assert(results.skip(1)[i] == results[i + 1]);
        }
        assert(results.skip(1)[k - 1] == results[k]);
        lemma_aggregate_spec_err(results.skip(1), k - 1);
    }
}

proof fn lemma_aggregate_spec_ok(results: Seq<FetchView>)
    requires
        forall|i: int| 0 <= i < results.len() ==> results[i].outcome is Ok,
    ensures
        aggregate_spec(results) == Ok::<Seq<AggView>, (u128, FetchCause)>(
            outcome_images(results),
        ),
    decreases results.len(),
{
    if results.len() == 0 {
        assert(outcome_images(results) =~= Seq::<AggView>::empty());
    } else {
        assert forall|i: int|
            0 <= i < results.skip(1).len() implies results.skip(1)[i].outcome is Ok by {
            assert(results.skip(1)[i] == results[i + 1]);
        }
        lemma_aggregate_spec_ok(results.skip(1));
        assert(outcome_images(results) =~= seq![results[0].outcome->Ok_0] + outcome_images(
            results.skip(1),
        ));
    }
}

/// A successful aggregation means every single fetch succeeded, and the
/// aggregated sequence is exactly the fetched images in order.
pub proof fn lemma_aggregate_ok_outcomes(results: Seq<FetchView>)
    requires
        aggregate_spec(results) is Ok,
    ensures
        forall|i: int| 0 <= i < results.len() ==> results[i].outcome is Ok,
        aggregate_spec(results)->Ok_0 == outcome_images(results),
    decreases results.len(),
{
    if results.len() == 0 {
        assert(outcome_images(results) =~= Seq::<AggView>::empty());
    } else {
        lemma_aggregate_ok_outcomes(results.skip(1));
        assert forall|i: int| 0 <= i < results.len() implies results[i].outcome is Ok by {
            if i > 0 {
                assert(results.skip(1)[i - 1] == results[i]);
            }
        }
        assert(outcome_images(results) =~= seq![results[0].outcome->Ok_0] + outcome_images(
            results.skip(1),
        ));
    }
}

/// Aggregates per-image fetch outcomes, failing the whole job on the first
/// failed fetch. On success the aggregated images come back in the given
/// (resolver) order; on failure every partial result is discarded and the
/// failing image id is surfaced together with the cause — which of its
/// fetches failed.
pub fn aggregate(results: Vec<FetchResult>) -> (r: Result<Vec<AggregatedImage>, ExportError>)
    ensures
        match r {
            Ok(images) => aggregate_spec(fetch_views(results@)) == Ok::<
                Seq<AggView>,
                (u128, FetchCause),
            >(agg_views(images@)),
            Err(e) => {
                &&& aggregate_spec(fetch_views(results@)) is Err
                &&& e == ExportError::AggregationFailed(
                    aggregate_spec(fetch_views(results@))->Err_0.0,
                    aggregate_spec(fetch_views(results@))->Err_0.1,
                )
            },
        },
{
    let ghost rv = fetch_views(results@);
    let n = results.len();
    let mut k: usize = 0;
    while k < n
        invariant
            n == results@.len(),
            rv == fetch_views(results@),
            k <= n,
            forall|i: int| 0 <= i < k ==> rv[i].outcome is Ok,
        decreases n - k,
    {
        match &results[k].outcome {
            Err(cause) => {
                proof {
                    assert(rv[k as int].outcome is Err);
                    lemma_aggregate_spec_err(rv, k as int);
                }
                return Err(ExportError::AggregationFailed(results[k].id, *cause));
            },
            Ok(_) => {},
        }
        assert(rv[k as int].outcome is Ok);
        k = k + 1;
    }
    proof {
        lemma_aggregate_spec_ok(rv);
    }
    let ghost all = results@;
    let mut rem = results;
    let mut out: Vec<AggregatedImage> = Vec::new();
    loop
        invariant
            rv == fetch_views(all),
            rem@ == all.take(rem@.len() as int),
            rem@.len() <= all.len(),
            agg_views(out@) == outcome_images(fetch_views(all.skip(rem@.len() as int))),
            forall|i: int| 0 <= i < all.len() ==> fetch_views(all)[i].outcome is Ok,
        ensures
            agg_views(out@) == outcome_images(fetch_views(all)),
        decreases rem@.len(),
    {
        let ghost m = rem@.len() as int;
        match rem.pop() {
            None => {
                proof {
                    assert(all.skip(0) =~= all);
                }
                break;
            },
            Some(fr) => {
                proof {
                    assert(fr == all[m - 1]);
                    assert(rem@ =~= all.take(m - 1));
                }
                match fr.outcome {
                    Ok(img) => {
                        let ghost prev_out = out@;
                        out.insert(0, img);
                        proof {
                            let target = outcome_images(fetch_views(all.skip(m - 1)));
                            assert(agg_views(prev_out).len() == prev_out.len());
                            assert(agg_views(out@).len() == out@.len());
                            assert(out@.len() == prev_out.len() + 1);
                            assert(outcome_images(fetch_views(all.skip(m))).len() == all.skip(
                                m,
                            ).len());
                            assert(target.len() == all.skip(m - 1).len());
                            assert(agg_views(out@).len() == target.len());
                            assert forall|i: int|
                                0 <= i < out@.len() implies agg_views(out@)[i] == target[i] by {
                                assert(agg_views(out@)[i] == out@[i]@);
                                assert(fetch_views(all.skip(m - 1))[i] == all.skip(m - 1)[i]@);
                                assert(target[i] == fetch_views(
                                    all.skip(m - 1),
                                )[i].outcome->Ok_0);
                                if i == 0 {
                                    assert(all.skip(m - 1)[0] == all[m - 1]);
                                    assert(out@[0] == img);
                                    assert(all[m - 1]@.outcome == Ok::<AggView, FetchCause>(
                                        img@,
                                    ));
                                } else {
                                    assert(all.skip(m - 1)[i] == all.skip(m)[i - 1]);
                                    assert(out@[i] == prev_out[i - 1]);
                                    assert(agg_views(prev_out)[i - 1] == prev_out[i - 1]@);
                                    assert(outcome_images(fetch_views(all.skip(m)))[i - 1]
                                        == fetch_views(all.skip(m))[i - 1].outcome->Ok_0);
                                    assert(fetch_views(all.skip(m))[i - 1] == all.skip(m)[i
                                        - 1]@);
                                }
                            }
                            assert(agg_views(out@) =~= target);
                        }
                    },
                    Err(cause) => {
                        proof {
                            assert(fetch_views(all)[m - 1].outcome is Ok);
                            assert(false);
                        }
                        return Err(ExportError::AggregationFailed(fr.id, cause));
                    },
                }
            },
        }
    }
    Ok(out)
}

} // verus!
