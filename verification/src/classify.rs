//! The score classifier: partitions scored attributes into the rejected and
//! the passed class, annotating each with its class's plain marker.

use vstd::prelude::*;

use crate::config::Config;
use crate::error::EvalError;

verus! {

/// One scored attribute, as returned by the scoring service: its name and its
/// score in thousandths (900 means 0.900).
pub struct ScoreEntry {
    pub name: String,
    pub score: u32,
}

/// One attribute's evaluation: its score, whether it exceeded its threshold,
/// and the presentation marker for its report line.
pub struct AttributeResult {
    pub name: String,
    pub score: u32,
    pub rejected: bool,
    pub marker: String,
}

/// Every scored attribute has a configured threshold.
pub open spec fn all_configured(scores: Seq<ScoreEntry>, cfg: Config) -> bool {
    forall|i: int| 0 <= i < scores.len() ==> cfg.thr_map().contains_key(scores[i].name@)
}

/// Whether an attribute fails its check: only a score strictly above the
/// threshold rejects, so threshold-equality still passes.
pub open spec fn is_rejected(e: ScoreEntry, cfg: Config) -> bool {
    e.score > cfg.thr_map()[e.name@]
}

/// The classifier's result for one attribute, before ranking: the plain
/// marker of its class.
pub open spec fn result_of(e: ScoreEntry, cfg: Config) -> AttributeResult {
    AttributeResult {
        name: e.name,
        score: e.score,
        rejected: is_rejected(e, cfg),
        marker: if is_rejected(e, cfg) {
            cfg.markers.failed
        } else {
            cfg.markers.passed
        },
    }
}

/// The subsequence of classifier results whose rejection flag is `rejected`,
/// in input order.
pub open spec fn class_of(scores: Seq<ScoreEntry>, cfg: Config, rejected: bool) -> Seq<
    AttributeResult,
>
    decreases scores.len(),
{
    if scores.len() == 0 {
        Seq::empty()
    } else {
        let rest = class_of(scores.drop_last(), cfg, rejected);
        if is_rejected(scores.last(), cfg) == rejected {
            rest.push(result_of(scores.last(), cfg))
        } else {
            rest
        }
    }
}

/// The sum of all scores, in thousandths.
pub open spec fn sum_of(scores: Seq<ScoreEntry>) -> int
    decreases scores.len(),
{
    if scores.len() == 0 {
        0
    } else {
        sum_of(scores.drop_last()) + scores.last().score
    }
}

pub proof fn lemma_sum_bound(scores: Seq<ScoreEntry>)
    ensures
        0 <= sum_of(scores) <= scores.len() * 0xffff_ffff,
    decreases scores.len(),
{
    if scores.len() > 0 {
        lemma_sum_bound(scores.drop_last());
    }
}

/// The two classes together hold exactly one entry per scored attribute.
pub proof fn lemma_class_len(scores: Seq<ScoreEntry>, cfg: Config)
    ensures
        class_of(scores, cfg, true).len() + class_of(scores, cfg, false).len() == scores.len(),
    decreases scores.len(),
{
    if scores.len() > 0 {
        lemma_class_len(scores.drop_last(), cfg);
    }
}

/// The rejected class is non-empty exactly when some score strictly exceeds
/// its threshold.
pub proof fn lemma_class_nonempty(scores: Seq<ScoreEntry>, cfg: Config, rejected: bool)
    ensures
        class_of(scores, cfg, rejected).len() > 0 <==> exists|i: int|
            0 <= i < scores.len() && is_rejected(scores[i], cfg) == rejected,
    decreases scores.len(),
{
    if scores.len() > 0 {
        lemma_class_nonempty(scores.drop_last(), cfg, rejected);
        if is_rejected(scores.last(), cfg) == rejected {
            assert(is_rejected(scores[scores.len() - 1], cfg) == rejected);
        } else if exists|i: int| 0 <= i < scores.len() && is_rejected(scores[i], cfg) == rejected {
            let i = choose|i: int| 0 <= i < scores.len() && is_rejected(scores[i], cfg) == rejected;
            assert(scores.drop_last()[i] == scores[i]);
        }
    }
}

/// Every entry of a class carries its class's rejection flag and plain
/// marker, its flag agrees with the strict threshold comparison, and it stems
/// from one of the scored attributes.
pub proof fn lemma_class_elems(scores: Seq<ScoreEntry>, cfg: Config, rejected: bool)
    requires
        all_configured(scores, cfg),
    ensures
        forall|k: int|
            0 <= k < class_of(scores, cfg, rejected).len() ==> {
                let e = #[trigger] class_of(scores, cfg, rejected)[k];
                &&& e.rejected == rejected
                &&& e.marker == if rejected {
                    cfg.markers.failed
                } else {
                    cfg.markers.passed
                }
                &&& cfg.thr_map().contains_key(e.name@)
                &&& e.rejected == (e.score > cfg.thr_map()[e.name@])
                &&& exists|i: int|
                    0 <= i < scores.len() && e == result_of(#[trigger] scores[i], cfg)
            },
    decreases scores.len(),
{
    if scores.len() > 0 {
        assert(all_configured(scores.drop_last(), cfg)) by {
            assert(forall|i: int|
                0 <= i < scores.drop_last().len() ==> #[trigger] scores.drop_last()[i]
                    == scores[i]);
        }
        lemma_class_elems(scores.drop_last(), cfg, rejected);
        let c = class_of(scores, cfg, rejected);
        let rest = class_of(scores.drop_last(), cfg, rejected);
        assert forall|k: int| 0 <= k < c.len() implies {
            let e = #[trigger] c[k];
            &&& e.rejected == rejected
            &&& e.marker == if rejected {
                cfg.markers.failed
            } else {
                cfg.markers.passed
            }
            &&& cfg.thr_map().contains_key(e.name@)
            &&& e.rejected == (e.score > cfg.thr_map()[e.name@])
            &&& exists|i: int| 0 <= i < scores.len() && e == result_of(#[trigger] scores[i], cfg)
        } by {
            if k < rest.len() {
                let i = choose|i: int|
                    0 <= i < scores.drop_last().len() && rest[k] == result_of(
                        #[trigger] scores.drop_last()[i],
                        cfg,
                    );
                assert(scores.drop_last()[i] == scores[i]);
                assert(c[k] == result_of(scores[i], cfg));
            } else {
                let last = scores.len() - 1;
                assert(c[k] == result_of(scores[last], cfg));
            }
        }
    }
}

/// Every scored attribute lands in the class its threshold comparison picks.
pub proof fn lemma_class_contains(scores: Seq<ScoreEntry>, cfg: Config, i: int)
    requires
        0 <= i < scores.len(),
    ensures
        class_of(scores, cfg, is_rejected(scores[i], cfg)).contains(result_of(scores[i], cfg)),
    decreases scores.len(),
{
    let rej = is_rejected(scores[i], cfg);
    let c = class_of(scores, cfg, rej);
    let rest = class_of(scores.drop_last(), cfg, rej);
    if i == scores.len() - 1 {
        assert(scores[i] == scores.last());
        assert(c[c.len() - 1] == result_of(scores[i], cfg));
    } else {
        lemma_class_contains(scores.drop_last(), cfg, i);
        assert(scores.drop_last()[i] == scores[i]);
        let k = choose|k: int|
            0 <= k < rest.len() && rest[k] == result_of(scores.drop_last()[i], cfg);
        assert(c[k] == result_of(scores[i], cfg));
    }
}

/// The classifier: partitions the scored attributes by the strict threshold
/// comparison, annotates each with its class's plain marker, and accumulates
/// the score sum. Fails exactly when some attribute has no configured
/// threshold.
pub struct Classified {
    pub rejected: Vec<AttributeResult>,
    pub passed: Vec<AttributeResult>,
    pub sum: u128,
}

pub fn classify(scores: &Vec<ScoreEntry>, cfg: &Config) -> (r: Result<Classified, EvalError>)
    ensures
        r is Ok <==> all_configured(scores@, *cfg),
        r matches Ok(c) ==> {
            &&& c.rejected@ == class_of(scores@, *cfg, true)
            &&& c.passed@ == class_of(scores@, *cfg, false)
            &&& c.sum == sum_of(scores@)
        },
        r matches Err(e) ==> e == EvalError::ConfigMismatch,
{
    let mut rejected: Vec<AttributeResult> = Vec::new();
    let mut passed: Vec<AttributeResult> = Vec::new();
    let mut sum: u128 = 0;
    let n = scores.len();
    let mut i: usize = 0;
    while i < n
        invariant
            n == scores@.len(),
            i <= n,
            all_configured(scores@.take(i as int), *cfg),
            rejected@ == class_of(scores@.take(i as int), *cfg, true),
            passed@ == class_of(scores@.take(i as int), *cfg, false),
            sum == sum_of(scores@.take(i as int)),
        decreases n - i,
    {
        let entry = &scores[i];
        let t = match cfg.lookup_threshold(&entry.name) {
            Some(t) => t,
            None => {
                return Err(EvalError::ConfigMismatch);
            },
        };
        let rej = entry.score > t;
        let res = AttributeResult {
            name: entry.name.clone(),
            score: entry.score,
            rejected: rej,
            marker: if rej {
                cfg.markers.failed.clone()
            } else {
                cfg.markers.passed.clone()
            },
        };
        proof {
            assert(scores@.take(i + 1).drop_last() =~= scores@.take(i as int));
            assert(scores@.take(i + 1).last() == scores@[i as int]);
            assert(res == result_of(scores@[i as int], *cfg));
            lemma_sum_bound(scores@.take(i as int));
        }
        if rej {
            rejected.push(res);
        } else {
            passed.push(res);
        }
        sum = sum + entry.score as u128;
        i = i + 1;
        proof {
            assert(forall|j: int|
                0 <= j < i ==> #[trigger] scores@.take(i as int)[j] == scores@[j]);
        }
    }
    proof {
        assert(scores@.take(n as int) =~= scores@);
    }
    Ok(Classified { rejected, passed, sum })
}

} // verus!
