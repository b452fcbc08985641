//! The verdict and report assembler: the engine's single entry point.
//!
//! `evaluate` takes the scored attributes of one message and the
//! configuration, and produces the verdict, the ordered report entries
//! (rejected class first, each class ranked by score descending with its
//! extremes marked) and the statistics block. It is pure: the surrounding
//! application performs all channel and network actions.

use vstd::prelude::*;

use crate::classify::{
    all_configured, class_of, classify, is_rejected, lemma_class_contains, lemma_class_elems,
    lemma_class_len, lemma_class_nonempty, result_of, sum_of, AttributeResult, Classified,
    ScoreEntry,
};
use crate::config::Config;
use crate::error::EvalError;
use crate::rank::{
    lemma_mark_extremes_pointwise, lemma_sort_desc, lemma_sort_desc_contains, mark_class,
    mark_extremes, rank, sort_desc,
};
use crate::stats::{
    compute_stats, lemma_minmax_props, lemma_sum_between, lists_max, lists_min, max_score,
    min_score, Stats,
};

verus! {

/// The assembled report for one message: the verdict, the ordered entries,
/// and the statistics block over all attributes.
pub struct Report {
    pub verdict: bool,
    pub entries: Vec<AttributeResult>,
    pub stats: Stats,
}

/// True when any attribute failed its check.
pub open spec fn spec_verdict(scores: Seq<ScoreEntry>, cfg: Config) -> bool {
    exists|i: int| 0 <= i < scores.len() && is_rejected(#[trigger] scores[i], cfg)
}

/// One class of the report: its entries sorted by score descending, with the
/// extremes rule applied using the class's markers.
pub open spec fn ranked_class(scores: Seq<ScoreEntry>, cfg: Config, rejected: bool) -> Seq<
    AttributeResult,
> {
    if rejected {
        mark_extremes(
            sort_desc(class_of(scores, cfg, true)),
            cfg.markers.failed_highest,
            cfg.markers.failed_lowest,
        )
    } else {
        mark_extremes(
            sort_desc(class_of(scores, cfg, false)),
            cfg.markers.passed_highest,
            cfg.markers.passed_lowest,
        )
    }
}

/// The report's entry order: the whole rejected class, then the whole passed
/// class.
pub open spec fn report_entries(scores: Seq<ScoreEntry>, cfg: Config) -> Seq<AttributeResult> {
    ranked_class(scores, cfg, true) + ranked_class(scores, cfg, false)
}

/// The mean score: the score sum divided (integer division) by the attribute
/// count.
pub open spec fn spec_mean(scores: Seq<ScoreEntry>) -> int
    recommends
        scores.len() > 0,
{
    sum_of(scores) / scores.len() as int
}

/// What a successful evaluation returns: the report is a function of the
/// scores and the configuration alone.
pub open spec fn conforms(scores: Seq<ScoreEntry>, cfg: Config, rep: Report) -> bool {
    &&& rep.verdict == spec_verdict(scores, cfg)
    &&& rep.entries@ == report_entries(scores, cfg)
    &&& rep.stats == (Stats {
        min: min_score(scores) as u32,
        max: max_score(scores) as u32,
        mean: spec_mean(scores) as u32,
    })
}

/// The heads and tails of the two sorted classes give the global extremes.
pub proof fn lemma_ranked_minmax(scores: Seq<ScoreEntry>, cfg: Config)
    requires
        all_configured(scores, cfg),
        scores.len() > 0,
    ensures
        sort_desc(class_of(scores, cfg, true)).len() + sort_desc(
            class_of(scores, cfg, false),
        ).len() == scores.len(),
        lists_max(sort_desc(class_of(scores, cfg, true)), sort_desc(class_of(scores, cfg, false)))
            == max_score(scores),
        lists_min(sort_desc(class_of(scores, cfg, true)), sort_desc(class_of(scores, cfg, false)))
            == min_score(scores),
{
    let rc = class_of(scores, cfg, true);
    let pc = class_of(scores, cfg, false);
    let rt = sort_desc(rc);
    let pt = sort_desc(pc);
    lemma_class_len(scores, cfg);
    lemma_sort_desc(rc);
    lemma_sort_desc(pc);
    lemma_minmax_props(scores);
    lemma_class_elems(scores, cfg, true);
    lemma_class_elems(scores, cfg, false);

    // Every entry of either sorted class carries some input's score.
    assert forall|k: int| 0 <= k < rt.len() implies min_score(scores) <= #[trigger] rt[k].score
        <= max_score(scores) by {
        assert(rt.contains(rt[k]));
        lemma_sort_desc_contains(rc, rt[k]);
        let m = choose|m: int| 0 <= m < rc.len() && rc[m] == rt[k];
        assert(exists|i: int| 0 <= i < scores.len() && rc[m] == result_of(#[trigger] scores[i], cfg));
        let i = choose|i: int| 0 <= i < scores.len() && rc[m] == result_of(#[trigger] scores[i], cfg);
        assert(rt[k].score == scores[i].score);
    }
    assert forall|k: int| 0 <= k < pt.len() implies min_score(scores) <= #[trigger] pt[k].score
        <= max_score(scores) by {
        assert(pt.contains(pt[k]));
        lemma_sort_desc_contains(pc, pt[k]);
        let m = choose|m: int| 0 <= m < pc.len() && pc[m] == pt[k];
        assert(exists|i: int| 0 <= i < scores.len() && pc[m] == result_of(#[trigger] scores[i], cfg));
        let i = choose|i: int| 0 <= i < scores.len() && pc[m] == result_of(#[trigger] scores[i], cfg);
        assert(pt[k].score == scores[i].score);
    }

    // The greatest input score heads its class.
    let hi = choose|i: int| 0 <= i < scores.len() && #[trigger] scores[i].score == max_score(scores);
    lemma_class_contains(scores, cfg, hi);
    let e_hi = result_of(scores[hi], cfg);
    if is_rejected(scores[hi], cfg) {
        lemma_sort_desc_contains(rc, e_hi);
        let k = choose|k: int| 0 <= k < rt.len() && rt[k] == e_hi;
        assert(rt[0].score >= rt[k].score);
        assert(rt[0].score == max_score(scores));
    } else {
        lemma_sort_desc_contains(pc, e_hi);
        let k = choose|k: int| 0 <= k < pt.len() && pt[k] == e_hi;
        assert(pt[0].score >= pt[k].score);
        assert(pt[0].score == max_score(scores));
    }

    // The least input score ends its class.
    let lo = choose|i: int| 0 <= i < scores.len() && #[trigger] scores[i].score == min_score(scores);
    lemma_class_contains(scores, cfg, lo);
    let e_lo = result_of(scores[lo], cfg);
    if is_rejected(scores[lo], cfg) {
        lemma_sort_desc_contains(rc, e_lo);
        let k = choose|k: int| 0 <= k < rt.len() && rt[k] == e_lo;
        assert(rt[rt.len() - 1].score <= rt[k].score);
        assert(rt[rt.len() - 1].score == min_score(scores));
    } else {
        lemma_sort_desc_contains(pc, e_lo);
        let k = choose|k: int| 0 <= k < pt.len() && pt[k] == e_lo;
        assert(pt[pt.len() - 1].score <= pt[k].score);
        assert(pt[pt.len() - 1].score == min_score(scores));
    }
}

/// Evaluates one message's scored attributes against the configuration.
///
/// Succeeds exactly when at least one attribute was scored and every scored
/// attribute has a configured threshold; the result is then determined by
/// the inputs alone (`conforms`). Zero scored attributes are deliberately
/// refused with `EmptyScoreSet` rather than producing undefined statistics;
/// a missing threshold is refused with `ConfigMismatch`.
pub fn evaluate(scores: &Vec<ScoreEntry>, config: &Config) -> (r: Result<Report, EvalError>)
    ensures
        r is Ok <==> scores@.len() > 0 && all_configured(scores@, *config),
        scores@.len() == 0 ==> r == Err::<Report, EvalError>(EvalError::EmptyScoreSet),
        scores@.len() > 0 && !all_configured(scores@, *config) ==> r == Err::<Report, EvalError>(
            EvalError::ConfigMismatch,
        ),
        r matches Ok(rep) ==> {
            &&& conforms(scores@, *config, rep)
            &&& rep.entries@.len() == scores@.len()
            &&& rep.stats.min <= rep.stats.mean <= rep.stats.max
        },
{
    if scores.len() == 0 {
        return Err(EvalError::EmptyScoreSet);
    }
    let c = match classify(scores, config) {
        Ok(c) => c,
        Err(e) => {
            return Err(e);
        },
    };
    let Classified { rejected, passed, sum } = c;
    let verdict = rejected.len() > 0;
    proof {
        lemma_class_nonempty(scores@, *config, true);
    }
    let mut rejected = rank(rejected);
    let mut passed = rank(passed);
    proof {
        lemma_sort_desc(class_of(scores@, *config, true));
        lemma_sort_desc(class_of(scores@, *config, false));
        lemma_class_len(scores@, *config);
        lemma_ranked_minmax(scores@, *config);
        lemma_sum_between(scores@);
        lemma_minmax_props(scores@);
    }
    let stats = compute_stats(&rejected, &passed, sum, scores.len());
    mark_class(
        &mut rejected,
        &config.markers.failed_highest,
        &config.markers.failed_lowest,
    );
    mark_class(
        &mut passed,
        &config.markers.passed_highest,
        &config.markers.passed_lowest,
    );
    proof {
        lemma_mark_extremes_pointwise(
            sort_desc(class_of(scores@, *config, true)),
            config.markers.failed_highest,
            config.markers.failed_lowest,
        );
        lemma_mark_extremes_pointwise(
            sort_desc(class_of(scores@, *config, false)),
            config.markers.passed_highest,
            config.markers.passed_lowest,
        );
    }
    let mut entries = rejected;
    entries.append(&mut passed);
    Ok(Report { verdict, entries, stats })
}

} // verus!
