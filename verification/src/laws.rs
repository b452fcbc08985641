//! The engine's laws: properties of the assembled report, proved once for
//! all inputs.

use vstd::prelude::*;

use crate::classify::{
    all_configured, class_of, is_rejected, lemma_class_contains, lemma_class_elems, result_of,
    ScoreEntry,
};
use crate::config::Config;
use crate::rank::{
    lemma_mark_extremes_pointwise, lemma_sort_desc, lemma_sort_desc_contains, mark_extremes,
    sort_desc, sorted_desc,
};
use crate::report::{conforms, ranked_class, report_entries, Report};

verus! {

/// The "highest" marker of a class.
pub open spec fn class_hi(cfg: Config, rejected: bool) -> String {
    if rejected {
        cfg.markers.failed_highest
    } else {
        cfg.markers.passed_highest
    }
}

/// The "lowest" marker of a class.
pub open spec fn class_lo(cfg: Config, rejected: bool) -> String {
    if rejected {
        cfg.markers.failed_lowest
    } else {
        cfg.markers.passed_lowest
    }
}

/// The plain marker of a class.
pub open spec fn class_plain(cfg: Config, rejected: bool) -> String {
    if rejected {
        cfg.markers.failed
    } else {
        cfg.markers.passed
    }
}

/// Every entry of a ranked class carries the class's rejection flag, agrees
/// with the strict threshold comparison, and the class is sorted by score
/// descending; the markers follow the extremes rule: in a class of two or
/// more, the first entry carries the "highest" marker, the last the "lowest",
/// and every other entry the plain marker; a singleton keeps the plain
/// marker.
pub proof fn lemma_ranked_class_elems(scores: Seq<ScoreEntry>, cfg: Config, rejected: bool)
    requires
        all_configured(scores, cfg),
    ensures
        ranked_class(scores, cfg, rejected).len() == class_of(scores, cfg, rejected).len(),
        sorted_desc(ranked_class(scores, cfg, rejected)),
        forall|k: int|
            0 <= k < ranked_class(scores, cfg, rejected).len() ==> {
                let e = #[trigger] ranked_class(scores, cfg, rejected)[k];
                &&& e.rejected == rejected
                &&& cfg.thr_map().contains_key(e.name@)
                &&& e.rejected == (e.score > cfg.thr_map()[e.name@])
            },
        ranked_class(scores, cfg, rejected).len() >= 2 ==> forall|k: int|
            0 <= k < ranked_class(scores, cfg, rejected).len()
                ==> #[trigger] ranked_class(scores, cfg, rejected)[k].marker == (if k == 0 {
                class_hi(cfg, rejected)
            } else if k == ranked_class(scores, cfg, rejected).len() - 1 {
                class_lo(cfg, rejected)
            } else {
                class_plain(cfg, rejected)
            }),
        ranked_class(scores, cfg, rejected).len() == 1 ==> ranked_class(scores, cfg, rejected)[0].marker
            == class_plain(cfg, rejected),
{
    let c = class_of(scores, cfg, rejected);
    let t = sort_desc(c);
    let m = ranked_class(scores, cfg, rejected);
    let hi = class_hi(cfg, rejected);
    let lo = class_lo(cfg, rejected);
    lemma_sort_desc(c);
    lemma_class_elems(scores, cfg, rejected);
    assert(m == mark_extremes(t, hi, lo));
    lemma_mark_extremes_pointwise(t, hi, lo);
    assert forall|k: int| 0 <= k < t.len() implies {
        let e = #[trigger] t[k];
        &&& e.rejected == rejected
        &&& cfg.thr_map().contains_key(e.name@)
        &&& e.rejected == (e.score > cfg.thr_map()[e.name@])
        &&& e.marker == class_plain(cfg, rejected)
    } by {
        assert(t.contains(t[k]));
        lemma_sort_desc_contains(c, t[k]);
        let j = choose|j: int| 0 <= j < c.len() && c[j] == t[k];
        assert(c[j] == t[k]);
    }
    assert forall|i: int, j: int| 0 <= i < j < m.len() implies m[i].score >= m[j].score by {
        assert(m[i].score == t[i].score && m[j].score == t[j].score);
    }
}

/// Ordering law: the whole rejected class comes before the whole passed
/// class, and inside one class an earlier entry never has a smaller score
/// than a later one.
pub proof fn law_report_ordering(scores: Seq<ScoreEntry>, cfg: Config)
    requires
        all_configured(scores, cfg),
    ensures
        forall|i: int, j: int|
            #![trigger report_entries(scores, cfg)[i], report_entries(scores, cfg)[j]]
            0 <= i < j < report_entries(scores, cfg).len() ==> {
                &&& (report_entries(scores, cfg)[j].rejected ==> report_entries(
                    scores,
                    cfg,
                )[i].rejected)
                &&& (report_entries(scores, cfg)[i].rejected == report_entries(
                    scores,
                    cfg,
                )[j].rejected ==> report_entries(scores, cfg)[i].score >= report_entries(
                    scores,
                    cfg,
                )[j].score)
            },
{
    let a = ranked_class(scores, cfg, true);
    let b = ranked_class(scores, cfg, false);
    let e = report_entries(scores, cfg);
    lemma_ranked_class_elems(scores, cfg, true);
    lemma_ranked_class_elems(scores, cfg, false);
    assert forall|i: int, j: int| 0 <= i < j < e.len() implies {
        &&& (e[j].rejected ==> e[i].rejected)
        &&& (e[i].rejected == e[j].rejected ==> e[i].score >= e[j].score)
    } by {
        if j < a.len() {
            assert(e[i] == a[i] && e[j] == a[j]);
        } else if i >= a.len() {
            assert(e[i] == b[i - a.len()] && e[j] == b[j - a.len()]);
        } else {
            assert(e[i] == a[i] && e[j] == b[j - a.len()]);
        }
    }
}

/// Extremes law: in a class of two or more entries, the "highest" marker
/// appears on its first entry (the greatest score) and nowhere else, and the
/// "lowest" marker on its last entry (the least score) and nowhere else; a
/// singleton keeps the plain marker and shows no extremal one.
pub proof fn law_class_extremes(scores: Seq<ScoreEntry>, cfg: Config, rejected: bool)
    requires
        all_configured(scores, cfg),
        cfg.wf(),
    ensures
        ranked_class(scores, cfg, rejected).len() >= 2 ==> forall|k: int|
            #![trigger ranked_class(scores, cfg, rejected)[k]]
            0 <= k < ranked_class(scores, cfg, rejected).len() ==> {
                &&& (ranked_class(scores, cfg, rejected)[k].marker@ == class_hi(cfg, rejected)@
                    <==> k == 0)
                &&& (ranked_class(scores, cfg, rejected)[k].marker@ == class_lo(cfg, rejected)@
                    <==> k == ranked_class(scores, cfg, rejected).len() - 1)
                &&& ranked_class(scores, cfg, rejected)[0].score >= ranked_class(
                    scores,
                    cfg,
                    rejected,
                )[k].score >= ranked_class(scores, cfg, rejected)[ranked_class(
                    scores,
                    cfg,
                    rejected,
                ).len() - 1].score
            },
        ranked_class(scores, cfg, rejected).len() == 1 ==> {
            let c = ranked_class(scores, cfg, rejected);
            &&& c[0].marker@ != class_hi(cfg, rejected)@
            &&& c[0].marker@ != class_lo(cfg, rejected)@
            &&& c[0].marker == class_plain(cfg, rejected)
        },
{
    lemma_ranked_class_elems(scores, cfg, rejected);
}

/// Membership: every scored attribute appears in the report with its score
/// and the rejection flag its threshold comparison picked.
pub proof fn law_report_membership(scores: Seq<ScoreEntry>, cfg: Config, i: int)
    requires
        all_configured(scores, cfg),
        0 <= i < scores.len(),
    ensures
        exists|k: int|
            0 <= k < report_entries(scores, cfg).len() && {
                let e = #[trigger] report_entries(scores, cfg)[k];
                &&& e.name == scores[i].name
                &&& e.score == scores[i].score
                &&& e.rejected == is_rejected(scores[i], cfg)
            },
{
    let rej = is_rejected(scores[i], cfg);
    let c = class_of(scores, cfg, rej);
    let t = sort_desc(c);
    let e_i = result_of(scores[i], cfg);
    lemma_class_contains(scores, cfg, i);
    lemma_sort_desc_contains(c, e_i);
    lemma_sort_desc(c);
    let k = choose|k: int| 0 <= k < t.len() && t[k] == e_i;
    let a = ranked_class(scores, cfg, true);
    let b = ranked_class(scores, cfg, false);
    if rej {
        lemma_mark_extremes_pointwise(t, cfg.markers.failed_highest, cfg.markers.failed_lowest);
        assert(report_entries(scores, cfg)[k] == a[k]);
        assert(a[k].name == e_i.name && a[k].score == e_i.score && a[k].rejected == e_i.rejected);
    } else {
        lemma_mark_extremes_pointwise(t, cfg.markers.passed_highest, cfg.markers.passed_lowest);
        lemma_sort_desc(class_of(scores, cfg, true));
        lemma_mark_extremes_pointwise(
            sort_desc(class_of(scores, cfg, true)),
            cfg.markers.failed_highest,
            cfg.markers.failed_lowest,
        );
        assert(report_entries(scores, cfg)[a.len() + k] == b[k]);
        assert(b[k].name == e_i.name && b[k].score == e_i.score && b[k].rejected == e_i.rejected);
    }
}

/// Boundary law: an attribute whose score equals its threshold exactly is
/// reported as passed, not rejected.
pub proof fn law_boundary_passes(scores: Seq<ScoreEntry>, cfg: Config, i: int)
    requires
        all_configured(scores, cfg),
        0 <= i < scores.len(),
        scores[i].score == cfg.thr_map()[scores[i].name@],
    ensures
        exists|k: int|
            0 <= k < report_entries(scores, cfg).len() && {
                let e = #[trigger] report_entries(scores, cfg)[k];
                &&& e.name == scores[i].name
                &&& e.score == scores[i].score
                &&& !e.rejected
            },
{
    law_report_membership(scores, cfg, i);
}

/// Idempotence: two evaluations of the same scores under the same
/// configuration agree in verdict, entry order and statistics — the report
/// is a function of its inputs, with no hidden state.
pub proof fn law_idempotent(scores: Seq<ScoreEntry>, cfg: Config, r1: Report, r2: Report)
    requires
        conforms(scores, cfg, r1),
        conforms(scores, cfg, r2),
    ensures
        r1.verdict == r2.verdict,
        r1.entries@ == r2.entries@,
        r1.stats == r2.stats,
{
}

} // verus!
