//! Aggregate statistics: global minimum, maximum and mean score across all
//! scored attributes of one message, regardless of class.

use vstd::prelude::*;

use crate::classify::{sum_of, AttributeResult, ScoreEntry};
use crate::rank::sorted_desc;

verus! {

/// The statistics block of a report, in thousandths (600 means 0.600, which
/// renders as 60.0%). The mean is the integer quotient of the score sum by
/// the attribute count, so it is exact whenever the sum divides evenly.
#[derive(Clone, Copy, Debug, PartialEq, Eq, Structural)]
pub struct Stats {
    pub min: u32,
    pub max: u32,
    pub mean: u32,
}

/// The greatest score among the scored attributes (meaningful only when at
/// least one attribute was scored).
pub open spec fn max_score(scores: Seq<ScoreEntry>) -> int
    recommends
        scores.len() > 0,
    decreases scores.len(),
{
    if scores.len() <= 1 {
        scores[0].score as int
    } else if scores.last().score > max_score(scores.drop_last()) {
        scores.last().score as int
    } else {
        max_score(scores.drop_last())
    }
}

/// The least score among the scored attributes.
pub open spec fn min_score(scores: Seq<ScoreEntry>) -> int
    recommends
        scores.len() > 0,
    decreases scores.len(),
{
    if scores.len() <= 1 {
        scores[0].score as int
    } else if scores.last().score < min_score(scores.drop_last()) {
        scores.last().score as int
    } else {
        min_score(scores.drop_last())
    }
}

/// The extremal scores bound every score and are attained.
pub proof fn lemma_minmax_props(scores: Seq<ScoreEntry>)
    requires
        scores.len() > 0,
    ensures
        forall|i: int|
            0 <= i < scores.len() ==> min_score(scores) <= #[trigger] scores[i].score
                <= max_score(scores),
        exists|i: int| 0 <= i < scores.len() && scores[i].score == max_score(scores),
        exists|i: int| 0 <= i < scores.len() && scores[i].score == min_score(scores),
    decreases scores.len(),
{
    if scores.len() == 1 {
        assert(scores[0].score == max_score(scores));
        assert(scores[0].score == min_score(scores));
    } else {
        lemma_minmax_props(scores.drop_last());
        assert(forall|i: int|
            0 <= i < scores.len() - 1 ==> scores[i] == #[trigger] scores.drop_last()[i]);
        let mx = choose|i: int|
            0 <= i < scores.drop_last().len() && #[trigger] scores.drop_last()[i].score
                == max_score(scores.drop_last());
        let mn = choose|i: int|
            0 <= i < scores.drop_last().len() && #[trigger] scores.drop_last()[i].score
                == min_score(scores.drop_last());
        if scores.last().score > max_score(scores.drop_last()) {
            assert(scores[scores.len() - 1].score == max_score(scores));
        } else {
            assert(scores[mx].score == max_score(scores));
        }
        if scores.last().score < min_score(scores.drop_last()) {
            assert(scores[scores.len() - 1].score == min_score(scores));
        } else {
            assert(scores[mn].score == min_score(scores));
        }
        assert forall|i: int|
            0 <= i < scores.len() implies min_score(scores) <= #[trigger] scores[i].score
            <= max_score(scores) by {
            if i < scores.len() - 1 {
                assert(scores[i] == scores.drop_last()[i]);
                assert(min_score(scores.drop_last()) <= scores.drop_last()[i].score <= max_score(
                    scores.drop_last(),
                ));
            } else {
                assert(scores[i] == scores.last());
            }
        }
    }
}

/// The score sum lies between count-times-min and count-times-max.
pub proof fn lemma_sum_between(scores: Seq<ScoreEntry>)
    requires
        scores.len() > 0,
    ensures
        scores.len() * min_score(scores) <= sum_of(scores) <= scores.len() * max_score(scores),
    decreases scores.len(),
{
    if scores.len() == 1 {
        assert(sum_of(scores) == sum_of(scores.drop_last()) + scores.last().score);
        assert(sum_of(scores.drop_last()) == 0);
    } else {
        let dl = scores.drop_last();
        lemma_sum_between(dl);
        lemma_minmax_props(scores);
        lemma_minmax_props(dl);
        assert(forall|i: int| 0 <= i < dl.len() ==> dl[i] == #[trigger] scores[i]);
        vstd::arithmetic::mul::lemma_mul_inequality(min_score(scores), min_score(dl), dl.len() as int);
        vstd::arithmetic::mul::lemma_mul_inequality(max_score(dl), max_score(scores), dl.len() as int);
        assert(dl.len() * min_score(scores) + min_score(scores) == scores.len() * min_score(scores))
            by (nonlinear_arith)
            requires dl.len() + 1 == scores.len(),
        ;
        assert(dl.len() * max_score(scores) + max_score(scores) == scores.len() * max_score(scores))
            by (nonlinear_arith)
            requires dl.len() + 1 == scores.len(),
        ;
    }
}

/// The greatest score held by either of the two ranked class lists: since
/// both are sorted descending, it heads one of them.
pub open spec fn lists_max(rej: Seq<AttributeResult>, pas: Seq<AttributeResult>) -> int
    recommends
        rej.len() + pas.len() > 0,
{
    if rej.len() == 0 {
        pas[0].score as int
    } else if pas.len() == 0 {
        rej[0].score as int
    } else if rej[0].score >= pas[0].score {
        rej[0].score as int
    } else {
        pas[0].score as int
    }
}

/// The least score held by either list: the tail of one of them.
pub open spec fn lists_min(rej: Seq<AttributeResult>, pas: Seq<AttributeResult>) -> int
    recommends
        rej.len() + pas.len() > 0,
{
    if rej.len() == 0 {
        pas.last().score as int
    } else if pas.len() == 0 {
        rej.last().score as int
    } else if rej.last().score <= pas.last().score {
        rej.last().score as int
    } else {
        pas.last().score as int
    }
}

/// Computes the statistics block from the two ranked class lists and the
/// total over all attributes: global maximum is the greater head, global
/// minimum the lesser tail, and the mean is the score sum divided by the
/// attribute count, which never leaves the band between the two extremes.
pub fn compute_stats(
    rej: &Vec<AttributeResult>,
    pas: &Vec<AttributeResult>,
    sum: u128,
    count: usize,
) -> (st: Stats)
    requires
        sorted_desc(rej@),
        sorted_desc(pas@),
        count == rej@.len() + pas@.len(),
        count > 0,
        count * lists_min(rej@, pas@) <= sum <= count * lists_max(rej@, pas@),
    ensures
        st.max == lists_max(rej@, pas@),
        st.min == lists_min(rej@, pas@),
        st.mean == sum as int / count as int,
        st.min <= st.mean <= st.max,
{
    let max: u32 = if rej.len() == 0 {
        pas[0].score
    } else if pas.len() == 0 {
        rej[0].score
    } else if rej[0].score >= pas[0].score {
        rej[0].score
    } else {
        pas[0].score
    };
    let min: u32 = if rej.len() == 0 {
        pas[pas.len() - 1].score
    } else if pas.len() == 0 {
        rej[rej.len() - 1].score
    } else if rej[rej.len() - 1].score <= pas[pas.len() - 1].score {
        rej[rej.len() - 1].score
    } else {
        pas[pas.len() - 1].score
    };
    proof {
        vstd::arithmetic::div_mod::lemma_div_is_ordered(
            count as int * min as int,
            sum as int,
            count as int,
        );
        vstd::arithmetic::div_mod::lemma_div_is_ordered(
            sum as int,
            count as int * max as int,
            count as int,
        );
        vstd::arithmetic::div_mod::lemma_div_multiples_vanish(min as int, count as int);
        vstd::arithmetic::div_mod::lemma_div_multiples_vanish(max as int, count as int);
    }
    let mean_wide: u128 = sum / (count as u128);
    let mean: u32 = mean_wide as u32;
    Stats { min, max, mean }
}

} // verus!
