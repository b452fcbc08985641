//! Ranking and extremes: puts a class in descending score order (stably, so
//! equal scores keep their arrival order), then gives the leading and the
//! trailing entry the class's "highest" and "lowest" marker — but only when
//! the class has at least two entries.

use vstd::prelude::*;

use crate::classify::AttributeResult;

verus! {

/// `e` inserted into `s` after every entry whose score is at least `e`'s:
/// the insertion step of a stable descending sort.
pub open spec fn insert_desc(s: Seq<AttributeResult>, e: AttributeResult) -> Seq<AttributeResult>
    decreases s.len(),
{
    if s.len() == 0 {
        seq![e]
    } else if s[0].score >= e.score {
        seq![s[0]] + insert_desc(s.drop_first(), e)
    } else {
        seq![e] + s
    }
}

/// `s` sorted by score descending; entries with equal scores keep their
/// relative order.
pub open spec fn sort_desc(s: Seq<AttributeResult>) -> Seq<AttributeResult>
    decreases s.len(),
{
    if s.len() == 0 {
        Seq::empty()
    } else {
        insert_desc(sort_desc(s.drop_last()), s.last())
    }
}

pub open spec fn sorted_desc(s: Seq<AttributeResult>) -> bool {
    forall|i: int, j: int| 0 <= i < j < s.len() ==> s[i].score >= s[j].score
}

/// When `j` is the first position whose score is below `e`'s, inserting `e`
/// descending is inserting it at `j`.
proof fn lemma_insert_desc_at(s: Seq<AttributeResult>, e: AttributeResult, j: int)
    requires
        0 <= j <= s.len(),
        forall|i: int| 0 <= i < j ==> s[i].score >= e.score,
        j < s.len() ==> s[j].score < e.score,
    ensures
        insert_desc(s, e) == s.insert(j, e),
    decreases s.len(),
{
    if s.len() == 0 {
        assert(insert_desc(s, e) =~= s.insert(0, e));
    } else if j == 0 {
        assert(insert_desc(s, e) =~= s.insert(0, e));
    } else {
        lemma_insert_desc_at(s.drop_first(), e, j - 1);
        assert(seq![s[0]] + s.drop_first().insert(j - 1, e) =~= s.insert(j, e));
    }
}

/// Inserting descending keeps sortedness, adds one entry, and otherwise
/// permutes nothing: the result is the input's multiset plus `e`.
proof fn lemma_insert_desc(s: Seq<AttributeResult>, e: AttributeResult)
    requires
        sorted_desc(s),
    ensures
        insert_desc(s, e).len() == s.len() + 1,
        sorted_desc(insert_desc(s, e)),
        insert_desc(s, e).to_multiset() == s.to_multiset().insert(e),
    decreases s.len(),
{
    let j = choose|j: int| insert_position(s, e, j);
    assert(insert_position(s, e, j)) by {
        lemma_insert_position_exists(s, e);
    }
    lemma_insert_desc_at(s, e, j);
    vstd::seq_lib::to_multiset_insert(s, j, e);
    let r = s.insert(j, e);
    assert forall|a: int, b: int| 0 <= a < b < r.len() implies r[a].score >= r[b].score by {
        if a < j && b > j {
            assert(s[a].score >= e.score);
            assert(s[j].score < e.score || b - 1 >= j);
        }
    }
}

/// There is a first position whose score is below `e`'s (possibly the end).
spec fn insert_position(s: Seq<AttributeResult>, e: AttributeResult, j: int) -> bool {
    &&& 0 <= j <= s.len()
    &&& forall|i: int| 0 <= i < j ==> s[i].score >= e.score
    &&& j < s.len() ==> s[j].score < e.score
}

proof fn lemma_insert_position_exists(s: Seq<AttributeResult>, e: AttributeResult)
    ensures
        exists|j: int| insert_position(s, e, j),
    decreases s.len(),
{
    if s.len() == 0 {
        assert(insert_position(s, e, 0));
    } else if s[0].score < e.score {
        assert(insert_position(s, e, 0));
    } else {
        lemma_insert_position_exists(s.drop_first(), e);
        let j = choose|j: int| insert_position(s.drop_first(), e, j);
        assert(forall|i: int| 1 <= i < j + 1 ==> s[i] == s.drop_first()[i - 1]);
        assert(j + 1 < s.len() ==> s[j + 1] == s.drop_first()[j]);
        assert(insert_position(s, e, j + 1));
    }
}

/// Sorting descending yields a sorted permutation of the input.
pub proof fn lemma_sort_desc(s: Seq<AttributeResult>)
    ensures
        sort_desc(s).len() == s.len(),
        sorted_desc(sort_desc(s)),
        sort_desc(s).to_multiset() == s.to_multiset(),
    decreases s.len(),
{
    if s.len() == 0 {
        assert(s =~= Seq::<AttributeResult>::empty());
    } else {
        let dl = s.drop_last();
        lemma_sort_desc(dl);
        lemma_insert_desc(sort_desc(dl), s.last());
        assert(dl.push(s.last()) =~= s);
        vstd::seq_lib::to_multiset_build(dl, s.last());
        assert(sort_desc(s) == insert_desc(sort_desc(dl), s.last()));
        assert(sort_desc(s).to_multiset() == sort_desc(dl).to_multiset().insert(s.last()));
        assert(s.to_multiset() == dl.to_multiset().insert(s.last()));
    }
}

/// A sequence and its sorted permutation hold the same entries.
pub proof fn lemma_sort_desc_contains(s: Seq<AttributeResult>, e: AttributeResult)
    ensures
        sort_desc(s).contains(e) <==> s.contains(e),
{
    lemma_sort_desc(s);
    vstd::seq_lib::to_multiset_contains(sort_desc(s), e);
    vstd::seq_lib::to_multiset_contains(s, e);
}

/// `e` with its marker replaced by `m`.
pub open spec fn with_marker(e: AttributeResult, m: String) -> AttributeResult {
    AttributeResult { marker: m, ..e }
}

/// The extremes rule: in a class of more than one entry, the first (highest
/// score) entry takes the `hi` marker and the last (lowest score) entry the
/// `lo` marker; a singleton or empty class is left as it is.
pub open spec fn mark_extremes(s: Seq<AttributeResult>, hi: String, lo: String) -> Seq<
    AttributeResult,
> {
    if s.len() <= 1 {
        s
    } else {
        s.update(0, with_marker(s[0], hi)).update(s.len() - 1, with_marker(s.last(), lo))
    }
}

/// Marking the extremes changes markers only: every entry keeps its name,
/// score and rejection flag.
pub proof fn lemma_mark_extremes_pointwise(s: Seq<AttributeResult>, hi: String, lo: String)
    ensures
        mark_extremes(s, hi, lo).len() == s.len(),
        forall|k: int|
            0 <= k < s.len() ==> {
                let m = #[trigger] mark_extremes(s, hi, lo)[k];
                m.name == s[k].name && m.score == s[k].score && m.rejected == s[k].rejected
            },
{
}

/// Sorts a class by score descending, stably.
pub fn rank(list: Vec<AttributeResult>) -> (r: Vec<AttributeResult>)
    ensures
        r@ == sort_desc(list@),
{
    let ghost orig = list@;
    let mut rest = list;
    let total = rest.len();
    proof {
        assert(orig.len() == total);
    }
    let mut out: Vec<AttributeResult> = Vec::new();
    let mut k: usize = 0;
    while rest.len() > 0
        invariant
            orig.len() <= usize::MAX,
            k + rest@.len() == orig.len(),
            rest@ == orig.skip(k as int),
            out@ == sort_desc(orig.take(k as int)),
        decreases rest@.len(),
    {
        let e = rest.remove(0);
        proof {
            assert(e == orig[k as int]);
            assert(orig.take(k + 1).drop_last() =~= orig.take(k as int));
            assert(orig.take(k + 1).last() == orig[k as int]);
        }
        insert_sorted(&mut out, e);
        k = k + 1;
        proof {
            assert(rest@ =~= orig.skip(k as int));
        }
    }
    proof {
        assert(orig.take(orig.len() as int) =~= orig);
    }
    out
}

/// Inserts one entry into a descending list, after every entry whose score is
/// at least its own.
fn insert_sorted(out: &mut Vec<AttributeResult>, e: AttributeResult)
    ensures
        final(out)@ == insert_desc(old(out)@, e),
{
    let n = out.len();
    let mut j: usize = 0;
    while j < n && out[j].score >= e.score
        invariant
            n == out@.len(),
            j <= n,
            *out == *old(out),
            forall|i: int| 0 <= i < j ==> out@[i].score >= e.score,
        decreases n - j,
    {
        j = j + 1;
    }
    proof {
        lemma_insert_desc_at(out@, e, j as int);
    }
    out.insert(j, e);
}

/// Applies the extremes rule to a ranked class, in place.
pub fn mark_class(list: &mut Vec<AttributeResult>, hi: &String, lo: &String)
    ensures
        final(list)@ == mark_extremes(old(list)@, *hi, *lo),
{
    if list.len() > 1 {
        let mut first = list.remove(0);
        first.marker = hi.clone();
        list.insert(0, first);
        let last_i = list.len() - 1;
        let mut last = list.remove(last_i);
        last.marker = lo.clone();
        list.insert(last_i, last);
        proof {
            assert(list@ =~= mark_extremes(old(list)@, *hi, *lo));
        }
    }
}

} // verus!
