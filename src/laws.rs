use vstd::prelude::*;

use crate::generator::{filter_for, keeps, passes, selected};
use crate::odometer::{combinations, count, digits, lemma_count_positive, lemma_digits_bounds};

verus! {

broadcast use vstd::seq_lib::group_filter_ensures;

/// The i-th element of `a` stands in `b` at position `idx[i]`, and these
/// positions increase.
pub open spec fn subsequence_at(a: Seq<Seq<char>>, b: Seq<Seq<char>>, idx: Seq<int>) -> bool {
    &&& idx.len() == a.len()
    &&& forall|i: int| 0 <= i < a.len() ==> 0 <= #[trigger] idx[i] < b.len() && a[i] == b[idx[i]]
    &&& forall|i: int, j: int| 0 <= i < j < a.len() ==> idx[i] < idx[j]
}

/// `a` is `b` with some elements left out, the rest kept in order.
pub open spec fn is_subsequence(a: Seq<Seq<char>>, b: Seq<Seq<char>>) -> bool {
    exists|idx: Seq<int>| subsequence_at(a, b, idx)
}

proof fn lemma_filter_subsequence(s: Seq<Seq<char>>, pred: spec_fn(Seq<char>) -> bool)
    ensures
        is_subsequence(s.filter(pred), s),
    decreases s.len(),
{
    reveal(Seq::filter);
    if s.len() == 0 {
        let idx = Seq::<int>::empty();
        assert(subsequence_at(s.filter(pred), s, idx));
    } else {
        let init = s.drop_last();
        lemma_filter_subsequence(init, pred);
        let sub = init.filter(pred);
        let idx0 = choose|idx: Seq<int>| subsequence_at(sub, init, idx);
        if pred(s.last()) {
            let idx = idx0.push(s.len() - 1);
            let f = s.filter(pred);
            assert(f == sub.push(s.last()));
            assert forall|i: int| 0 <= i < f.len() implies 0 <= #[trigger] idx[i] < s.len() && f[i]
                == s[idx[i]] by {
                if i < sub.len() {
                    assert(idx[i] == idx0[i]);
                    assert(init[idx0[i]] == s[idx0[i]]);
                }
            }
            assert forall|i: int, j: int| 0 <= i < j < f.len() implies idx[i] < idx[j] by {
                if j < sub.len() {
                    assert(idx[i] == idx0[i] && idx[j] == idx0[j]);
                } else {
                    assert(idx[i] == idx0[i]);
                }
            }
            assert(subsequence_at(f, s, idx));
        } else {
            let f = s.filter(pred);
            assert(f == sub);
            assert forall|i: int| 0 <= i < f.len() implies 0 <= #[trigger] idx0[i] < s.len() && f[i]
                == s[idx0[i]] by {
                assert(init[idx0[i]] == s[idx0[i]]);
            }
            assert(subsequence_at(f, s, idx0));
        }
    }
}

proof fn lemma_filter_all(s: Seq<Seq<char>>, pred: spec_fn(Seq<char>) -> bool)
    requires
        forall|w: Seq<char>| #[trigger] pred(w),
    ensures
        s.filter(pred) == s,
    decreases s.len(),
{
    reveal(Seq::filter);
    if s.len() > 0 {
        lemma_filter_all(s.drop_last(), pred);
        assert(s.drop_last().push(s.last()) =~= s);
    }
}

/// The unfiltered enumeration has exactly as many words as the product of
/// the slot sizes; each word has one character per slot, taken from that
/// slot.
pub proof fn lemma_cardinality(slots: Seq<Seq<char>>)
    ensures
        combinations(slots).len() == count(slots),
        forall|k: int|
            0 <= k < count(slots) ==> (#[trigger] combinations(slots)[k]).len() == slots.len(),
        forall|k: int, i: int|
            0 <= k < count(slots) && 0 <= i < slots.len() ==> slots[i].contains(
                #[trigger] combinations(slots)[k][i],
            ),
{
    assert forall|k: int, i: int| 0 <= k < count(slots) && 0 <= i < slots.len() implies slots[i].contains(
        #[trigger] combinations(slots)[k][i],
    ) by {
        lemma_digits_bounds(slots, k as nat);
        let d = digits(slots, k as nat);
        assert(combinations(slots)[k][i] == slots[i][d[i]]);
    }
}

/// A slot with no candidates leaves nothing to enumerate.
pub proof fn lemma_empty_slot(slots: Seq<Seq<char>>, i: int)
    requires
        0 <= i < slots.len(),
        slots[i].len() == 0,
    ensures
        combinations(slots).len() == 0,
{
    lemma_count_positive(slots);
}

/// An empty word list filters nothing: the words come out as in the
/// unfiltered enumeration, in the same order.
pub proof fn lemma_empty_list_keeps_all(slots: Seq<Seq<char>>, words: Set<Seq<char>>)
    requires
        words.is_empty(),
    ensures
        selected(slots, filter_for(words)) == combinations(slots),
{
    lemma_filter_all(combinations(slots), keeps(filter_for(words)));
}

/// With a non-empty word list, every word that comes out is in the list and
/// in the unfiltered enumeration, and the words come out in the order of the
/// unfiltered enumeration.
pub proof fn lemma_filtered_subset(slots: Seq<Seq<char>>, words: Set<Seq<char>>)
    requires
        !words.is_empty(),
    ensures
        forall|i: int|
            0 <= i < selected(slots, filter_for(words)).len() ==> {
                &&& words.contains(#[trigger] selected(slots, filter_for(words))[i])
                &&& combinations(slots).contains(selected(slots, filter_for(words))[i])
            },
        is_subsequence(selected(slots, filter_for(words)), combinations(slots)),
{
    let pred = keeps(filter_for(words));
    let c = combinations(slots);
    let f = c.filter(pred);
    lemma_filter_subsequence(c, pred);
    let idx = choose|idx: Seq<int>| subsequence_at(f, c, idx);
    assert forall|i: int| 0 <= i < f.len() implies {
        &&& words.contains(#[trigger] f[i])
        &&& c.contains(f[i])
    } by {
        assert(pred(f[i]));
        assert(passes(filter_for(words), f[i]));
        assert(f[i] == c[idx[i]]);
    }
}

/// The output is a function of the slots and the filter alone: two
/// enumerations over the same slots and filter give the same words in the
/// same order.
pub proof fn lemma_same_configuration(
    slots_a: Seq<Seq<char>>,
    slots_b: Seq<Seq<char>>,
    filter_a: Option<Set<Seq<char>>>,
    filter_b: Option<Set<Seq<char>>>,
)
    requires
        slots_a == slots_b,
        filter_a == filter_b,
    ensures
        combinations(slots_a) == combinations(slots_b),
        selected(slots_a, filter_a) == selected(slots_b, filter_b),
{
}

} // verus!
