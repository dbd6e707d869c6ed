use vstd::arithmetic::div_mod::{
    lemma_div_multiples_vanish,
    lemma_fundamental_div_mod,
    lemma_fundamental_div_mod_converse,
    lemma_mod_multiples_basic,
};
use vstd::prelude::*;

use crate::slot::Slot;
use crate::text::push_char;

verus! {

/// The number of words that the slots give: the product of their sizes
/// (one, the empty word, for no slots at all).
pub open spec fn count(slots: Seq<Seq<char>>) -> nat
    decreases slots.len(),
{
    if slots.len() == 0 {
        1
    } else {
        count(slots.drop_last()) * slots.last().len()
    }
}

/// The digits of `k` in the mixed radix whose i-th digit has the size of
/// slot i as its base; the last slot is the least significant digit.
pub open spec fn digits(slots: Seq<Seq<char>>, k: nat) -> Seq<int>
    decreases slots.len(),
{
    if slots.len() == 0 {
        seq![]
    } else {
        let n = slots.last().len();
        digits(slots.drop_last(), (k / n) as nat).push((k % n) as int)
    }
}

/// The `k`-th word in odometer order: slot i contributes its candidate at
/// the i-th digit of `k`.
pub open spec fn combination(slots: Seq<Seq<char>>, k: nat) -> Seq<char> {
    let d = digits(slots, k);
    Seq::new(slots.len(), |i: int| slots[i][d[i]])
}

/// Every word that the slots give, in odometer order: the last slot varies
/// fastest and carries into the one before it.
pub open spec fn combinations(slots: Seq<Seq<char>>) -> Seq<Seq<char>> {
    Seq::new(count(slots), |k: int| combination(slots, k as nat))
}

/// Some word exists exactly when no slot is empty.
pub proof fn lemma_count_positive(slots: Seq<Seq<char>>)
    ensures
        count(slots) > 0 <==> forall|i: int| 0 <= i < slots.len() ==> #[trigger] slots[i].len() > 0,
    decreases slots.len(),
{
    if slots.len() > 0 {
        let init = slots.drop_last();
        lemma_count_positive(init);
        let a = count(init);
        let b = slots.last().len();
        assert(a * b > 0 <==> (a > 0 && b > 0)) by (nonlinear_arith);
        if count(slots) > 0 {
            assert forall|i: int| 0 <= i < slots.len() implies #[trigger] slots[i].len() > 0 by {
                if i < slots.len() - 1 {
                    assert(init[i] == slots[i]);
                }
            }
        } else {
            if b > 0 {
                let j = choose|j: int| 0 <= j < init.len() && !(#[trigger] init[j].len() > 0);
                assert(slots[j] == init[j]);
            }
        }
    }
}

/// Below the count, every digit indexes a candidate of its slot.
pub proof fn lemma_digits_bounds(slots: Seq<Seq<char>>, k: nat)
    requires
        k < count(slots),
    ensures
        digits(slots, k).len() == slots.len(),
        forall|i: int|
            0 <= i < slots.len() ==> 0 <= #[trigger] digits(slots, k)[i] < slots[i].len(),
    decreases slots.len(),
{
    if slots.len() > 0 {
        let init = slots.drop_last();
        let n = slots.last().len();
        let c = count(init);
        assert(n > 0 && k / n < c) by {
            assert(k < c * n);
            if n == 0 {
                assert(c * n == 0) by (nonlinear_arith)
                    requires
                        n == 0,
                ;
            } else {
                lemma_fundamental_div_mod(k as int, n as int);
                assert(k / n < c) by (nonlinear_arith)
                    requires
                        k < c * n,
                        n > 0,
                        k == n * (k / n) + k % n,
                        k % n >= 0,
                ;
            }
        }
        lemma_digits_bounds(init, (k / n) as nat);
        assert forall|i: int| 0 <= i < slots.len() implies 0 <= #[trigger] digits(slots, k)[i]
            < slots[i].len() by {
            if i < slots.len() - 1 {
                assert(init[i] == slots[i]);
            }
        }
    }
}

/// The count of two runs of slots side by side is the product of their counts.
pub proof fn lemma_count_concat(a: Seq<Seq<char>>, b: Seq<Seq<char>>)
    ensures
        count(a + b) == count(a) * count(b),
    decreases b.len(),
{
    if b.len() == 0 {
        assert(a + b =~= a);
        assert(count(a) * 1 == count(a));
    } else {
        let b0 = b.drop_last();
        assert((a + b).drop_last() =~= a + b0);
        assert((a + b).last() == b.last());
        lemma_count_concat(a, b0);
        let x = count(a);
        let y = count(b0);
        let n = b.last().len();
        assert(count(a + b) == count(a + b0) * n);
        assert(count(b) == y * n);
        assert(x * y * n == x * (y * n)) by (nonlinear_arith);
        assert(count(a + b0) == x * y);
        assert(count(a + b) == x * y * n);
    }
}

/// A single slot counts as many words as it has candidates.
pub proof fn lemma_count_single(slot: Seq<char>)
    ensures
        count(seq![slot]) == slot.len(),
{
    let one = seq![slot];
    assert(one.drop_last() =~= Seq::<Seq<char>>::empty());
    assert(count(Seq::<Seq<char>>::empty()) == 1);
    assert(count(one) == count(one.drop_last()) * slot.len());
}

/// Scaling a number by the count of trailing slots appends zero digits.
pub proof fn lemma_digits_scaled(a: Seq<Seq<char>>, b: Seq<Seq<char>>, q: nat)
    requires
        count(b) > 0,
    ensures
        digits(a + b, q * count(b)) == digits(a, q) + Seq::new(b.len(), |i: int| 0int),
    decreases b.len(),
{
    if b.len() == 0 {
        assert(a + b =~= a);
        assert(digits(a, q) + Seq::new(b.len(), |i: int| 0int) =~= digits(a, q));
    } else {
        let b0 = b.drop_last();
        let n = b.last().len();
        let c0 = count(b0);
        assert(c0 * n > 0);
        assert(n > 0 && c0 > 0) by (nonlinear_arith)
            requires
                c0 * n > 0,
        ;
        assert((a + b).drop_last() =~= a + b0);
        assert((a + b).last() == b.last());
        let x = q * count(b);
        assert(x == (q * c0) * n) by (nonlinear_arith)
            requires
                x == q * (c0 * n),
        ;
        lemma_div_multiples_vanish((q * c0) as int, n as int);
        lemma_mod_multiples_basic((q * c0) as int, n as int);
        assert(n * (q * c0) == (q * c0) * n) by (nonlinear_arith);
        lemma_digits_scaled(a, b0, q);
        assert(digits(a + b, x) =~= digits(a + b0, (q * c0) as nat).push(0));
        assert(digits(a, q) + Seq::new(b.len(), |i: int| 0int) =~= (digits(a, q) + Seq::new(
            b0.len(),
            |i: int| 0int,
        )).push(0));
    }
}

/// One step of the odometer on the last digit: either the last digit grows
/// by one, or it wraps to zero and one is carried into the digits before it.
pub proof fn lemma_step(p: Seq<Seq<char>>, q: nat)
    requires
        p.len() > 0,
        p.last().len() > 0,
        q < count(p),
    ensures
        ({
            let s = p.last().len();
            &&& digits(p, q) == digits(p.drop_last(), q / s).push((q % s) as int)
            &&& q % s + 1 < s ==> digits(p, q + 1) == digits(p, q).update(
                p.len() - 1,
                (q % s + 1) as int,
            )
            &&& q % s + 1 >= s ==> q + 1 == (q / s + 1) * s
        }),
{
    let s = p.last().len();
    let qi = q as int;
    let si = s as int;
    lemma_fundamental_div_mod(qi, si);
    let d = qi / si;
    let r = qi % si;
    assert(0 <= r < si);
    lemma_digits_bounds(p, q);
    if r + 1 < si {
        lemma_fundamental_div_mod_converse(qi + 1, si, d, r + 1);
        assert(((q + 1) / s) as nat == (q / s) as nat);
        assert(digits(p, q + 1) == digits(p.drop_last(), ((q + 1) / s) as nat).push(
            ((q + 1) % s) as int,
        ));
        assert(digits(p, q + 1) =~= digits(p, q).update(p.len() - 1, r + 1));
    } else {
        assert(qi + 1 == (d + 1) * si) by (nonlinear_arith)
            requires
                qi == si * d + r,
                r + 1 >= si,
                r < si,
        ;
    }
}

/// The candidate lists of a sequence of slots.
pub open spec fn slot_views(slots: Seq<Slot>) -> Seq<Seq<char>> {
    Seq::new(slots.len(), |i: int| slots[i]@)
}

/// The enumeration state of a sequence of slots: one index per slot, read as
/// a mixed-radix counter whose value is `pos`, and whether it has run out.
pub(crate) struct Odometer {
    pub(crate) indices: Vec<usize>,
    pub(crate) done: bool,
    pub(crate) pos: Ghost<nat>,
}

impl Odometer {
    pub(crate) open spec fn wf(&self, sv: Seq<Seq<char>>) -> bool {
        &&& self.indices.len() == sv.len()
        &&& self.pos@ <= count(sv)
        &&& self.done <==> self.pos@ == count(sv)
        &&& !self.done ==> forall|i: int|
            0 <= i < sv.len() ==> self.indices@[i] == #[trigger] digits(sv, self.pos@)[i]
        &&& !self.done ==> forall|i: int|
            0 <= i < sv.len() ==> #[trigger] self.indices@[i] < sv[i].len()
        &&& self.done ==> forall|i: int| 0 <= i < sv.len() ==> #[trigger] self.indices@[i] == 0
    }

    /// Starts at the first word, or exhausted at once when a slot is empty.
    pub(crate) fn new(slots: &[Slot]) -> (r: Self)
        ensures
            r.wf(slot_views(slots@)),
            r.pos@ == 0,
            r.indices@ == Seq::new(slots@.len() as nat, |i: int| 0usize),
    {
        let ghost sv = slot_views(slots@);
        let n = slots.len();
        let mut has_options = true;
        let mut indices: Vec<usize> = Vec::new();
        for i in 0..n
            invariant
                n == sv.len(),
                sv == slot_views(slots@),
                indices@ == Seq::new(i as nat, |j: int| 0usize),
                has_options <==> forall|j: int| 0 <= j < i ==> #[trigger] sv[j].len() > 0,
        {
            proof {
                assert(sv[i as int] == slots@[i as int]@);
            }
            if slots[i].len() == 0 {
                has_options = false;
            }
            indices.push(0);
            proof {
                assert(indices@ =~= Seq::new((i + 1) as nat, |j: int| 0usize));
            }
        }
        proof {
            lemma_count_positive(sv);
            if has_options {
                let e = Seq::<Seq<char>>::empty();
                assert(e + sv =~= sv);
                lemma_digits_scaled(e, sv, 0);
                assert(0 * count(sv) == 0);
            }
        }
        Self { indices, done: !has_options, pos: Ghost(0) }
    }

    /// The word at the current position.
    pub(crate) fn build_word(&self, slots: &[Slot]) -> (w: String)
        requires
            self.wf(slot_views(slots@)),
            !self.done,
        ensures
            w@ == combination(slot_views(slots@), self.pos@),
    {
        let ghost sv = slot_views(slots@);
        let ghost target = combination(sv, self.pos@);
        proof {
            lemma_digits_bounds(sv, self.pos@);
        }
        let mut word = String::new();
        let n = self.indices.len();
        for i in 0..n
            invariant
                n == sv.len(),
                sv == slot_views(slots@),
                self.wf(sv),
                !self.done,
                target == combination(sv, self.pos@),
                digits(sv, self.pos@).len() == sv.len(),
                forall|j: int|
                    0 <= j < sv.len() ==> 0 <= #[trigger] digits(sv, self.pos@)[j] < sv[j].len(),
                word@ == target.subrange(0, i as int),
        {
            proof {
                assert(sv[i as int] == slots@[i as int]@);
                assert(self.indices@[i as int] == digits(sv, self.pos@)[i as int]);
            }
            let c = slots[i].get(self.indices[i]);
            push_char(&mut word, c);
            proof {
                assert(word@ =~= target.subrange(0, i + 1));
            }
        }
        proof {
            assert(word@ =~= target);
        }
        word
    }

    /// Advances the counter by one, carrying from the last slot towards the
    /// first; returns whether a word is left.
    #[verifier::spinoff_prover]
    #[verifier::rlimit(40)]
    pub(crate) fn increment(&mut self, slots: &[Slot]) -> (more: bool)
        requires
            old(self).wf(slot_views(slots@)),
            !old(self).done,
        ensures
            final(self).wf(slot_views(slots@)),
            final(self).pos@ == old(self).pos@ + 1,
            more == !final(self).done,
            more ==> final(self).pos@ < count(slot_views(slots@)),
            !more ==> final(self).pos@ == count(slot_views(slots@)),
            !more ==> forall|j: int|
                0 <= j < final(self).indices@.len() ==> #[trigger] final(self).indices@[j] == 0,
    {
        let ghost sv = slot_views(slots@);
        let ghost pos = self.pos@;
        let n = self.indices.len();
        proof {
            lemma_count_positive(sv);
            assert(sv.subrange(0, n as int) =~= sv);
            assert(sv.subrange(n as int, n as int) =~= Seq::<Seq<char>>::empty());
            assert(count(Seq::<Seq<char>>::empty()) == 1);
        }
        let mut i: usize = n;
        let ghost mut q: nat = pos;
        while i > 0
            invariant
                n == sv.len(),
                sv == slot_views(slots@),
                self.indices.len() == n,
                !self.done,
                self.pos@ == pos,
                pos == old(self).pos@,
                pos < count(sv),
                i <= n,
                forall|j: int| 0 <= j < sv.len() ==> #[trigger] sv[j].len() > 0,
                q < count(sv.subrange(0, i as int)),
                pos + 1 == (q + 1) * count(sv.subrange(i as int, n as int)),
                forall|j: int|
                    0 <= j < i ==> self.indices@[j] == #[trigger] digits(
                        sv.subrange(0, i as int),
                        q,
                    )[j],
                forall|j: int| i <= j < n ==> self.indices@[j] == 0,
            decreases i,
        {
            let ghost p = sv.subrange(0, i as int);
            let ghost b = sv.subrange(i as int, n as int);
            i = i - 1;
            let ghost s = sv[i as int].len();
            proof {
                assert(p.last() == sv[i as int]);
                assert(p.drop_last() =~= sv.subrange(0, i as int));
                lemma_step(p, q);
                lemma_digits_bounds(p, q);
                assert(self.indices@[i as int] == digits(p, q)[i as int]);
                assert(digits(p, q)[i as int] == q % s);
                assert(sv[i as int] == slots@[i as int]@);
            }
            let size = slots[i].len();
            self.indices.set(i, self.indices[i] + 1);
            if self.indices[i] < size {
                proof {
                    lemma_count_positive(b);
                    lemma_count_concat(p, b);
                    assert(p + b =~= sv);
                    lemma_digits_scaled(p, b, q + 1);
                    let p0 = p.drop_last();
                    lemma_fundamental_div_mod(q as int, s as int);
                    let cp0 = count(p0);
                    assert(q / s < cp0) by (nonlinear_arith)
                        requires
                            q < cp0 * s,
                            s > 0,
                            q == s * (q / s) + q % s,
                            q % s >= 0,
                    ;
                    assert(q + 1 < count(p)) by (nonlinear_arith)
                        requires
                            count(p) == cp0 * s,
                            q / s < cp0,
                            q == s * (q / s) + q % s,
                            q % s + 1 < s,
                    ;
                    let cb = count(b);
                    assert((q + 1) * cb < count(p) * cb) by (nonlinear_arith)
                        requires
                            q + 1 < count(p),
                            cb > 0,
                    ;
                    assert forall|j: int| 0 <= j < sv.len() implies self.indices@[j]
                        == #[trigger] digits(sv, pos + 1)[j] by {
                        if j < i {
                            assert((digits(p, q + 1) + Seq::new(b.len(), |k: int| 0int))[j]
                                == digits(p, q + 1)[j]);
                        } else if j > i {
                            assert((digits(p, q + 1) + Seq::new(b.len(), |k: int| 0int))[j] == 0);
                        }
                    }
                    assert(pos + 1 < count(sv));
                    lemma_digits_bounds(sv, (pos + 1) as nat);
                    assert forall|j: int| 0 <= j < sv.len() implies #[trigger] self.indices@[j]
                        < sv[j].len() by {
                        assert(self.indices@[j] == digits(sv, (pos + 1) as nat)[j]);
                    }
                }
                self.pos = Ghost((pos + 1) as nat);
                return true;
            }
            self.indices.set(i, 0);
            proof {
                let p0 = p.drop_last();
                lemma_fundamental_div_mod(q as int, s as int);
                let cp0 = count(p0);
                assert(q / s < cp0) by (nonlinear_arith)
                    requires
                        q < cp0 * s,
                        s > 0,
                        q == s * (q / s) + q % s,
                        q % s >= 0,
                ;
                let b2 = sv.subrange(i as int, n as int);
                let one = seq![sv[i as int]];
                assert(b2 =~= one + b);
                lemma_count_concat(one, b);
                lemma_count_single(sv[i as int]);
                let cb = count(b);
                assert(count(b2) == count(one) * cb);
                assert(count(b2) == s * cb);
                assert(pos + 1 == (q / s + 1) * (s * cb)) by (nonlinear_arith)
                    requires
                        pos + 1 == (q + 1) * cb,
                        q + 1 == (q / s + 1) * s,
                ;
                assert forall|j: int| 0 <= j < i implies self.indices@[j] == #[trigger] digits(
                    sv.subrange(0, i as int),
                    (q / s) as nat,
                )[j] by {
                    assert(self.indices@[j] == digits(p, q)[j]);
                }
                q = (q / s) as nat;
            }
        }
        proof {
            assert(sv.subrange(0, 0) =~= Seq::<Seq<char>>::empty());
            assert(count(Seq::<Seq<char>>::empty()) == 1);
            assert(sv.subrange(0, n as int) =~= sv);
            assert(i == 0);
            assert(q == 0);
            assert(pos + 1 == (q + 1) * count(sv.subrange(i as int, n as int)));
            assert(sv.subrange(i as int, n as int) == sv);
            let c = count(sv);
            assert(pos + 1 == c) by (nonlinear_arith)
                requires
                    pos + 1 == (q + 1) * c,
                    q == 0,
            ;
        }
        self.done = true;
        self.pos = Ghost((pos + 1) as nat);
        false
    }
}

} // verus!
