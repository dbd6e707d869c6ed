use std::collections::HashSet;
use vstd::prelude::*;

use crate::default_words::DEFAULT_WORD_LIST;
use crate::odometer::{combinations, count, slot_views, Odometer};
use crate::slot::Slot;
use crate::laws::lemma_cardinality;
use crate::word_list::{contains_word, lemma_words_of_empty, lines, parse_word_list, words_of};

verus! {

/// The filter that a word set gives: an empty set lets every word through
/// (`None`), any other keeps only its own words.
pub open spec fn filter_for(words: Set<Seq<char>>) -> Option<Set<Seq<char>>> {
    if words.is_empty() {
        None
    } else {
        Some(words)
    }
}

/// Whether a filter lets a word through.
pub open spec fn passes(filter: Option<Set<Seq<char>>>, w: Seq<char>) -> bool {
    match filter {
        None => true,
        Some(words) => words.contains(w),
    }
}

/// `passes` as a predicate on words.
pub open spec fn keeps(filter: Option<Set<Seq<char>>>) -> spec_fn(Seq<char>) -> bool {
    |w: Seq<char>| passes(filter, w)
}

/// The words among the first `m` combinations that the filter lets through,
/// in odometer order.
pub open spec fn selected_upto(
    slots: Seq<Seq<char>>,
    filter: Option<Set<Seq<char>>>,
    m: nat,
) -> Seq<Seq<char>> {
    combinations(slots).subrange(0, m as int).filter(keeps(filter))
}

/// Every combination that the filter lets through, in odometer order.
pub open spec fn selected(slots: Seq<Seq<char>>, filter: Option<Set<Seq<char>>>) -> Seq<Seq<char>> {
    combinations(slots).filter(keeps(filter))
}

/// The contents of a list of strings.
pub open spec fn views(v: Seq<String>) -> Seq<Seq<char>> {
    v.map_values(|w: String| w@)
}

proof fn lemma_selected_step(slots: Seq<Seq<char>>, filter: Option<Set<Seq<char>>>, m: nat)
    requires
        m < count(slots),
    ensures
        selected_upto(slots, filter, m + 1) == selected_upto(slots, filter, m) + if passes(
            filter,
            combinations(slots)[m as int],
        ) {
            seq![combinations(slots)[m as int]]
        } else {
            Seq::<Seq<char>>::empty()
        },
{
    reveal(Seq::filter);
    let c = combinations(slots);
    let t = c.subrange(0, m as int + 1);
    assert(t.drop_last() =~= c.subrange(0, m as int));
    assert(t.last() == c[m as int]);
    let prev = selected_upto(slots, filter, m);
    assert(prev + Seq::<Seq<char>>::empty() =~= prev);
    assert(prev + seq![c[m as int]] =~= prev.push(c[m as int]));
}

proof fn lemma_selected_all(slots: Seq<Seq<char>>, filter: Option<Set<Seq<char>>>)
    ensures
        selected_upto(slots, filter, count(slots)) == selected(slots, filter),
{
    assert(combinations(slots).subrange(0, count(slots) as int) =~= combinations(slots));
}

/// The words of the built-in list.
pub open spec fn default_words() -> Set<Seq<char>> {
    lines(DEFAULT_WORD_LIST@).to_set()
}

/// What a generator keeps of the combinations.
enum WordFilter {
    /// Every combination.
    PassAll,
    /// Only the combinations that are words of the set, which is not empty.
    Words(HashSet<String>),
}

impl WordFilter {
    closed spec fn view(&self) -> Option<Set<Seq<char>>> {
        match self {
            WordFilter::PassAll => None,
            WordFilter::Words(set) => Some(words_of(*set)),
        }
    }

    fn from_set(set: HashSet<String>) -> (r: Self)
        ensures
            r.view() == filter_for(words_of(set)),
    {
        proof {
            lemma_words_of_empty(set);
        }
        if set.is_empty() {
            WordFilter::PassAll
        } else {
            WordFilter::Words(set)
        }
    }

    fn passes(&self, w: &String) -> (r: bool)
        ensures
            r == passes(self.view(), w@),
    {
        match self {
            WordFilter::PassAll => true,
            WordFilter::Words(set) => contains_word(set, w),
        }
    }
}

/// Builds the words that one character from each slot gives, and keeps
/// those that its word list allows.
pub struct WordGenerator {
    slots: Vec<Slot>,
    filter: WordFilter,
}

impl WordGenerator {
    /// The candidate lists of the slots, in order.
    pub closed spec fn slots_view(&self) -> Seq<Seq<char>> {
        slot_views(self.slots@)
    }

    /// The active filter: `None` lets every word through.
    pub closed spec fn filter_view(&self) -> Option<Set<Seq<char>>> {
        self.filter.view()
    }

    /// Creates a generator. With no word list the built-in one is used; an
    /// empty word list turns filtering off.
    pub fn new(slots: Vec<Slot>, word_list: Option<HashSet<String>>) -> (r: Self)
        ensures
            r.slots_view() == slot_views(slots@),
            r.filter_view() == match word_list {
                None => Some(default_words()),
                Some(set) => filter_for(words_of(set)),
            },
    {
        let filter = match word_list {
            Some(set) => WordFilter::from_set(set),
            None => WordFilter::Words(parse_word_list(DEFAULT_WORD_LIST)),
        };
        Self { slots, filter }
    }

    /// Creates a generator that filters by the built-in word list.
    pub fn with_slots(slots: Vec<Slot>) -> (r: Self)
        ensures
            r.slots_view() == slot_views(slots@),
            r.filter_view() == Some(default_words()),
    {
        Self::new(slots, None)
    }

    /// Creates a generator that keeps every combination.
    pub fn with_no_filtering(slots: Vec<Slot>) -> (r: Self)
        ensures
            r.slots_view() == slot_views(slots@),
            r.filter_view() == None::<Set<Seq<char>>>,
    {
        Self { slots, filter: WordFilter::PassAll }
    }

    /// Replaces the word list; an empty one turns filtering off.
    pub fn set_word_list(&mut self, word_list: HashSet<String>)
        ensures
            final(self).slots_view() == old(self).slots_view(),
            final(self).filter_view() == filter_for(words_of(word_list)),
    {
        self.filter = WordFilter::from_set(word_list);
    }

    /// Replaces the word list by the words of a text, one per line; an empty
    /// text turns filtering off.
    pub fn set_word_list_from_text(&mut self, text: &str)
        ensures
            final(self).slots_view() == old(self).slots_view(),
            final(self).filter_view() == filter_for(lines(text@).to_set()),
    {
        self.set_word_list(parse_word_list(text));
    }

    /// The words that the filter lets through, produced one at a time.
    pub fn iter(&self) -> (r: WordIter<'_>)
        ensures
            r.wf(),
            r.slots_view() == self.slots_view(),
            r.filter_view() == self.filter_view(),
            r.position() == 0,
    {
        WordIter::new(self)
    }

    /// Every combination, unfiltered, produced one at a time.
    pub fn all_combinations(&self) -> (r: AllCombinationsIter<'_>)
        ensures
            r.wf(),
            r.slots_view() == self.slots_view(),
            r.position() == 0,
    {
        AllCombinationsIter::new(self.slots.as_slice())
    }

    /// The words that the filter lets through, in odometer order.
    pub fn get_words(&self) -> (r: Vec<String>)
        ensures
            views(r@) == selected(self.slots_view(), self.filter_view()),
    {
        let mut it = self.iter();
        let mut out: Vec<String> = Vec::new();
        let ghost sv = self.slots_view();
        let ghost f = self.filter_view();
        proof {
            assert(combinations(sv).subrange(0, 0) =~= Seq::<Seq<char>>::empty());
            assert(views(out@) =~= selected_upto(sv, f, 0));
        }
        loop
            invariant
                sv == self.slots_view(),
                f == self.filter_view(),
                it.wf(),
                it.slots_view() == sv,
                it.filter_view() == f,
                it.position() <= count(sv),
                views(out@) == selected_upto(sv, f, it.position()),
            decreases count(sv) - it.position(),
        {
            match it.next() {
                Some(w) => {
                    let ghost before = out@;
                    out.push(w);
                    proof {
                        assert(views(out@) =~= views(before) + seq![w@]);
                    }
                },
                None => {
                    proof {
                        lemma_selected_all(sv, f);
                    }
                    return out;
                },
            }
        }
    }

    /// Every combination, unfiltered, in odometer order.
    pub fn get_all_words(&self) -> (r: Vec<String>)
        ensures
            views(r@) == combinations(self.slots_view()),
    {
        let mut it = self.all_combinations();
        let mut out: Vec<String> = Vec::new();
        let ghost sv = self.slots_view();
        loop
            invariant
                sv == self.slots_view(),
                it.wf(),
                it.slots_view() == sv,
                it.position() <= count(sv),
                views(out@) == combinations(sv).subrange(
                    0,
                    it.position() as int,
                ),
            decreases count(sv) - it.position(),
        {
            let ghost p = it.position();
            match it.next() {
                Some(w) => {
                    let ghost before = out@;
                    out.push(w);
                    proof {
                        assert(views(out@) =~= views(before).push(w@));
                        assert(views(out@) =~= combinations(sv).subrange(0, p as int + 1));
                    }
                },
                None => {
                    proof {
                        assert(combinations(sv).subrange(0, count(sv) as int) =~= combinations(
                            sv,
                        ));
                    }
                    return out;
                },
            }
        }
    }
}

/// Produces, one at a time and in odometer order, the combinations that a
/// generator's filter lets through.
pub struct WordIter<'a> {
    generator: &'a WordGenerator,
    odometer: Odometer,
}

impl<'a> WordIter<'a> {
    pub closed spec fn slots_view(&self) -> Seq<Seq<char>> {
        self.generator.slots_view()
    }

    pub closed spec fn filter_view(&self) -> Option<Set<Seq<char>>> {
        self.generator.filter_view()
    }

    /// How many combinations have been looked at.
    pub closed spec fn position(&self) -> nat {
        self.odometer.pos@
    }

    pub closed spec fn wf(&self) -> bool {
        self.odometer.wf(self.slots_view())
    }

    /// A well-formed iterator has looked at no more combinations than exist.
    pub proof fn lemma_position_bound(&self)
        requires
            self.wf(),
        ensures
            self.position() <= count(self.slots_view()),
    {
    }

    fn new(generator: &'a WordGenerator) -> (r: Self)
        ensures
            r.wf(),
            r.generator == generator,
            r.position() == 0,
    {
        WordIter { generator, odometer: Odometer::new(generator.slots.as_slice()) }
    }

    /// The next combination that the filter lets through, or `None` when no
    /// combination is left.
    pub fn next(&mut self) -> (r: Option<String>)
        requires
            old(self).wf(),
        ensures
            final(self).wf(),
            final(self).slots_view() == old(self).slots_view(),
            final(self).filter_view() == old(self).filter_view(),
            old(self).position() <= final(self).position() <= count(old(self).slots_view()),
            selected_upto(old(self).slots_view(), old(self).filter_view(), final(self).position())
                == selected_upto(old(self).slots_view(), old(self).filter_view(), old(self).position())
                + match r {
                    Some(w) => seq![w@],
                    None => Seq::<Seq<char>>::empty(),
                },
            r is None ==> final(self).position() == count(old(self).slots_view()),
            r matches Some(w) ==> {
                &&& old(self).position() < final(self).position()
                &&& w@ == combinations(old(self).slots_view())[final(self).position() - 1]
                &&& passes(old(self).filter_view(), w@)
            },
    {
        let ghost sv = self.slots_view();
        let ghost f = self.filter_view();
        let ghost start = self.odometer.pos@;
        let slots = self.generator.slots.as_slice();
        if self.odometer.done {
            return None;
        }
        loop
            invariant
                self.generator == old(self).generator,
                sv == self.slots_view(),
                f == self.filter_view(),
                sv == slot_views(slots@),
                self.wf(),
                start <= self.position() <= count(sv),
                start == old(self).position(),
                selected_upto(sv, f, self.position()) == selected_upto(sv, f, start),
                !self.odometer.done,
            decreases count(sv) - self.position(),
        {
            let ghost p = self.odometer.pos@;
            let word = self.odometer.build_word(slots);
            let more = self.odometer.increment(slots);
            let keep = self.generator.filter.passes(&word);
            proof {
                lemma_selected_step(sv, f, p);
                let prev = selected_upto(sv, f, p);
                assert(prev + Seq::<Seq<char>>::empty() =~= prev);
            }
            if keep {
                return Some(word);
            }
            if !more {
                return None;
            }
        }
    }
}

/// Produces every combination of a sequence of slots, one at a time and in
/// odometer order.
pub struct AllCombinationsIter<'a> {
    slots: &'a [Slot],
    odometer: Odometer,
}

impl<'a> AllCombinationsIter<'a> {
    pub closed spec fn slots_view(&self) -> Seq<Seq<char>> {
        slot_views(self.slots@)
    }

    /// How many combinations have been produced.
    pub closed spec fn position(&self) -> nat {
        self.odometer.pos@
    }

    pub closed spec fn wf(&self) -> bool {
        self.odometer.wf(self.slots_view())
    }

    /// A well-formed iterator has produced no more combinations than exist.
    pub proof fn lemma_position_bound(&self)
        requires
            self.wf(),
        ensures
            self.position() <= count(self.slots_view()),
    {
    }

    fn new(slots: &'a [Slot]) -> (r: Self)
        ensures
            r.wf(),
            r.slots_view() == slot_views(slots@),
            r.position() == 0,
    {
        AllCombinationsIter { slots, odometer: Odometer::new(slots) }
    }

    /// The next combination, or `None` once all have been produced.
    pub fn next(&mut self) -> (r: Option<String>)
        requires
            old(self).wf(),
        ensures
            final(self).wf(),
            final(self).slots_view() == old(self).slots_view(),
            old(self).position() < count(old(self).slots_view()) ==> {
                &&& r matches Some(w)
                &&& w@ == combinations(old(self).slots_view())[old(self).position() as int]
                &&& final(self).position() == old(self).position() + 1
            },
            old(self).position() == count(old(self).slots_view()) ==> {
                &&& r is None
                &&& final(self).position() == old(self).position()
            },
            final(self).position() <= count(final(self).slots_view()),
            r matches Some(w) ==> {
                &&& w@.len() == old(self).slots_view().len()
                &&& forall|i: int|
                    0 <= i < w@.len() ==> old(self).slots_view()[i].contains(#[trigger] w@[i])
            },
    {
        if self.odometer.done {
            return None;
        }
        let word = self.odometer.build_word(self.slots);
        proof {
            lemma_cardinality(self.slots_view());
        }
        self.odometer.increment(self.slots);
        Some(word)
    }
}

} // verus!
