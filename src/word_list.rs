use std::collections::HashSet;
use vstd::prelude::*;

use crate::text::push_char;

verus! {

broadcast use vstd::seq::Seq::lemma_push_to_set_commute;

/// The words held by a set of strings.
pub open spec fn words_of(set: HashSet<String>) -> Set<Seq<char>> {
    set@.map(|w: String| w@)
}

/// Relies on `HashSet::contains`: a string is found exactly when an equal
/// string was inserted.
#[verifier::external_body]
pub(crate) fn contains_word(set: &HashSet<String>, w: &String) -> (r: bool)
    ensures
        r == words_of(*set).contains(w@),
{
    set.contains(w)
}

/// Relies on `HashSet::insert`: afterwards the set holds the string, and
/// nothing else changes.
#[verifier::external_body]
pub(crate) fn insert_word(set: &mut HashSet<String>, w: String)
    ensures
        words_of(*final(set)) == words_of(*old(set)).insert(w@),
{
    set.insert(w);
}

pub proof fn lemma_words_of_empty(set: HashSet<String>)
    ensures
        set@.is_empty() <==> words_of(set).is_empty(),
{
    if !set@.is_empty() {
        let w = choose|w: String| set@.contains(w);
        assert(words_of(set).contains(w@));
    }
}

/// The text cut at each `'\n'`; the last piece is what follows the last
/// newline, possibly empty.
pub open spec fn pieces(text: Seq<char>) -> Seq<Seq<char>>
    decreases text.len(),
{
    if text.len() == 0 {
        seq![seq![]]
    } else {
        let p = pieces(text.drop_last());
        if text.last() == '\n' {
            p.push(seq![])
        } else {
            p.update(p.len() - 1, p.last().push(text.last()))
        }
    }
}

pub proof fn lemma_pieces_nonempty(text: Seq<char>)
    ensures
        pieces(text).len() > 0,
    decreases text.len(),
{
    if text.len() > 0 {
        lemma_pieces_nonempty(text.drop_last());
    }
}

/// A line ended by `"\r\n"` loses the `'\r'` too.
pub open spec fn strip_cr(line: Seq<char>) -> Seq<char> {
    if line.len() > 0 && line.last() == '\r' {
        line.drop_last()
    } else {
        line
    }
}

/// The lines that a newline ended, without their terminators.
pub open spec fn ended_lines(text: Seq<char>) -> Seq<Seq<char>> {
    pieces(text).drop_last().map_values(|l: Seq<char>| strip_cr(l))
}

/// The lines of a text, one word per line: each line loses its `"\n"` or
/// `"\r\n"` terminator, and an empty text after the last newline is no line.
pub open spec fn lines(text: Seq<char>) -> Seq<Seq<char>> {
    let last = pieces(text).last();
    if last.len() == 0 {
        ended_lines(text)
    } else {
        ended_lines(text).push(last)
    }
}

fn string_of(chars: &Vec<char>) -> (s: String)
    ensures
        s@ == chars@,
{
    let mut s = String::new();
    let n = chars.len();
    for i in 0..n
        invariant
            n == chars@.len(),
            s@ == chars@.subrange(0, i as int),
    {
        push_char(&mut s, chars[i]);
        proof {
            assert(s@ =~= chars@.subrange(0, i + 1));
        }
    }
    proof {
        assert(s@ =~= chars@);
    }
    s
}

/// Reads a word list: one word per line, compared as written, with no
/// trimming beyond the line terminator.
pub fn parse_word_list(text: &str) -> (r: HashSet<String>)
    ensures
        words_of(r) == lines(text@).to_set(),
{
    let mut set: HashSet<String> = HashSet::new();
    let mut line: Vec<char> = Vec::new();
    let ghost mut seen: Seq<char> = seq![];
    proof {
        assert(words_of(set) =~= Set::<Seq<char>>::empty());
        assert(ended_lines(seen) =~= Seq::<Seq<char>>::empty());
    }
    for c in it: text.chars()
        invariant
            seen == text@.subrange(0, it.index()),
            it.seq() == text@,
            words_of(set) == ended_lines(seen).to_set(),
            line@ == pieces(seen).last(),
    {
        let ghost before = seen;
        proof {
            seen = seen.push(c);
            assert(seen.drop_last() =~= before);
            lemma_pieces_nonempty(before);
        }
        if c == '\n' {
            if line.len() > 0 && line[line.len() - 1] == '\r' {
                line.pop();
            }
            let word = string_of(&line);
            insert_word(&mut set, word);
            line = Vec::new();
            proof {
                assert(ended_lines(seen) =~= ended_lines(before).push(strip_cr(pieces(before).last())));
            }
        } else {
            line.push(c);
            proof {
                assert(ended_lines(seen) =~= ended_lines(before));
            }
        }
    }
    if line.len() > 0 {
        let word = string_of(&line);
        insert_word(&mut set, word);
    }
    proof {
        assert(seen =~= text@);
    }
    set
}

} // verus!
