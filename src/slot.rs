use vstd::prelude::*;

verus! {

/// The candidate characters for one position of a word, in a fixed order.
///
/// Duplicates are kept as given, and a slot may be empty, in which case no
/// word can be built through it.
#[derive(Clone, Debug)]
pub struct Slot {
    options: Vec<char>,
}

impl View for Slot {
    type V = Seq<char>;

    closed spec fn view(&self) -> Seq<char> {
        self.options@
    }
}

impl Slot {
    /// Creates a slot from its candidate characters.
    pub fn new(options: Vec<char>) -> (r: Self)
        ensures
            r@ == options@,
    {
        Self { options }
    }

    /// The number of candidate characters.
    pub fn len(&self) -> (r: usize)
        ensures
            r == self@.len(),
    {
        self.options.len()
    }

    /// The candidate at position `i`.
    pub fn get(&self, i: usize) -> (c: char)
        requires
            i < self@.len(),
        ensures
            c == self@[i as int],
    {
        self.options[i]
    }

    /// The representative character of the slot: its first candidate.
    pub fn representative(&self) -> (c: char)
        requires
            self@.len() > 0,
        ensures
            c == self@[0],
    {
        self.options[0]
    }

    /// The representative character as a one-character string.
    pub fn to_string(&self) -> (s: String)
        requires
            self@.len() > 0,
        ensures
            s@ == seq![self@[0]],
    {
        let mut s = String::new();
        crate::text::push_char(&mut s, self.options[0]);
        s
    }

    /// All candidates, in order.
    pub fn chars(&self) -> (r: Vec<char>)
        ensures
            r@ == self@,
    {
        let mut r: Vec<char> = Vec::new();
        let n = self.options.len();
        for i in 0..n
            invariant
                n == self@.len(),
                r@ == self@.subrange(0, i as int),
        {
            r.push(self.options[i]);
        }
        r
    }
}

} // verus!
