use vstd::prelude::*;

verus! {

/// A guessable word: the first five characters of its source text, kept in
/// order and immutable after construction.
#[derive(Debug)]
pub struct Word {
    chars: Vec<char>,
}

/// The characters a word built from `s` holds: the first five characters of
/// `s`, or all of them when `s` is shorter.
pub open spec fn first_five(s: Seq<char>) -> Seq<char> {
    s.take(if s.len() < 5 { s.len() as int } else { 5 })
}

/// The character sequences of a sequence of words.
pub open spec fn words_view(ws: Seq<Word>) -> Seq<Seq<char>> {
    ws.map_values(|w: Word| w@)
}

/// Whether the vector holds a word with these characters.
pub fn words_contain(ws: &Vec<Word>, w: &Word) -> (r: bool)
    ensures
        r == words_view(ws@).contains(w@),
{
    let mut i: usize = 0;
    while i < ws.len()
        invariant
            i <= ws@.len(),
            forall|j: int| 0 <= j < i ==> ws@[j]@ != w@,
        decreases ws@.len() - i,
    {
        if &ws[i] == w {
            proof {
                assert(words_view(ws@)[i as int] == w@);
            }
            return true;
        }
        i += 1;
    }
    proof {
        assert forall|j: int| 0 <= j < words_view(ws@).len() implies words_view(ws@)[j] != w@ by {}
    }
    false
}

impl View for Word {
    type V = Seq<char>;

    /// The word as a mathematical sequence of characters.
    closed spec fn view(&self) -> Seq<char> {
        self.chars@
    }
}

/// Relies on String::push: appends one character to the string.
#[verifier::external_body]
pub(crate) fn push_char(t: &mut String, c: char)
    ensures
        final(t)@ == old(t)@.push(c),
{
    t.push(c);
}

impl Word {
    #[verifier::type_invariant]
    pub(crate) open spec fn capacity_inv(&self) -> bool {
        self@.len() <= 5
    }

    /// Builds a word from the first five characters of `s`; shorter input
    /// yields a shorter word, with no padding and no error.
    pub fn from_text(s: &str) -> (w: Word)
        ensures
            w@ == first_five(s@),
    {
        let n = s.unicode_len();
        let k = if n < 5 { n } else { 5 };
        let mut chars: Vec<char> = Vec::new();
        let mut i: usize = 0;
        while i < k
            invariant
                i <= k,
                k <= s@.len(),
                k == if s@.len() < 5 { s@.len() as int } else { 5 },
                chars@ =~= s@.take(i as int),
            decreases k - i,
        {
            chars.push(s.get_char(i));
            i += 1;
        }
        proof {
            assert(chars@ =~= first_five(s@));
        }
        Word { chars }
    }

    /// Character at a position; positions past the end are a caller error.
    pub fn char_at(&self, index: usize) -> (c: char)
        requires
            index < self@.len(),
        ensures
            c == self@[index as int],
    {
        self.chars[index]
    }

    /// The word's text, rebuilt character by character.
    pub fn word(&self) -> (t: String)
        ensures
            t@ == self@,
    {
        let mut t = String::new();
        let mut i: usize = 0;
        while i < self.chars.len()
            invariant
                i <= self.chars.len(),
                t@ =~= self@.take(i as int),
            decreases self.chars.len() - i,
        {
            push_char(&mut t, self.chars[i]);
            i += 1;
        }
        proof {
            assert(t@ =~= self@);
        }
        t
    }

    /// Whether the word holds the character anywhere.
    pub fn contains(&self, c: &char) -> (r: bool)
        ensures
            r == self@.contains(*c),
    {
        let mut i: usize = 0;
        while i < self.chars.len()
            invariant
                i <= self.chars.len(),
                forall|j: int| 0 <= j < i ==> self@[j] != *c,
            decreases self.chars.len() - i,
        {
            if self.chars[i] == *c {
                return true;
            }
            i += 1;
        }
        false
    }

    /// The characters of the word in stored order.
    pub fn iter(&self) -> (r: Vec<char>)
        ensures
            r@ == self@,
    {
        let mut r: Vec<char> = Vec::new();
        let mut i: usize = 0;
        while i < self.chars.len()
            invariant
                i <= self.chars.len(),
                r@ =~= self@.take(i as int),
            decreases self.chars.len() - i,
        {
            r.push(self.chars[i]);
            i += 1;
        }
        proof {
            assert(r@ =~= self@);
        }
        r
    }
}

impl Clone for Word {
    /// A clone holds the same characters.
    fn clone(&self) -> (w: Word)
        ensures
            w@ == self@,
    {
        proof {
            use_type_invariant(self);
        }
        let chars = self.iter();
        Word { chars }
    }
}

impl PartialEq for Word {
    /// Two words are equal when they hold the same characters in order.
    fn eq(&self, other: &Word) -> (r: bool)
    {
        if self.chars.len() != other.chars.len() {
            return false;
        }
        let mut i: usize = 0;
        while i < self.chars.len()
            invariant
                self@.len() == other@.len(),
                i <= self@.len(),
                forall|j: int| 0 <= j < i ==> self@[j] == other@[j],
            decreases self@.len() - i,
        {
            if self.chars[i] != other.chars[i] {
                return false;
            }
            i += 1;
        }
        proof {
            assert(self@ =~= other@);
        }
        true
    }
}

impl Eq for Word {

}

impl vstd::std_specs::cmp::PartialEqSpecImpl for Word {
    open spec fn obeys_eq_spec() -> bool {
        true
    }

    open spec fn eq_spec(&self, other: &Word) -> bool {
        self@ == other@
    }
}

} // verus!
