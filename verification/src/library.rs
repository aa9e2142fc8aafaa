use vstd::prelude::*;
use std::rc::Rc;
use crate::ingest::spec_ingest_words;
use crate::ingest::spec_row_word;
use crate::word::Word;
use crate::word::words_view;

verus! {

/// The set of character sequences that a sequence of words denotes.
pub open spec fn word_set(ws: Seq<Word>) -> Set<Seq<char>> {
    Set::new(|w: Seq<char>| exists|i: int| 0 <= i < ws.len() && ws[i]@ == w)
}

/// The ingested dictionary: a deduplicated set of words, wrapped in a shared
/// read-only handle. Cloning shares the underlying storage.
pub struct Library {
    words: Rc<Vec<Word>>,
}

impl View for Library {
    type V = Set<Seq<char>>;

    /// The set of words the library holds, each as its character sequence.
    closed spec fn view(&self) -> Set<Seq<char>> {
        word_set(self.words@)
    }
}

/// Relies on Rc::clone: the clone refers to the same shared vector.
#[verifier::external_body]
fn share_words(r: &Rc<Vec<Word>>) -> (v: Rc<Vec<Word>>)
    ensures
        v@ == r@,
{
    Rc::clone(r)
}

/// Relies on Rc's Deref impl: borrows the shared vector.
#[verifier::external_body]
fn borrow_words<'a>(r: &'a Rc<Vec<Word>>) -> (v: &'a Vec<Word>)
    ensures
        v@ == r@,
{
    &**r
}

/// Relies on rand::Rng::gen_range over rand::thread_rng: returns an index
/// drawn uniformly below `n`.
#[verifier::external_body]
fn random_index(n: usize) -> (r: usize)
    requires
        n > 0,
    ensures
        r < n,
{
    rand::Rng::gen_range(&mut rand::thread_rng(), 0..n)
}

/// The set a word vector denotes holds exactly the character sequences of
/// its members.
pub proof fn lemma_word_set_members(ws: Seq<Word>)
    ensures
        forall|w: Seq<char>|
            #[trigger] word_set(ws).contains(w) <==> words_view(ws).contains(w),
{
    assert forall|w: Seq<char>| #[trigger] word_set(ws).contains(w)
        == words_view(ws).contains(w) by {
        if word_set(ws).contains(w) {
            let i = choose|i: int| 0 <= i < ws.len() && ws[i]@ == w;
            assert(words_view(ws)[i] == w);
        }
        if words_view(ws).contains(w) {
            let i = choose|i: int|
                0 <= i < words_view(ws).len() && words_view(ws)[i] == w;
            assert(ws[i]@ == w);
        }
    }
}

/// Law: every word a library surfaces, when it was built from a dataset's
/// ingested words, has exactly five characters and stems from a row whose
/// record passed the validity rule.
pub proof fn lemma_ingested_library_words(
    h: Seq<Seq<char>>,
    rows: Seq<Seq<Seq<char>>>,
    ws: Seq<Word>,
)
    requires
        words_view(ws) == spec_ingest_words(h, rows),
    ensures
        forall|w: Seq<char>| #[trigger] word_set(ws).contains(w) ==> w.len() == 5 && (exists|i: int|
            0 <= i < rows.len() && #[trigger] spec_row_word(h, rows[i]) == Some(w)),
{
    lemma_word_set_members(ws);
    crate::ingest::lemma_ingest_words_valid(h, rows);
}

/// Appending a word adds exactly its character sequence to the denoted set.
proof fn lemma_word_set_push(ws: Seq<Word>, w: Word)
    ensures
        word_set(ws.push(w)) =~= word_set(ws).insert(w@),
{
    assert forall|x: Seq<char>| word_set(ws.push(w)).contains(x) implies word_set(ws).insert(
        w@,
    ).contains(x) by {
        let i = choose|i: int| 0 <= i < ws.push(w).len() && ws.push(w)[i]@ == x;
        if i < ws.len() {
            assert(ws[i]@ == x);
            assert(word_set(ws).contains(x));
        }
    }
    assert forall|x: Seq<char>| word_set(ws).insert(w@).contains(x) implies word_set(
        ws.push(w),
    ).contains(x) by {
        if word_set(ws).contains(x) {
            let i = choose|i: int| 0 <= i < ws.len() && ws[i]@ == x;
            assert(ws.push(w)[i]@ == x);
        } else {
            assert(ws.push(w)[ws.len() as int]@ == x);
        }
    }
}

/// Whether the vector already holds a word with these characters.
fn has_word(ws: &Vec<Word>, w: &Word) -> (r: bool)
    ensures
        r == word_set(ws@).contains(w@),
{
    let mut i: usize = 0;
    while i < ws.len()
        invariant
            i <= ws@.len(),
            forall|j: int| 0 <= j < i ==> ws@[j]@ != w@,
        decreases ws@.len() - i,
    {
        if &ws[i] == w {
            return true;
        }
        i += 1;
    }
    false
}

impl Library {
    #[verifier::type_invariant]
    spec fn dedup_inv(&self) -> bool {
        forall|i: int, j: int|
            0 <= i < j < self.words@.len() ==> self.words@[i]@ != self.words@[j]@
    }

    /// Wraps the words in a read-only library, dropping duplicates.
    pub fn from_words(words: Vec<Word>) -> (lib: Library)
        ensures
            lib@ == word_set(words@),
    {
        let mut kept: Vec<Word> = Vec::new();
        let mut i: usize = 0;
        while i < words.len()
            invariant
                i <= words@.len(),
                forall|p: int, q: int| 0 <= p < q < kept@.len() ==> kept@[p]@ != kept@[q]@,
                word_set(kept@) =~= word_set(words@.take(i as int)),
            decreases words@.len() - i,
        {
            let ghost prev = kept@;
            let already = has_word(&kept, &words[i]);
            if !already {
                let c = words[i].clone();
                proof {
                    lemma_word_set_push(prev, c);
                }
                kept.push(c);
            }
            proof {
                assert(words@.take(i + 1) =~= words@.take(i as int).push(words@[i as int]));
                lemma_word_set_push(words@.take(i as int), words@[i as int]);
                if already {
                    assert(word_set(prev).insert(words@[i as int]@) =~= word_set(prev));
                }
                assert(word_set(kept@) =~= word_set(words@.take(i + 1)));
            }
            i += 1;
        }
        proof {
            assert(words@.take(words@.len() as int) =~= words@);
            assert(word_set(kept@) =~= word_set(words@));
        }
        Library { words: Rc::new(kept) }
    }

    /// A word drawn at random from the set; absent exactly when the set is
    /// empty.
    pub fn get_random(&self) -> (r: Option<Word>)
        ensures
            (r matches Some(w) ==> self@.contains(w@)),
            (r is None <==> self@ =~= Set::<Seq<char>>::empty()),
    {
        let ws = borrow_words(&self.words);
        if ws.len() == 0 {
            proof {
                assert(self@ =~= Set::<Seq<char>>::empty());
            }
            None
        } else {
            let i = random_index(ws.len());
            let w = ws[i].clone();
            proof {
                assert(self@.contains(w@));
                assert(!(self@ =~= Set::<Seq<char>>::empty())) by {
                    assert(self@.contains(ws@[0]@));
                }
            }
            Some(w)
        }
    }

    /// Exact membership in the ingested set.
    pub fn is_valid(&self, word: &Word) -> (r: bool)
        ensures
            r == self@.contains(word@),
    {
        let ws = borrow_words(&self.words);
        has_word(ws, word)
    }
}

impl Clone for Library {
    /// A clone shares the same immutable word set.
    fn clone(&self) -> (lib: Library)
        ensures
            lib@ == self@,
    {
        proof {
            use_type_invariant(self);
        }
        Library { words: share_words(&self.words) }
    }
}

} // verus!
