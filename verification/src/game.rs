use vstd::prelude::*;
use itertools::Itertools;
use crate::library::Library;
use crate::word::Word;
use crate::word::words_contain;
use crate::word::words_view;

verus! {

/// Feedback for one guessed character: absent from the target, or present,
/// with a flag saying whether it sits in the right position.
#[derive(Copy, Clone, Debug, PartialEq, Eq, Structural)]
pub enum CharInfo {
    Wrong,
    Correct { correct_position: bool },
}

/// One cell of the render grid: empty, or a guessed character with its
/// feedback.
#[derive(Copy, Clone, Debug, PartialEq, Eq, Structural)]
pub enum Cell {
    Empty,
    Char { c: char, info: CharInfo },
}

/// Feedback for guessed character `g` at position `i`, judged against the
/// target. The membership branch makes no letter count accounting: every
/// occurrence of a target letter is marked present.
pub open spec fn spec_cell_info(target: Seq<char>, g: char, i: int) -> CharInfo {
    if target[i] == g {
        CharInfo::Correct { correct_position: true }
    } else if target.contains(g) {
        CharInfo::Correct { correct_position: false }
    } else {
        CharInfo::Wrong
    }
}

/// The cell a guessed word produces at position `i` of its row.
pub open spec fn spec_cell(target: Seq<char>, guess: Seq<char>, i: int) -> Cell {
    Cell::Char { c: guess[i], info: spec_cell_info(target, guess[i], i) }
}

/// The row of cells a guessed word produces against the target.
pub open spec fn spec_row(target: Seq<char>, guess: Seq<char>) -> Seq<Cell> {
    Seq::new(guess.len(), |i: int| spec_cell(target, guess, i))
}

/// A row of five empty cells.
pub open spec fn empty_row() -> Seq<Cell> {
    Seq::new(5, |i: int| Cell::Empty)
}

/// The six rows of the grid: one feedback row per guess made so far, empty
/// rows below them.
pub open spec fn spec_rows(target: Seq<char>, guesses: Seq<Seq<char>>) -> Seq<Seq<Cell>> {
    Seq::new(
        6,
        |i: int| if i < guesses.len() {
            spec_row(target, guesses[i])
        } else {
            empty_row()
        },
    )
}

/// All guessed characters, in guess order.
pub open spec fn flat_chars(guesses: Seq<Seq<char>>) -> Seq<char>
    decreases guesses.len(),
{
    if guesses.len() == 0 {
        Seq::empty()
    } else {
        flat_chars(guesses.drop_last()) + guesses.last()
    }
}

/// The distinct characters of `s`, each at its first occurrence, in order.
pub open spec fn dedup_first(s: Seq<char>) -> Seq<char>
    decreases s.len(),
{
    if s.len() == 0 {
        Seq::empty()
    } else {
        let prev = dedup_first(s.drop_last());
        if prev.contains(s.last()) {
            prev
        } else {
            prev.push(s.last())
        }
    }
}

/// The used-characters report: every character guessed so far, first-seen
/// order, each paired with whether the target holds it anywhere.
pub open spec fn spec_used_chars(target: Seq<char>, guesses: Seq<Seq<char>>) -> Seq<(char, bool)> {
    dedup_first(flat_chars(guesses)).map_values(|c: char| (c, target.contains(c)))
}

/// An immutable render snapshot: the six-by-five feedback grid and the
/// used-characters report.
#[derive(Debug)]
pub struct GameState {
    pub used_chars: Vec<(char, bool)>,
    pub rows: Vec<Vec<Cell>>,
}

/// Whether a snapshot is exactly the one that the guesses made so far
/// produce against the target.
pub open spec fn state_matches(gs: GameState, target: Seq<char>, guesses: Seq<Seq<char>>) -> bool {
    &&& gs.rows@.len() == 6
    &&& (forall|i: int| 0 <= i < 6 ==> (#[trigger] gs.rows@[i])@ == spec_rows(target, guesses)[i])
    &&& gs.used_chars@ == spec_used_chars(target, guesses)
}

/// Relies on Itertools::unique: keeps the first occurrence of each
/// character and drops later duplicates, preserving order.
#[verifier::external_body]
fn unique_chars(cs: &Vec<char>) -> (r: Vec<char>)
    ensures
        r@ == dedup_first(cs@),
{
    cs.iter().cloned().unique().collect()
}

/// A fresh row of five empty cells.
fn empty_cells() -> (cells: Vec<Cell>)
    ensures
        cells@ == empty_row(),
{
    let mut cells: Vec<Cell> = Vec::new();
    let mut i: usize = 0;
    while i < 5
        invariant
            i <= 5,
            cells@ =~= empty_row().take(i as int),
        decreases 5 - i,
    {
        cells.push(Cell::Empty);
        i += 1;
    }
    proof {
        assert(cells@ =~= empty_row());
    }
    cells
}

/// The feedback cells of one guessed row; a missing row renders empty.
pub fn cells_from(row: Option<&Word>, target: &Word) -> (cells: Vec<Cell>)
    requires
        (row matches Some(w) ==> w@.len() <= target@.len()),
    ensures
        (match row {
            Some(w) => cells@ == spec_row(target@, w@),
            None => cells@ == empty_row(),
        }),
{
    match row {
        None => empty_cells(),
        Some(w) => {
            let cs = w.iter();
            let n = cs.len();
            let mut cells: Vec<Cell> = Vec::new();
            let mut i: usize = 0;
            while i < n
                invariant
                    n == w@.len(),
                    i <= n,
                    w@.len() <= target@.len(),
                    cells@ =~= spec_row(target@, w@).take(i as int),
                decreases n - i,
            {
                let c = w.char_at(i);
                let info = if target.char_at(i) == c {
                    CharInfo::Correct { correct_position: true }
                } else if target.contains(&c) {
                    CharInfo::Correct { correct_position: false }
                } else {
                    CharInfo::Wrong
                };
                proof {
                    assert(spec_row(target@, w@)[i as int] == spec_cell(target@, w@, i as int));
                }
                cells.push(Cell::Char { c, info });
                i += 1;
            }
            proof {
                assert(cells@ =~= spec_row(target@, w@));
            }
            cells
        },
    }
}

/// All characters of the guessed words, in guess order.
fn all_chars(levels: &Vec<Word>) -> (r: Vec<char>)
    ensures
        r@ == flat_chars(words_view(levels@)),
{
    let mut r: Vec<char> = Vec::new();
    let mut i: usize = 0;
    while i < levels.len()
        invariant
            i <= levels@.len(),
            r@ =~= flat_chars(words_view(levels@).take(i as int)),
        decreases levels@.len() - i,
    {
        let cs = levels[i].iter();
        let mut j: usize = 0;
        while j < cs.len()
            invariant
                i < levels@.len(),
                j <= cs@.len(),
                cs@ == levels@[i as int]@,
                r@ =~= flat_chars(words_view(levels@).take(i as int)) + cs@.take(j as int),
            decreases cs@.len() - j,
        {
            r.push(cs[j]);
            j += 1;
        }
        proof {
            let gv = words_view(levels@);
            assert(gv.take(i + 1).drop_last() =~= gv.take(i as int));
            assert(cs@.take(cs@.len() as int) =~= cs@);
            assert(r@ =~= flat_chars(gv.take(i + 1)));
        }
        i += 1;
    }
    proof {
        let gv = words_view(levels@);
        assert(gv.take(gv.len() as int) =~= gv);
    }
    r
}

/// The used-characters report for the guesses made so far.
fn used_from(levels: &Vec<Word>, target: &Word) -> (r: Vec<(char, bool)>)
    ensures
        r@ == spec_used_chars(target@, words_view(levels@)),
{
    let flat = all_chars(levels);
    let uniq = unique_chars(&flat);
    let ghost wanted = spec_used_chars(target@, words_view(levels@));
    let mut r: Vec<(char, bool)> = Vec::new();
    let mut i: usize = 0;
    while i < uniq.len()
        invariant
            i <= uniq@.len(),
            uniq@ == dedup_first(flat_chars(words_view(levels@))),
            wanted == spec_used_chars(target@, words_view(levels@)),
            wanted.len() == uniq@.len(),
            r@ =~= wanted.take(i as int),
        decreases uniq@.len() - i,
    {
        let c = uniq[i];
        let m = target.contains(&c);
        r.push((c, m));
        i += 1;
    }
    proof {
        assert(r@ =~= wanted);
    }
    r
}

impl GameState {
    /// Builds the snapshot that the guesses made so far produce against the
    /// target.
    fn new(levels: &Vec<Word>, target: &Word) -> (gs: GameState)
        requires
            levels@.len() <= 6,
            forall|i: int| 0 <= i < levels@.len() ==> (#[trigger] levels@[i])@.len() <= target@.len(),
        ensures
            state_matches(gs, target@, words_view(levels@)),
    {
        let used_chars = used_from(levels, target);
        let ghost wanted = spec_rows(target@, words_view(levels@));
        let mut rows: Vec<Vec<Cell>> = Vec::new();
        let mut i: usize = 0;
        while i < 6
            invariant
                i <= 6,
                levels@.len() <= 6,
                forall|k: int| 0 <= k < levels@.len() ==> (#[trigger] levels@[k])@.len() <= target@.len(),
                wanted == spec_rows(target@, words_view(levels@)),
                rows@.len() == i,
                forall|k: int| 0 <= k < i ==> (#[trigger] rows@[k])@ == wanted[k],
            decreases 6 - i,
        {
            let row = if i < levels.len() {
                cells_from(Some(&levels[i]), target)
            } else {
                cells_from(None, target)
            };
            rows.push(row);
            i += 1;
        }
        GameState { used_chars, rows }
    }
}

/// Copies a row of cells.
fn copy_cells(v: &Vec<Cell>) -> (r: Vec<Cell>)
    ensures
        r@ == v@,
{
    let mut r: Vec<Cell> = Vec::new();
    let mut i: usize = 0;
    while i < v.len()
        invariant
            i <= v@.len(),
            r@ =~= v@.take(i as int),
        decreases v@.len() - i,
    {
        r.push(v[i]);
        i += 1;
    }
    proof {
        assert(r@ =~= v@);
    }
    r
}

impl Clone for GameState {
    /// A clone holds the same grid and the same used-characters report.
    fn clone(&self) -> (gs: GameState)
        ensures
            gs.used_chars@ == self.used_chars@,
            gs.rows@.len() == self.rows@.len(),
            forall|i: int|
                0 <= i < self.rows@.len() ==> (#[trigger] gs.rows@[i])@ == self.rows@[i]@,
    {
        let mut used_chars: Vec<(char, bool)> = Vec::new();
        let mut i: usize = 0;
        while i < self.used_chars.len()
            invariant
                i <= self.used_chars@.len(),
                used_chars@ =~= self.used_chars@.take(i as int),
            decreases self.used_chars@.len() - i,
        {
            used_chars.push(self.used_chars[i]);
            i += 1;
        }
        let mut rows: Vec<Vec<Cell>> = Vec::new();
        let mut j: usize = 0;
        while j < self.rows.len()
            invariant
                j <= self.rows@.len(),
                rows@.len() == j,
                forall|k: int| 0 <= k < j ==> (#[trigger] rows@[k])@ == self.rows@[k]@,
            decreases self.rows@.len() - j,
        {
            rows.push(copy_cells(&self.rows[j]));
            j += 1;
        }
        proof {
            assert(used_chars@ =~= self.used_chars@);
        }
        GameState { used_chars, rows }
    }
}

impl Default for GameState {
    /// The snapshot of a game with no guesses: an empty grid, no used
    /// characters.
    fn default() -> (gs: GameState)
        ensures
            (forall|t: Seq<char>| state_matches(gs, t, Seq::<Seq<char>>::empty())),
    {
        let mut rows: Vec<Vec<Cell>> = Vec::new();
        let mut i: usize = 0;
        while i < 6
            invariant
                i <= 6,
                rows@.len() == i,
                forall|k: int| 0 <= k < i ==> (#[trigger] rows@[k])@ == empty_row(),
            decreases 6 - i,
        {
            rows.push(empty_cells());
            i += 1;
        }
        let gs = GameState { used_chars: Vec::new(), rows };
        proof {
            assert forall|t: Seq<char>| state_matches(gs, t, Seq::<Seq<char>>::empty()) by {
                assert(flat_chars(Seq::<Seq<char>>::empty()) == Seq::<char>::empty());
                assert(dedup_first(Seq::<char>::empty()) == Seq::<char>::empty());
                assert(gs.used_chars@ =~= spec_used_chars(t, Seq::<Seq<char>>::empty()));
            }
        }
        gs
    }
}

/// Whether the game accepts no further guesses: it was won, or all six
/// rows are used.
pub open spec fn spec_terminal(guesses: Seq<Seq<char>>, won: bool) -> bool {
    won || guesses.len() >= 6
}

/// The state machine's transition: a submission is dropped when the game is
/// over or the word is not in the dictionary; otherwise it fills the next
/// row, and wins exactly when the rows now hold the target.
pub open spec fn spec_step(
    guesses: Seq<Seq<char>>,
    won: bool,
    target: Seq<char>,
    dict: Set<Seq<char>>,
    w: Seq<char>,
) -> (Seq<Seq<char>>, bool) {
    if spec_terminal(guesses, won) || !dict.contains(w) {
        (guesses, won)
    } else {
        (guesses.push(w), guesses.push(w).contains(target))
    }
}

/// A running game: the secret target, the guesses accepted so far, and the
/// render snapshot they produce.
pub struct Game {
    library: Library,
    word: Word,
    levels: Vec<Word>,
    is_won: bool,
    state: GameState,
}

impl Game {
    /// The secret word's characters.
    pub closed spec fn target(&self) -> Seq<char> {
        self.word@
    }

    /// The accepted guesses, in order.
    pub closed spec fn guesses(&self) -> Seq<Seq<char>> {
        words_view(self.levels@)
    }

    /// The dictionary the game validates guesses against.
    pub closed spec fn dictionary(&self) -> Set<Seq<char>> {
        self.library@
    }

    /// Whether the target has been guessed.
    pub closed spec fn won(&self) -> bool {
        self.is_won
    }

    /// A game is well formed when its bookkeeping agrees with its guesses:
    /// at most six of them, the win flag set exactly when the target is
    /// among them, and the stored snapshot the one they produce.
    pub closed spec fn wf(&self) -> bool {
        &&& self.levels@.len() <= 6
        &&& self.word@.len() == 5
        &&& self.library@.contains(self.word@)
        &&& (self.is_won <==> self.guesses().contains(self.word@))
        &&& (forall|i: int| 0 <= i < self.levels@.len() ==> (#[trigger] self.levels@[i])@.len() <= 5)
        &&& state_matches(self.state, self.word@, self.guesses())
    }

    /// Starts a game over a library, with a secret word drawn from it.
    pub fn new(library: Library, word: Word) -> (g: Game)
        requires
            word@.len() == 5,
            library@.contains(word@),
        ensures
            g.wf(),
            g.target() == word@,
            g.dictionary() == library@,
            g.guesses() == Seq::<Seq<char>>::empty(),
            !g.won(),
    {
        let g = Game {
            library,
            word,
            levels: Vec::new(),
            is_won: false,
            state: GameState::default(),
        };
        proof {
            assert(g.guesses() =~= Seq::<Seq<char>>::empty());
        }
        g
    }

    /// Submits a guess. A finished game and a word the dictionary does not
    /// hold are both left exactly as they were; an accepted word fills the
    /// next row and wins the game exactly when it is the target.
    pub fn submit(&mut self, word: Word)
        requires
            old(self).wf(),
        ensures
            final(self).wf(),
            final(self).target() == old(self).target(),
            final(self).dictionary() == old(self).dictionary(),
            (final(self).guesses(), final(self).won()) == spec_step(
                old(self).guesses(),
                old(self).won(),
                old(self).target(),
                old(self).dictionary(),
                word@,
            ),
            (spec_terminal(old(self).guesses(), old(self).won()) || !old(self).dictionary().contains(word@))
                ==> *final(self) == *old(self),
    {
        if self.is_end_game() {
            return ;
        }
        if !self.library.is_valid(&word) {
            return ;
        }
        proof {
            use_type_invariant(&word);
        }
        let ghost pushed = word;
        self.levels.push(word);
        proof {
            assert(self.guesses() =~= old(self).guesses().push(pushed@));
            assert forall|i: int| 0 <= i < self.levels@.len() implies (#[trigger] self.levels@[i])@.len()
                <= 5 by {
                if i < old(self).levels@.len() {
                    assert(self.levels@[i] == old(self).levels@[i]);
                } else {
                    assert(self.levels@[i] == pushed);
                }
            }
        }
        self.update_state();
    }

    /// The current render snapshot.
    pub fn state(&self) -> (gs: GameState)
        requires
            self.wf(),
        ensures
            state_matches(gs, self.target(), self.guesses()),
    {
        self.state.clone()
    }

    /// Whether the game accepts no further guesses.
    pub fn is_end_game(&self) -> (r: bool)
        ensures
            r == spec_terminal(self.guesses(), self.won()),
    {
        self.is_won || self.levels.len() >= 6
    }

    /// Whether the target has been guessed.
    pub fn is_victory(&self) -> (r: bool)
        ensures
            r == self.won(),
    {
        self.is_won
    }

    /// Recomputes the win flag and the snapshot after an accepted guess.
    fn update_state(&mut self)
        requires
            old(self).levels@.len() <= 6,
            old(self).word@.len() == 5,
            forall|i: int|
                0 <= i < old(self).levels@.len() ==> (#[trigger] old(self).levels@[i])@.len() <= 5,
        ensures
            final(self).library == old(self).library,
            final(self).word == old(self).word,
            final(self).levels == old(self).levels,
            final(self).is_won == (old(self).is_won || old(self).guesses().contains(old(self).word@)),
            state_matches(final(self).state, final(self).word@, final(self).guesses()),
    {
        if words_contain(&self.levels, &self.word) {
            self.is_won = true;
        }
        self.state = GameState::new(&self.levels, &self.word);
    }
}

/// Law: submitting the exact target of a game that is not yet over wins it
/// in this one step.
pub proof fn lemma_target_wins(
    guesses: Seq<Seq<char>>,
    won: bool,
    target: Seq<char>,
    dict: Set<Seq<char>>,
)
    requires
        !spec_terminal(guesses, won),
        dict.contains(target),
    ensures
        spec_step(guesses, won, target, dict, target).1,
{
    assert(guesses.push(target)[guesses.len() as int] == target);
}

/// The state machine run over a sequence of submissions, from the given
/// state.
pub open spec fn spec_run(
    guesses: Seq<Seq<char>>,
    won: bool,
    target: Seq<char>,
    dict: Set<Seq<char>>,
    ws: Seq<Seq<char>>,
) -> (Seq<Seq<char>>, bool)
    decreases ws.len(),
{
    if ws.len() == 0 {
        (guesses, won)
    } else {
        let stepped = spec_step(guesses, won, target, dict, ws.first());
        spec_run(stepped.0, stepped.1, target, dict, ws.drop_first())
    }
}

/// Valid guesses that all miss the target are all accepted, and none wins.
proof fn lemma_run_misses(
    guesses: Seq<Seq<char>>,
    target: Seq<char>,
    dict: Set<Seq<char>>,
    ws: Seq<Seq<char>>,
)
    requires
        !guesses.contains(target),
        guesses.len() + ws.len() <= 6,
        forall|i: int| 0 <= i < ws.len() ==> dict.contains(#[trigger] ws[i]),
        forall|i: int| 0 <= i < ws.len() ==> #[trigger] ws[i] != target,
    ensures
        spec_run(guesses, false, target, dict, ws).0 == guesses + ws,
        !spec_run(guesses, false, target, dict, ws).1,
    decreases ws.len(),
{
    if ws.len() == 0 {
        assert(guesses + ws =~= guesses);
    } else {
        let w = ws.first();
        let next = guesses.push(w);
        assert(!next.contains(target)) by {
            assert(forall|i: int|
                0 <= i < next.len() ==> #[trigger] next[i] != target);
        }
        assert(spec_step(guesses, false, target, dict, w) == (next, false));
        lemma_run_misses(next, target, dict, ws.drop_first());
        assert(next + ws.drop_first() =~= guesses + ws);
    }
}

/// Law: from a fresh game, six valid guesses, all distinct and all different
/// from the target, end the game lost: all six rows used and the win flag
/// never set.
pub proof fn lemma_six_misses_lose(target: Seq<char>, dict: Set<Seq<char>>, ws: Seq<Seq<char>>)
    requires
        ws.len() == 6,
        forall|i: int| 0 <= i < ws.len() ==> dict.contains(#[trigger] ws[i]),
        forall|i: int| 0 <= i < ws.len() ==> #[trigger] ws[i] != target,
        forall|i: int, j: int| 0 <= i < j < ws.len() ==> ws[i] != ws[j],
    ensures
        spec_run(Seq::empty(), false, target, dict, ws).0 == ws,
        !spec_run(Seq::empty(), false, target, dict, ws).1,
        spec_terminal(
            spec_run(Seq::empty(), false, target, dict, ws).0,
            spec_run(Seq::empty(), false, target, dict, ws).1,
        ),
{
    lemma_run_misses(Seq::empty(), target, dict, ws);
    assert(Seq::<Seq<char>>::empty() + ws =~= ws);
}

} // verus!
