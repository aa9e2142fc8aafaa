use slovo::Cell;
use slovo::CharInfo;
use slovo::Game;
use slovo::GameState;
use slovo::Library;
use slovo::Word;
use slovo::cells_from;
use slovo::encoded_word;

fn lib_of(words: &[&str]) -> Library {
    Library::from_words(words.iter().map(|t| Word::from_text(t)).collect())
}

fn same_state(a: &GameState, b: &GameState) -> bool {
    a.used_chars == b.used_chars && a.rows == b.rows
}

#[test]
fn fresh_game_has_empty_grid() {
    let game = Game::new(lib_of(&["кабан"]), Word::from_text("кабан"));
    let gs = game.state();
    assert!(gs.used_chars.is_empty());
    assert_eq!(gs.rows.len(), 6);
    for row in gs.rows.iter() {
        assert_eq!(row, &vec![Cell::Empty; 5]);
    }
    assert!(!game.is_end_game());
    assert!(!game.is_victory());
}

#[test]
fn invalid_guess_is_a_no_op() {
    let mut game = Game::new(lib_of(&["кабан", "банка"]), Word::from_text("кабан"));
    let before = game.state();
    game.submit(Word::from_text("лелек"));
    let after = game.state();
    assert!(same_state(&before, &after));
    assert!(!game.is_end_game());
}

#[test]
fn terminal_game_ignores_guesses() {
    let mut game = Game::new(lib_of(&["кабан", "банка"]), Word::from_text("кабан"));
    game.submit(Word::from_text("кабан"));
    assert!(game.is_end_game());
    let before = game.state();
    game.submit(Word::from_text("банка"));
    let after = game.state();
    assert!(same_state(&before, &after));
    assert!(game.is_victory());
}

#[test]
fn target_wins_after_misses() {
    let mut game = Game::new(
        lib_of(&["кабан", "банка", "лелек"]),
        Word::from_text("кабан"),
    );
    game.submit(Word::from_text("банка"));
    game.submit(Word::from_text("лелек"));
    assert!(!game.is_end_game());
    game.submit(Word::from_text("кабан"));
    assert!(game.is_victory());
    assert!(game.is_end_game());
}

#[test]
fn six_misses_lose() {
    let words = ["банка", "лелек", "хмара", "зорея", "мрія!", "пісня"];
    let mut all = vec!["кабан"];
    all.extend_from_slice(&words);
    let mut game = Game::new(lib_of(&all), Word::from_text("кабан"));
    for w in words.iter() {
        assert!(!game.is_end_game());
        game.submit(Word::from_text(w));
    }
    assert!(game.is_end_game());
    assert!(!game.is_victory());
    // and nothing is accepted any more
    let before = game.state();
    game.submit(Word::from_text("кабан"));
    assert!(same_state(&before, &game.state()));
    assert!(!game.is_victory());
}

#[test]
fn feedback_row_for_partial_overlap() {
    // target "кабан", guess "абрис": 'а' and 'б' are present but misplaced,
    // the rest are absent.
    let mut game = Game::new(
        lib_of(&["кабан", "абрис"]),
        Word::from_text("кабан"),
    );
    game.submit(Word::from_text("абрис"));
    let gs = game.state();
    let expected = vec![
        Cell::Char { c: 'а', info: CharInfo::Correct { correct_position: false } },
        Cell::Char { c: 'б', info: CharInfo::Correct { correct_position: false } },
        Cell::Char { c: 'р', info: CharInfo::Wrong },
        Cell::Char { c: 'и', info: CharInfo::Wrong },
        Cell::Char { c: 'с', info: CharInfo::Wrong },
    ];
    assert_eq!(gs.rows[0], expected);
    assert_eq!(gs.rows[1], vec![Cell::Empty; 5]);
}

#[test]
fn repeated_letters_all_marked_present() {
    // target "кабан" has one 'н'; the guess repeats 'н' and both
    // occurrences are marked present: no letter-count accounting.
    let mut game = Game::new(
        lib_of(&["кабан", "банан"]),
        Word::from_text("кабан"),
    );
    game.submit(Word::from_text("банан"));
    let gs = game.state();
    let expected = vec![
        Cell::Char { c: 'б', info: CharInfo::Correct { correct_position: false } },
        Cell::Char { c: 'а', info: CharInfo::Correct { correct_position: true } },
        Cell::Char { c: 'н', info: CharInfo::Correct { correct_position: false } },
        Cell::Char { c: 'а', info: CharInfo::Correct { correct_position: true } },
        Cell::Char { c: 'н', info: CharInfo::Correct { correct_position: true } },
    ];
    assert_eq!(gs.rows[0], expected);
}

#[test]
fn used_chars_first_seen_order_with_target_membership() {
    let mut game = Game::new(
        lib_of(&["кабан", "абрис", "банан"]),
        Word::from_text("кабан"),
    );
    game.submit(Word::from_text("абрис"));
    let gs = game.state();
    assert_eq!(
        gs.used_chars,
        vec![('а', true), ('б', true), ('р', false), ('и', false), ('с', false)]
    );
    game.submit(Word::from_text("банан"));
    let gs2 = game.state();
    assert_eq!(
        gs2.used_chars,
        vec![
            ('а', true),
            ('б', true),
            ('р', false),
            ('и', false),
            ('с', false),
            ('н', true),
        ]
    );
}

#[test]
fn cells_from_missing_row_is_empty() {
    let target = Word::from_text("кабан");
    assert_eq!(cells_from(None, &target), vec![Cell::Empty; 5]);
}

#[test]
fn encoded_word_is_standard_base64() {
    assert_eq!(encoded_word(&Word::from_text("кабан")), "0LrQsNCx0LDQvQ==");
    assert_eq!(encoded_word(&Word::from_text("абрис")), "0LDQsdGA0LjRgQ==");
}
