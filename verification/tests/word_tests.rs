use slovo::Word;

#[test]
fn from_text_takes_first_five_chars() {
    let w = Word::from_text("абетками");
    assert_eq!(w.word(), "абетк");
}

#[test]
fn from_text_keeps_short_input() {
    let w = Word::from_text("кіт");
    assert_eq!(w.word(), "кіт");
}

#[test]
fn from_text_empty() {
    let w = Word::from_text("");
    assert_eq!(w.word(), "");
    assert_eq!(w.iter().len(), 0);
}

#[test]
fn char_at_positions() {
    let w = Word::from_text("кабан");
    assert_eq!(w.char_at(0), 'к');
    assert_eq!(w.char_at(1), 'а');
    assert_eq!(w.char_at(4), 'н');
}

#[test]
fn contains_checks_membership() {
    let w = Word::from_text("кабан");
    assert!(w.contains(&'к'));
    assert!(w.contains(&'н'));
    assert!(!w.contains(&'и'));
}

#[test]
fn iter_yields_chars_in_order() {
    let w = Word::from_text("кабан");
    assert_eq!(w.iter(), vec!['к', 'а', 'б', 'а', 'н']);
}

#[test]
fn word_reconstructs_text() {
    let w = Word::from_text("кабан");
    assert_eq!(w.word(), "кабан");
}

#[test]
fn equality_is_by_characters() {
    assert_eq!(Word::from_text("кабан"), Word::from_text("кабан"));
    assert_ne!(Word::from_text("кабан"), Word::from_text("банка"));
    assert_ne!(Word::from_text("каба"), Word::from_text("кабан"));
}

#[test]
fn clone_keeps_characters() {
    let w = Word::from_text("кабан");
    let c = w.clone();
    assert_eq!(w, c);
    assert_eq!(c.word(), "кабан");
}
