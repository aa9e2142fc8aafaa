use slovo::Library;
use slovo::Word;

fn lib_of(words: &[&str]) -> Library {
    Library::from_words(words.iter().map(|t| Word::from_text(t)).collect())
}

#[test]
fn is_valid_is_exact_membership() {
    let lib = lib_of(&["кабан", "банка"]);
    assert!(lib.is_valid(&Word::from_text("кабан")));
    assert!(lib.is_valid(&Word::from_text("банка")));
    assert!(!lib.is_valid(&Word::from_text("лелек")));
    // wrong length is just absence
    assert!(!lib.is_valid(&Word::from_text("каба")));
    assert!(!lib.is_valid(&Word::from_text("")));
}

#[test]
fn get_random_none_iff_empty() {
    let empty = lib_of(&[]);
    assert!(empty.get_random().is_none());
    let one = lib_of(&["кабан"]);
    assert_eq!(one.get_random().unwrap().word(), "кабан");
}

#[test]
fn get_random_returns_a_member() {
    let lib = lib_of(&["кабан", "банка", "лелек"]);
    for _ in 0..20 {
        let w = lib.get_random().unwrap();
        assert!(lib.is_valid(&w));
    }
}

#[test]
fn clone_shares_the_same_set() {
    let lib = lib_of(&["кабан"]);
    let other = lib.clone();
    assert!(other.is_valid(&Word::from_text("кабан")));
    assert!(!other.is_valid(&Word::from_text("банка")));
}

#[test]
fn duplicate_words_collapse() {
    let lib = lib_of(&["кабан", "кабан"]);
    assert!(lib.is_valid(&Word::from_text("кабан")));
    // a single-member set always draws that member
    assert_eq!(lib.get_random().unwrap().word(), "кабан");
}
