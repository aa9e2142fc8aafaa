use slovo::ColumnSchema;
use slovo::PartOfLanguage;
use slovo::Record;
use slovo::RecordError;
use slovo::SchemaError;
use slovo::Word;
use slovo::ingest;
use slovo::resolve_schema;
use slovo::str_eq;

fn s(x: &str) -> String {
    x.to_string()
}

fn header() -> Vec<String> {
    vec![
        s("word_binary"),
        s("is_main_form"),
        s("part_of_language"),
        s("is_infinitive"),
        s("number"),
    ]
}

fn row(word: &str, part: &str, main: &str, inf: &str) -> Vec<String> {
    vec![s(word), s(main), s(part), s(inf), s("1")]
}

#[test]
fn str_eq_agrees_with_equality() {
    assert!(str_eq("іменник", "іменник"));
    assert!(!str_eq("іменник", "займенник"));
    assert!(!str_eq("аб", "абв"));
    assert!(str_eq("", ""));
}

#[test]
fn parse_recognises_the_closed_set() {
    assert_eq!(PartOfLanguage::parse("іменник"), Ok(PartOfLanguage::Noun));
    assert_eq!(PartOfLanguage::parse("дієслово"), Ok(PartOfLanguage::Verb));
    assert_eq!(PartOfLanguage::parse("вигук"), Ok(PartOfLanguage::Exclamation));
    assert_eq!(PartOfLanguage::parse("жіноче ім`я"), Ok(PartOfLanguage::FemaleName));
    assert_eq!(
        PartOfLanguage::parse("щось інше"),
        Err(RecordError::UnknownPartOfLanguage)
    );
}

#[test]
fn schema_resolves_in_any_column_order() {
    let a = resolve_schema(&header()).unwrap();
    assert_eq!(
        a,
        ColumnSchema {
            word_binary: 0,
            is_main_form: 1,
            part_of_language: 2,
            is_infinitive: 3,
            number: 4,
        }
    );
    let permuted = vec![
        s("number"),
        s("is_infinitive"),
        s("part_of_language"),
        s("is_main_form"),
        s("word_binary"),
    ];
    let b = resolve_schema(&permuted).unwrap();
    assert_eq!(b.word_binary, 4);
    assert_eq!(b.is_main_form, 3);
    assert_eq!(b.part_of_language, 2);
    assert_eq!(b.is_infinitive, 1);
    assert_eq!(b.number, 0);
}

#[test]
fn schema_missing_column_fails() {
    let h = vec![s("word_binary"), s("is_main_form"), s("part_of_language"), s("number")];
    assert_eq!(resolve_schema(&h), Err(SchemaError::MissingColumn));
}

#[test]
fn record_fields_read_by_schema_index() {
    let schema = resolve_schema(&header()).unwrap();
    let rec = Record::from_row(&row("кабан", "іменник", "1", "0"), &schema).unwrap();
    assert_eq!(rec.word, "кабан");
    assert_eq!(rec.part, PartOfLanguage::Noun);
    assert!(rec.is_main_form);
    assert!(!rec.is_infinitive);
}

#[test]
fn record_unknown_tag_is_its_own_error() {
    let schema = resolve_schema(&header()).unwrap();
    let r = Record::from_row(&row("кабан", "новотвір", "1", "0"), &schema);
    assert_eq!(r.err(), Some(RecordError::UnknownPartOfLanguage));
}

#[test]
fn record_short_row_is_missing_field() {
    let schema = resolve_schema(&header()).unwrap();
    let r = Record::from_row(&vec![s("кабан"), s("1")], &schema);
    assert_eq!(r.err(), Some(RecordError::MissingField));
}

#[test]
fn validity_requires_noun_main_form_lowercase_five() {
    let schema = resolve_schema(&header()).unwrap();
    let ok = Record::from_row(&row("кабан", "іменник", "1", "0"), &schema).unwrap();
    assert!(ok.is_length_valid());
    assert!(ok.is_noun_valid());
    assert!(ok.is_valid());
    assert_eq!(ok.valid_word(), Some("кабан"));

    let verb = Record::from_row(&row("ходив", "дієслово", "1", "0"), &schema).unwrap();
    assert!(!verb.is_valid());
    assert_eq!(verb.valid_word(), None);

    let not_main = Record::from_row(&row("кабана", "іменник", "0", "0"), &schema).unwrap();
    assert!(!not_main.is_noun_valid());
    assert!(!not_main.is_valid());

    let upper = Record::from_row(&row("Кабан", "іменник", "1", "0"), &schema).unwrap();
    assert!(!upper.is_noun_valid());
    assert!(!upper.is_valid());

    let long = Record::from_row(&row("кабани", "іменник", "1", "0"), &schema).unwrap();
    assert!(!long.is_length_valid());
    assert!(!long.is_valid());
}

#[test]
fn three_records_yield_one_word() {
    let rows = vec![
        row("кабан", "іменник", "1", "0"),
        row("ходив", "дієслово", "1", "1"),
        row("лісом", "іменник", "0", "0"),
    ];
    let words = ingest(&header(), &rows).unwrap();
    assert_eq!(words.len(), 1);
    assert_eq!(words[0].word(), "кабан");
}

#[test]
fn missing_is_infinitive_aborts_ingestion() {
    let h = vec![s("word_binary"), s("is_main_form"), s("part_of_language"), s("number")];
    let rows = vec![vec![s("кабан"), s("1"), s("іменник"), s("1")]];
    assert_eq!(ingest(&h, &rows), Err(SchemaError::MissingColumn));
}

#[test]
fn unknown_tag_skips_only_its_row() {
    let rows = vec![
        row("кабан", "іменник", "1", "0"),
        row("дивне", "новотвір", "1", "0"),
        row("лелек", "іменник", "1", "0"),
    ];
    let words = ingest(&header(), &rows).unwrap();
    let texts: Vec<String> = words.iter().map(|w| w.word()).collect();
    assert_eq!(texts, vec!["кабан".to_string(), "лелек".to_string()]);
}

#[test]
fn short_rows_are_skipped() {
    let rows = vec![vec![s("кабан")], row("лелек", "іменник", "1", "0")];
    let words = ingest(&header(), &rows).unwrap();
    assert_eq!(words.len(), 1);
    assert_eq!(words[0].word(), "лелек");
}

#[test]
fn ingestion_deduplicates() {
    let rows = vec![
        row("кабан", "іменник", "1", "0"),
        row("кабан", "іменник", "1", "0"),
    ];
    let words = ingest(&header(), &rows).unwrap();
    assert_eq!(words.len(), 1);
}

#[test]
fn duplicate_header_name_resolves_to_first_occurrence() {
    let h = vec![
        s("number"),
        s("word_binary"),
        s("is_main_form"),
        s("part_of_language"),
        s("is_infinitive"),
        s("number"),
    ];
    let schema = resolve_schema(&h).unwrap();
    assert_eq!(schema.number, 0);
    assert_eq!(schema.word_binary, 1);
}

#[test]
fn empty_dataset_yields_no_words() {
    let words = ingest(&header(), &Vec::new()).unwrap();
    assert!(words.is_empty());
}

#[test]
fn empty_header_fails_resolution() {
    assert_eq!(resolve_schema(&Vec::new()), Err(SchemaError::MissingColumn));
}

#[test]
fn permuted_columns_yield_identical_words() {
    let rows = vec![
        row("кабан", "іменник", "1", "0"),
        row("ходив", "дієслово", "1", "1"),
        row("лелек", "іменник", "1", "0"),
    ];
    let straight = ingest(&header(), &rows).unwrap();

    // the same dataset with its columns in reverse order
    let rev = |v: &Vec<String>| v.iter().rev().cloned().collect::<Vec<String>>();
    let permuted_header = rev(&header());
    let permuted_rows: Vec<Vec<String>> = rows.iter().map(rev).collect();
    let permuted = ingest(&permuted_header, &permuted_rows).unwrap();

    let texts = |ws: &Vec<Word>| ws.iter().map(|w| w.word()).collect::<Vec<String>>();
    assert_eq!(texts(&straight), texts(&permuted));
}
