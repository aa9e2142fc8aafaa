use vstd::prelude::*;
use crate::word::Word;
use crate::word::first_five;
use crate::word::words_contain;
use crate::word::words_view;

verus! {

/// Character-by-character string equality.
pub fn str_eq(a: &str, b: &str) -> (r: bool)
    ensures
        r == (a@ == b@),
{
    let na = a.unicode_len();
    let nb = b.unicode_len();
    if na != nb {
        return false;
    }
    let mut i: usize = 0;
    while i < na
        invariant
            na == a@.len(),
            a@.len() == b@.len(),
            i <= na,
            forall|j: int| 0 <= j < i ==> a@[j] == b@[j],
        decreases na - i,
    {
        if a.get_char(i) != b.get_char(i) {
            return false;
        }
        i += 1;
    }
    proof {
        assert(a@ =~= b@);
    }
    true
}

/// The closed set of part-of-speech tags of the source corpus.
#[derive(Copy, Clone, Debug, PartialEq, Eq, Structural)]
pub enum PartOfLanguage {
    Noun,
    Pronoun,
    PredicateWord,
    Part,
    Verb,
    Adverb,
    AdAdverb,
    Adjective,
    Preposition,
    Numeral,
    Conjunction,
    Exclamation,
    Parenthesis,
    MaleName,
    FemaleName,
}

/// A record-level failure: the row is skipped, ingestion goes on. An
/// unrecognised tag is kept apart from a plainly malformed row.
#[derive(Copy, Clone, Debug, PartialEq, Eq, Structural)]
pub enum RecordError {
    MissingField,
    UnknownPartOfLanguage,
}

/// What tag text denotes which part of speech; texts outside the closed set
/// are a hard parse error for their row.
pub open spec fn spec_part_of(s: Seq<char>) -> Result<PartOfLanguage, RecordError> {
    if s == "іменник"@ {
        Ok(PartOfLanguage::Noun)
    } else if s == "займенник"@ {
        Ok(PartOfLanguage::Pronoun)
    } else if s == "присудкове слово"@ {
        Ok(PartOfLanguage::PredicateWord)
    } else if s == "частка"@ {
        Ok(PartOfLanguage::Part)
    } else if s == "прислівник"@ {
        Ok(PartOfLanguage::Adverb)
    } else if s == "дієприслівник"@ {
        Ok(PartOfLanguage::AdAdverb)
    } else if s == "прикметник"@ {
        Ok(PartOfLanguage::Adjective)
    } else if s == "прийменник"@ {
        Ok(PartOfLanguage::Preposition)
    } else if s == "дієслово"@ {
        Ok(PartOfLanguage::Verb)
    } else if s == "числівник"@ {
        Ok(PartOfLanguage::Numeral)
    } else if s == "сполучник"@ {
        Ok(PartOfLanguage::Conjunction)
    } else if s == "вигук"@ {
        Ok(PartOfLanguage::Exclamation)
    } else if s == "вставне слово"@ {
        Ok(PartOfLanguage::Parenthesis)
    } else if s == "чоловіче ім`я"@ {
        Ok(PartOfLanguage::MaleName)
    } else if s == "жіноче ім`я"@ {
        Ok(PartOfLanguage::FemaleName)
    } else {
        Err(RecordError::UnknownPartOfLanguage)
    }
}

impl PartOfLanguage {
    /// Parses a tag text against the closed set.
    pub fn parse(s: &str) -> (r: Result<PartOfLanguage, RecordError>)
        ensures
            r == spec_part_of(s@),
    {
        if str_eq(s, "іменник") {
            Ok(PartOfLanguage::Noun)
        } else if str_eq(s, "займенник") {
            Ok(PartOfLanguage::Pronoun)
        } else if str_eq(s, "присудкове слово") {
            Ok(PartOfLanguage::PredicateWord)
        } else if str_eq(s, "частка") {
            Ok(PartOfLanguage::Part)
        } else if str_eq(s, "прислівник") {
            Ok(PartOfLanguage::Adverb)
        } else if str_eq(s, "дієприслівник") {
            Ok(PartOfLanguage::AdAdverb)
        } else if str_eq(s, "прикметник") {
            Ok(PartOfLanguage::Adjective)
        } else if str_eq(s, "прийменник") {
            Ok(PartOfLanguage::Preposition)
        } else if str_eq(s, "дієслово") {
            Ok(PartOfLanguage::Verb)
        } else if str_eq(s, "числівник") {
            Ok(PartOfLanguage::Numeral)
        } else if str_eq(s, "сполучник") {
            Ok(PartOfLanguage::Conjunction)
        } else if str_eq(s, "вигук") {
            Ok(PartOfLanguage::Exclamation)
        } else if str_eq(s, "вставне слово") {
            Ok(PartOfLanguage::Parenthesis)
        } else if str_eq(s, "чоловіче ім`я") {
            Ok(PartOfLanguage::MaleName)
        } else if str_eq(s, "жіноче ім`я") {
            Ok(PartOfLanguage::FemaleName)
        } else {
            Err(RecordError::UnknownPartOfLanguage)
        }
    }
}

/// What char::is_lowercase returns: a fixed property of the character alone.
pub uninterp spec fn is_lowercase_char(c: char) -> bool;

/// Relies on char::is_lowercase: the Unicode lowercase property, a function
/// of the character alone.
#[verifier::external_body]
fn char_is_lowercase(c: char) -> (r: bool)
    ensures
        r == is_lowercase_char(c),
{
    c.is_lowercase()
}

/// The views of a row of cells.
pub open spec fn cells_view(row: Seq<String>) -> Seq<Seq<char>> {
    row.map_values(|s: String| s@)
}

/// The least index where the header holds exactly `name`.
pub open spec fn spec_find(h: Seq<Seq<char>>, name: Seq<char>) -> Option<int>
    decreases h.len(),
{
    if h.len() == 0 {
        None
    } else if h.first() == name {
        Some(0)
    } else {
        match spec_find(h.drop_first(), name) {
            Some(i) => Some(i + 1),
            None => None,
        }
    }
}

/// A found index is the least occurrence; a miss means no occurrence.
pub proof fn lemma_spec_find(h: Seq<Seq<char>>, name: Seq<char>)
    ensures
        (match spec_find(h, name) {
            Some(i) => 0 <= i < h.len() && h[i] == name && (forall|j: int|
                0 <= j < i ==> h[j] != name),
            None => forall|j: int| 0 <= j < h.len() ==> h[j] != name,
        }),
    decreases h.len(),
{
    if h.len() != 0 && h.first() != name {
        lemma_spec_find(h.drop_first(), name);
        match spec_find(h.drop_first(), name) {
            Some(k) => {
                assert(h[k + 1] == h.drop_first()[k]);
                assert forall|j: int| 0 <= j < k + 1 implies h[j] != name by {
                    if j > 0 {
                        assert(h.drop_first()[j - 1] != name);
                    }
                }
            },
            None => {
                assert forall|j: int| 0 <= j < h.len() implies h[j] != name by {
                    if j > 0 {
                        assert(h.drop_first()[j - 1] != name);
                    }
                }
            },
        }
    }
}

/// The least occurrence determines the find result.
proof fn lemma_spec_find_some(h: Seq<Seq<char>>, name: Seq<char>, i: int)
    requires
        0 <= i < h.len(),
        h[i] == name,
        forall|j: int| 0 <= j < i ==> h[j] != name,
    ensures
        spec_find(h, name) == Some(i),
    decreases h.len(),
{
    if i > 0 {
        lemma_spec_find_some(h.drop_first(), name, i - 1);
    }
}

/// No occurrence means no find result.
proof fn lemma_spec_find_none(h: Seq<Seq<char>>, name: Seq<char>)
    requires
        forall|j: int| 0 <= j < h.len() ==> h[j] != name,
    ensures
        spec_find(h, name) is None,
    decreases h.len(),
{
    if h.len() != 0 {
        lemma_spec_find_none(h.drop_first(), name);
    }
}

/// The first column whose header cell is exactly `name`.
fn find_index(header: &Vec<String>, name: &str) -> (r: Option<usize>)
    ensures
        (match r {
            Some(i) => spec_find(cells_view(header@), name@) == Some(i as int),
            None => spec_find(cells_view(header@), name@) is None,
        }),
{
    let mut i: usize = 0;
    while i < header.len()
        invariant
            i <= header@.len(),
            forall|j: int| 0 <= j < i ==> cells_view(header@)[j] != name@,
        decreases header@.len() - i,
    {
        if str_eq(header[i].as_str(), name) {
            proof {
                assert(cells_view(header@)[i as int] == name@);
                lemma_spec_find_some(cells_view(header@), name@, i as int);
            }
            return Some(i);
        }
        i += 1;
    }
    proof {
        lemma_spec_find_none(cells_view(header@), name@);
    }
    None
}

/// Ingestion failure: a required column name absent from the header. Fatal:
/// no partial dictionary is produced.
#[derive(Copy, Clone, Debug, PartialEq, Eq, Structural)]
pub enum SchemaError {
    MissingColumn,
}

/// Positional indices of the required fields in the header row.
#[derive(Copy, Clone, Debug, PartialEq, Eq, Structural)]
pub struct ColumnSchema {
    pub word_binary: usize,
    pub is_main_form: usize,
    pub part_of_language: usize,
    pub is_infinitive: usize,
    pub number: usize,
}

/// The schema a header resolves to: the least index of each required column
/// name, all of which must be present.
pub open spec fn spec_schema(h: Seq<Seq<char>>) -> Option<ColumnSchema> {
    let iw = spec_find(h, "word_binary"@);
    let im = spec_find(h, "is_main_form"@);
    let ip = spec_find(h, "part_of_language"@);
    let ii = spec_find(h, "is_infinitive"@);
    let iu = spec_find(h, "number"@);
    if iw is Some && im is Some && ip is Some && ii is Some && iu is Some {
        Some(
            (ColumnSchema {
                word_binary: iw.unwrap() as usize,
                is_main_form: im.unwrap() as usize,
                part_of_language: ip.unwrap() as usize,
                is_infinitive: ii.unwrap() as usize,
                number: iu.unwrap() as usize,
            }),
        )
    } else {
        None
    }
}

/// Resolves the required column names against the header, in any column
/// order; fails when one is absent.
pub fn resolve_schema(header: &Vec<String>) -> (r: Result<ColumnSchema, SchemaError>)
    ensures
        (match r {
            Ok(s) => spec_schema(cells_view(header@)) == Some(s),
            Err(e) => spec_schema(cells_view(header@)) is None && e == SchemaError::MissingColumn,
        }),
{
    let iw = find_index(header, "word_binary");
    let im = find_index(header, "is_main_form");
    let ip = find_index(header, "part_of_language");
    let ii = find_index(header, "is_infinitive");
    let iu = find_index(header, "number");
    match (iw, im, ip, ii, iu) {
        (Some(word_binary), Some(is_main_form), Some(part_of_language), Some(is_infinitive), Some(
            number,
        )) => Ok(
            ColumnSchema { word_binary, is_main_form, part_of_language, is_infinitive, number },
        ),
        _ => Err(SchemaError::MissingColumn),
    }
}

/// One raw record's typed fields.
#[derive(Debug)]
pub struct Record {
    pub word: String,
    pub part: PartOfLanguage,
    pub is_main_form: bool,
    pub is_infinitive: bool,
}

/// The typed fields a row parses to under a schema: word text, part of
/// speech, main-form flag, infinitive flag.
pub open spec fn spec_record(row: Seq<Seq<char>>, s: ColumnSchema) -> Result<
    (Seq<char>, PartOfLanguage, bool, bool),
    RecordError,
> {
    if s.word_binary >= row.len() || s.part_of_language >= row.len() || s.is_main_form
        >= row.len() || s.is_infinitive >= row.len() {
        Err(RecordError::MissingField)
    } else {
        match spec_part_of(row[s.part_of_language as int]) {
            Err(e) => Err(RecordError::UnknownPartOfLanguage),
            Ok(p) => Ok(
                (
                    row[s.word_binary as int],
                    p,
                    row[s.is_main_form as int] == "1"@,
                    row[s.is_infinitive as int] == "1"@,
                ),
            ),
        }
    }
}

/// The record validity rule on a word that is a noun: main form, and a
/// lowercase first character (an empty word passes the character test).
pub open spec fn spec_noun_valid(word: Seq<char>, is_main_form: bool) -> bool {
    is_main_form && (word.len() == 0 || is_lowercase_char(word[0]))
}

/// The full validity rule: only nouns are ever accepted, they must pass the
/// noun rule, and the word must hold exactly five characters.
pub open spec fn spec_record_valid(word: Seq<char>, part: PartOfLanguage, is_main_form: bool) -> bool {
    (match part {
        PartOfLanguage::Noun => spec_noun_valid(word, is_main_form),
        _ => false,
    }) && word.len() == 5
}

impl Record {
    /// Extracts the typed fields of one row under the schema; a missing cell
    /// or an unrecognised tag fails this row alone.
    pub fn from_row(row: &Vec<String>, schema: &ColumnSchema) -> (r: Result<Record, RecordError>)
        ensures
            (match r {
                Ok(rec) => spec_record(cells_view(row@), *schema) == Ok::<_, RecordError>(
                    (rec.word@, rec.part, rec.is_main_form, rec.is_infinitive),
                ),
                Err(e) => spec_record(cells_view(row@), *schema) == Err::<
                    (Seq<char>, PartOfLanguage, bool, bool),
                    _,
                >(e),
            }),
    {
        if schema.word_binary >= row.len() || schema.part_of_language >= row.len()
            || schema.is_main_form >= row.len() || schema.is_infinitive >= row.len() {
            return Err(RecordError::MissingField);
        }
        let part = match PartOfLanguage::parse(row[schema.part_of_language].as_str()) {
            Ok(p) => p,
            Err(e) => {
                return Err(e);
            },
        };
        let word = row[schema.word_binary].clone();
        let is_main_form = str_eq(row[schema.is_main_form].as_str(), "1");
        let is_infinitive = str_eq(row[schema.is_infinitive].as_str(), "1");
        Ok(Record { word, part, is_main_form, is_infinitive })
    }

    /// Whether the word holds exactly five characters.
    pub fn is_length_valid(&self) -> (r: bool)
        ensures
            r == (self.word@.len() == 5),
    {
        self.word.as_str().unicode_len() == 5
    }

    /// Whether the record is in main form with a lowercase first character.
    pub fn is_noun_valid(&self) -> (r: bool)
        ensures
            r == spec_noun_valid(self.word@, self.is_main_form),
    {
        self.is_main_form && (self.word.as_str().unicode_len() == 0 || char_is_lowercase(
            self.word.as_str().get_char(0),
        ))
    }

    /// The full validity rule of the record.
    pub fn is_valid(&self) -> (r: bool)
        ensures
            r == spec_record_valid(self.word@, self.part, self.is_main_form),
    {
        let valid = match self.part {
            PartOfLanguage::Noun => self.is_noun_valid(),
            _ => false,
        };
        valid && self.is_length_valid()
    }

    /// The word text, exactly when the record is valid.
    pub fn valid_word(&self) -> (r: Option<&str>)
        ensures
            (match r {
                Some(t) => spec_record_valid(self.word@, self.part, self.is_main_form) && t@
                    == self.word@,
                None => !spec_record_valid(self.word@, self.part, self.is_main_form),
            }),
    {
        if self.is_valid() {
            Some(self.word.as_str())
        } else {
            None
        }
    }
}

/// The word a row contributes: its word field, exactly when the row parses
/// under the resolved schema and passes the validity rule.
pub open spec fn spec_row_word(h: Seq<Seq<char>>, row: Seq<Seq<char>>) -> Option<Seq<char>> {
    match spec_schema(h) {
        None => None,
        Some(s) => match spec_record(row, s) {
            Err(e) => None,
            Ok(f) => if spec_record_valid(f.0, f.1, f.2) {
                Some(f.0)
            } else {
                None
            },
        },
    }
}

/// The views of the rows of a dataset.
pub open spec fn rows_view(rows: Seq<Vec<String>>) -> Seq<Seq<Seq<char>>> {
    rows.map_values(|r: Vec<String>| cells_view(r@))
}

/// The words a dataset yields: each row's valid word, deduplicated, in
/// first-seen order.
pub open spec fn spec_ingest_words(h: Seq<Seq<char>>, rows: Seq<Seq<Seq<char>>>) -> Seq<Seq<char>>
    decreases rows.len(),
{
    if rows.len() == 0 {
        Seq::empty()
    } else {
        let prev = spec_ingest_words(h, rows.drop_last());
        match spec_row_word(h, rows.last()) {
            None => prev,
            Some(w) => if prev.contains(w) {
                prev
            } else {
                prev.push(w)
            },
        }
    }
}

/// Applies a positional permutation: cell `i` of the result is cell `p[i]`
/// of the source.
pub open spec fn apply_perm(s: Seq<Seq<char>>, p: Seq<int>) -> Seq<Seq<char>> {
    Seq::new(p.len(), |i: int| s[p[i]])
}

/// Some position of `p` holds `k`.
pub open spec fn hits(p: Seq<int>, k: int) -> bool {
    exists|i: int| 0 <= i < p.len() && #[trigger] p[i] == k
}

/// `p` is a permutation of the positions below `n`.
pub open spec fn is_permutation(p: Seq<int>, n: int) -> bool {
    &&& p.len() == n
    &&& (forall|i: int| 0 <= i < n ==> 0 <= #[trigger] p[i] < n)
    &&& (forall|i: int, j: int| 0 <= i < n && 0 <= j < n && i != j ==> p[i] != p[j])
    &&& (forall|k: int| 0 <= k < n ==> #[trigger] hits(p, k))
}

/// At most one header cell holds exactly `name`.
pub open spec fn occurs_at_most_once(h: Seq<Seq<char>>, name: Seq<char>) -> bool {
    forall|i: int, j: int| 0 <= i < j < h.len() ==> !(h[i] == name && h[j] == name)
}

/// Each of the five required names names at most one column.
pub open spec fn unambiguous_header(h: Seq<Seq<char>>) -> bool {
    &&& occurs_at_most_once(h, "word_binary"@)
    &&& occurs_at_most_once(h, "is_main_form"@)
    &&& occurs_at_most_once(h, "part_of_language"@)
    &&& occurs_at_most_once(h, "is_infinitive"@)
    &&& occurs_at_most_once(h, "number"@)
}

/// A name that names at most one column is found under a permutation exactly
/// when it is found without, and the permutation maps the two indices
/// together.
proof fn lemma_find_perm(h: Seq<Seq<char>>, p: Seq<int>, name: Seq<char>)
    requires
        is_permutation(p, h.len() as int),
        occurs_at_most_once(h, name),
    ensures
        (match (spec_find(h, name), spec_find(apply_perm(h, p), name)) {
            (Some(i), Some(j)) => 0 <= j < p.len() && p[j] == i,
            (None, None) => true,
            _ => false,
        }),
{
    let hp = apply_perm(h, p);
    lemma_spec_find(h, name);
    lemma_spec_find(hp, name);
    match spec_find(h, name) {
        Some(i) => {
            assert(hits(p, i));
            let j0 = choose|j0: int| 0 <= j0 < p.len() && #[trigger] p[j0] == i;
            assert(hp[j0] == h[p[j0]]);
            if spec_find(hp, name) is None {
                assert(hp[j0] != name);
                assert(false);
            }
            let j = spec_find(hp, name).unwrap();
            assert(hp[j] == h[p[j]]);
            if p[j] != i {
                if p[j] < i {
                    assert(!(h[p[j]] == name && h[i] == name));
                } else {
                    assert(!(h[i] == name && h[p[j]] == name));
                }
                assert(false);
            }
        },
        None => {
            if spec_find(hp, name) is Some {
                let j = spec_find(hp, name).unwrap();
                assert(hp[j] == h[p[j]]);
                assert(false);
            }
        },
    }
}

/// An unambiguous header resolves under a permutation exactly when it
/// resolves without, and the permutation maps each field's column back.
proof fn lemma_schema_perm(h: Seq<Seq<char>>, p: Seq<int>)
    requires
        h.len() <= usize::MAX,
        is_permutation(p, h.len() as int),
        unambiguous_header(h),
    ensures
        (match (spec_schema(h), spec_schema(apply_perm(h, p))) {
            (Some(s), Some(sp)) => {
                &&& sp.word_binary < p.len() && p[sp.word_binary as int] == s.word_binary as int
                &&& sp.is_main_form < p.len() && p[sp.is_main_form as int] == s.is_main_form as int
                &&& sp.part_of_language < p.len() && p[sp.part_of_language as int]
                    == s.part_of_language as int
                &&& sp.is_infinitive < p.len() && p[sp.is_infinitive as int]
                    == s.is_infinitive as int
                &&& sp.number < p.len() && p[sp.number as int] == s.number as int
            },
            (None, None) => true,
            _ => false,
        }),
{
    lemma_spec_find(h, "word_binary"@);
    lemma_spec_find(h, "is_main_form"@);
    lemma_spec_find(h, "part_of_language"@);
    lemma_spec_find(h, "is_infinitive"@);
    lemma_spec_find(h, "number"@);
    lemma_spec_find(apply_perm(h, p), "word_binary"@);
    lemma_spec_find(apply_perm(h, p), "is_main_form"@);
    lemma_spec_find(apply_perm(h, p), "part_of_language"@);
    lemma_spec_find(apply_perm(h, p), "is_infinitive"@);
    lemma_spec_find(apply_perm(h, p), "number"@);
    lemma_find_perm(h, p, "word_binary"@);
    lemma_find_perm(h, p, "is_main_form"@);
    lemma_find_perm(h, p, "part_of_language"@);
    lemma_find_perm(h, p, "is_infinitive"@);
    lemma_find_perm(h, p, "number"@);
}

/// A row of the header's width contributes the same word under a
/// permutation of header and row alike.
proof fn lemma_row_word_perm(h: Seq<Seq<char>>, p: Seq<int>, row: Seq<Seq<char>>)
    requires
        h.len() <= usize::MAX,
        is_permutation(p, h.len() as int),
        unambiguous_header(h),
        row.len() == h.len(),
    ensures
        spec_row_word(apply_perm(h, p), apply_perm(row, p)) == spec_row_word(h, row),
{
    lemma_schema_perm(h, p);
    match spec_schema(h) {
        None => {
        },
        Some(s) => {
            let hp = apply_perm(h, p);
            let rp = apply_perm(row, p);
            let sp = spec_schema(hp).unwrap();
            lemma_spec_find(h, "word_binary"@);
            lemma_spec_find(h, "is_main_form"@);
            lemma_spec_find(h, "part_of_language"@);
            lemma_spec_find(h, "is_infinitive"@);
            assert(rp[sp.word_binary as int] == row[s.word_binary as int]);
            assert(rp[sp.is_main_form as int] == row[s.is_main_form as int]);
            assert(rp[sp.part_of_language as int] == row[s.part_of_language as int]);
            assert(rp[sp.is_infinitive as int] == row[s.is_infinitive as int]);
            assert(spec_record(rp, sp) == spec_record(row, s));
        },
    }
}

/// Law: ingestion does not depend on column order. Permuting the header and
/// every row by one permutation resolves the schema exactly when the
/// unpermuted dataset does, and yields exactly the same words.
pub proof fn lemma_ingest_order_independent(
    h: Seq<Seq<char>>,
    rows: Seq<Seq<Seq<char>>>,
    p: Seq<int>,
)
    requires
        h.len() <= usize::MAX,
        is_permutation(p, h.len() as int),
        unambiguous_header(h),
        forall|r: int| 0 <= r < rows.len() ==> (#[trigger] rows[r]).len() == h.len(),
    ensures
        (spec_schema(apply_perm(h, p)) is Some) == (spec_schema(h) is Some),
        spec_ingest_words(apply_perm(h, p), rows.map_values(|row: Seq<Seq<char>>| apply_perm(row, p)))
            == spec_ingest_words(h, rows),
    decreases rows.len(),
{
    lemma_schema_perm(h, p);
    let hp = apply_perm(h, p);
    let rp = rows.map_values(|row: Seq<Seq<char>>| apply_perm(row, p));
    if rows.len() == 0 {
        assert(spec_ingest_words(hp, rp) =~= spec_ingest_words(h, rows));
    } else {
        lemma_ingest_order_independent(h, rows.drop_last(), p);
        assert(rows.drop_last().map_values(|row: Seq<Seq<char>>| apply_perm(row, p)) =~= rp.drop_last());
        lemma_row_word_perm(h, p, rows.last());
        assert(rp.last() == apply_perm(rows.last(), p));
        assert(spec_row_word(hp, rp.last()) == spec_row_word(h, rows.last()));
    }
}

/// A row only contributes its word when the record is a five-character
/// main-form noun whose first character is lowercase.
pub proof fn lemma_row_word_conditions(h: Seq<Seq<char>>, row: Seq<Seq<char>>)
    ensures
        (match spec_row_word(h, row) {
            Some(w) => {
                &&& w.len() == 5
                &&& is_lowercase_char(w[0])
                &&& spec_schema(h) is Some
                &&& (match spec_record(row, spec_schema(h).unwrap()) {
                    Ok(f) => f.0 == w && f.1 == PartOfLanguage::Noun && f.2 == true,
                    Err(e) => false,
                })
            },
            None => true,
        }),
{
}

/// Law: every word a dataset yields has exactly five characters and stems
/// from some row that contributed it, that is, one whose record parsed to a
/// valid main-form noun.
pub proof fn lemma_ingest_words_valid(h: Seq<Seq<char>>, rows: Seq<Seq<Seq<char>>>)
    ensures
        forall|w: Seq<char>| #[trigger] spec_ingest_words(h, rows).contains(w) ==> w.len() == 5 && (
        exists|i: int| 0 <= i < rows.len() && #[trigger] spec_row_word(h, rows[i]) == Some(w)),
    decreases rows.len(),
{
    if rows.len() != 0 {
        lemma_ingest_words_valid(h, rows.drop_last());
        let prev = spec_ingest_words(h, rows.drop_last());
        assert forall|w: Seq<char>| #[trigger] spec_ingest_words(h, rows).contains(w) implies w.len()
            == 5 && (exists|i: int|
            0 <= i < rows.len() && #[trigger] spec_row_word(h, rows[i]) == Some(w)) by {
            let cur = spec_ingest_words(h, rows);
            let k = choose|k: int| 0 <= k < cur.len() && cur[k] == w;
            if k < prev.len() {
                assert(prev.contains(w));
                let i = choose|i: int|
                    0 <= i < rows.drop_last().len() && #[trigger] spec_row_word(
                        h,
                        rows.drop_last()[i],
                    ) == Some(w);
                assert(rows.drop_last()[i] == rows[i]);
                assert(spec_row_word(h, rows[i]) == Some(w));
            } else {
                assert(spec_row_word(h, rows.last()) == Some(w));
                lemma_row_word_conditions(h, rows.last());
                assert(rows[rows.len() - 1] == rows.last());
            }
        }
    }
}

/// Resolves the schema from the header, then streams the rows: each row that
/// parses and passes the validity rule contributes its word, once. Rows that
/// fail to parse are skipped; a missing column aborts the whole ingestion
/// with no partial output.
pub fn ingest(header: &Vec<String>, rows: &Vec<Vec<String>>) -> (r: Result<Vec<Word>, SchemaError>)
    ensures
        (match r {
            Ok(words) => spec_schema(cells_view(header@)) is Some && words_view(words@)
                == spec_ingest_words(cells_view(header@), rows_view(rows@)),
            Err(e) => spec_schema(cells_view(header@)) is None && e == SchemaError::MissingColumn,
        }),
{
    let schema = match resolve_schema(header) {
        Ok(s) => s,
        Err(e) => {
            return Err(e);
        },
    };
    let ghost hv = cells_view(header@);
    let mut words: Vec<Word> = Vec::new();
    let mut i: usize = 0;
    while i < rows.len()
        invariant
            spec_schema(hv) == Some(schema),
            hv == cells_view(header@),
            i <= rows@.len(),
            words_view(words@) =~= spec_ingest_words(hv, rows_view(rows@).take(i as int)),
        decreases rows@.len() - i,
    {
        let ghost prev = words@;
        match Record::from_row(&rows[i], &schema) {
            Err(e) => {
                proof {
                    assert(spec_row_word(hv, rows_view(rows@)[i as int]) is None);
                }
            },
            Ok(rec) => {
                match rec.valid_word() {
                    None => {
                        proof {
                            assert(spec_row_word(hv, rows_view(rows@)[i as int]) is None);
                        }
                    },
                    Some(t) => {
                        let w = Word::from_text(t);
                        proof {
                            assert(first_five(rec.word@) =~= rec.word@);
                            assert(spec_row_word(hv, rows_view(rows@)[i as int]) == Some(w@));
                        }
                        if !words_contain(&words, &w) {
                            let ghost wv = w@;
                            words.push(w);
                            proof {
                                assert(words_view(words@) =~= words_view(prev).push(wv));
                            }
                        }
                    },
                }
            },
        }
        proof {
            assert(rows_view(rows@).take(i + 1).drop_last() =~= rows_view(rows@).take(i as int));
            assert(words_view(words@) =~= spec_ingest_words(hv, rows_view(rows@).take(i + 1)));
        }
        i += 1;
    }
    proof {
        assert(rows_view(rows@).take(rows@.len() as int) =~= rows_view(rows@));
    }
    Ok(words)
}

} // verus!
