mod encode;
mod game;
mod ingest;
mod library;
mod word;

pub use encode::base64_of;
pub use encode::encoded_word;
pub use ingest::ColumnSchema;
pub use ingest::apply_perm;
pub use ingest::hits;
pub use ingest::is_permutation;
pub use ingest::lemma_ingest_order_independent;
pub use ingest::lemma_ingest_words_valid;
pub use ingest::lemma_row_word_conditions;
pub use ingest::occurs_at_most_once;
pub use ingest::unambiguous_header;
pub use ingest::PartOfLanguage;
pub use ingest::Record;
pub use ingest::RecordError;
pub use ingest::SchemaError;
pub use ingest::cells_view;
pub use ingest::ingest;
pub use ingest::is_lowercase_char;
pub use ingest::lemma_spec_find;
pub use ingest::resolve_schema;
pub use ingest::rows_view;
pub use ingest::spec_find;
pub use ingest::spec_ingest_words;
pub use ingest::spec_noun_valid;
pub use ingest::spec_part_of;
pub use ingest::spec_record;
pub use ingest::spec_record_valid;
pub use ingest::spec_row_word;
pub use ingest::spec_schema;
pub use ingest::str_eq;

pub use game::Cell;
pub use game::CharInfo;
pub use game::Game;
pub use game::GameState;
pub use game::cells_from;
pub use game::dedup_first;
pub use game::empty_row;
pub use game::flat_chars;
pub use game::lemma_six_misses_lose;
pub use game::lemma_target_wins;
pub use game::spec_cell_info;
pub use game::spec_row;
pub use game::spec_rows;
pub use game::spec_run;
pub use game::spec_step;
pub use game::spec_terminal;
pub use game::spec_used_chars;
pub use game::state_matches;
pub use library::Library;
pub use library::lemma_ingested_library_words;
pub use library::lemma_word_set_members;
pub use library::word_set;
pub use word::Word;
pub use word::first_five;
pub use word::words_contain;
pub use word::words_view;
