use pali_search::analyzers::{Analyzer, AnalyzerConfig};
use pali_search::characters::{char_set, other_characters, pali_characters};
use pali_search::dict_stemmer::DictionaryStemmer;
use pali_search::dpd::headword_ids;
use pali_search::snowball::algorithms::pali;
use pali_search::snowball::snowball_env::SnowballEnv;
use pali_search::snowball::{pali_stem, stem};
use pali_search::stop_words::most_frequent_words;
use pali_search::table::{StemTable, TableError};
use pali_search::texts::{PaliFiles, PaliText, Segment, TextError};
use pali_search::token::{Token, Tokenizer, TokenStream};
use pali_search::tokenizer::{tokenize, PaliTokenizer};
use pali_search::vocabulary::Vocabulary;

fn segment(uid: &str, text: &str) -> Segment {
    Segment { uid: String::from(uid), text: String::from(text) }
}

fn texts(tokens: &[Token]) -> Vec<String> {
    tokens.iter().map(|t| t.text.clone()).collect()
}

// The algorithmic stemmer.

#[test]
fn stem_removes_longest_ending() {
    assert_eq!(stem("gacchati"), "gacch");
    assert_eq!(stem("bhagavā"), "bhagav");
    assert_eq!(stem("dhammaṁ"), "dhamm");
    assert_eq!(stem("bhikkhūnaṃ"), "bhikkhūn");
    assert_eq!(pali_stem("gacchanta"), "gacch");
}

#[test]
fn stem_can_remove_whole_word() {
    assert_eq!(stem("anta"), "");
    assert_eq!(stem("a"), "");
}

#[test]
fn stem_keeps_word_without_ending() {
    assert_eq!(stem("buddh"), "buddh");
    assert_eq!(stem(""), "");
    assert_eq!(pali_stem("sukh"), "sukh");
}

#[test]
fn stem_of_stem_table_is_stem() {
    for word in ["vihar", "viharati", "saññatvā", "maññati"] {
        assert_eq!(pali_stem(word), stem(word));
    }
}

// The tokenizer.

#[test]
fn tokenize_splits_on_non_alphabet_characters() {
    assert_eq!(tokenize("Evaṁ me sutaṁ—"), vec!["Evaṁ", "me", "sutaṁ"]);
    assert_eq!(tokenize("mn1:3.2 fox"), vec!["mn", "fo"]);
    assert!(tokenize("").is_empty());
    assert!(tokenize("123 — ;").is_empty());
}

#[test]
fn token_offsets_are_bytes() {
    let tokenizer = PaliTokenizer::default();
    let mut stream = tokenizer.token_stream("ā ṁā");
    assert!(stream.advance());
    assert_eq!((stream.token().offset_from, stream.token().offset_to), (0, 2));
    assert!(stream.advance());
    assert_eq!(stream.token().text, "ṁā");
    assert_eq!((stream.token().offset_from, stream.token().offset_to, stream.token().position), (3, 8, 1));
    assert!(!stream.advance());
}

// Analyzers.

#[test]
fn plain_analyzer_lowercases() {
    let tokens = Analyzer::plain().analyze("Evaṁ ME Ānanda");
    assert_eq!(texts(&tokens), vec!["evaṁ", "me", "ānanda"]);
}

#[test]
fn algorithmic_analyzer_drops_stop_words_and_stems() {
    let tokens = Analyzer::algorithmic().analyze("Tatra kho bhagavā bhikkhū āmantesi");
    assert_eq!(texts(&tokens), vec!["tatr", "bhagav", "bhikkh", "āmant"]);
    assert_eq!((tokens[1].offset_from, tokens[1].offset_to, tokens[1].position), (10, 18, 2));
}

#[test]
fn dictionary_analyzer_replaces_known_terms() {
    let data = "term,dpd_stem,snowball_stem\nbhagavā,bhagavant,bhagav\nbhikkhū,,bhikkh\n";
    let analyzer = Analyzer::try_from_config(
        AnalyzerConfig::Dictionary { stem_file: String::from("stems.csv") },
        Some(data),
    )
    .ok()
    .unwrap();
    let tokens = analyzer.analyze("Tatra kho Bhagavā bhikkhū");
    assert_eq!(texts(&tokens), vec!["tatra", "bhagavant", "bhikkhū"]);
}

#[test]
fn algorithmic_config_needs_no_stem_data() {
    let analyzer = Analyzer::try_from_config(AnalyzerConfig::Algorithmic, None).ok().unwrap();
    assert_eq!(texts(&analyzer.analyze("Gacchati so")), vec!["gacch"]);
}

#[test]
fn dictionary_config_reports_table_errors() {
    let result = Analyzer::try_from_config(
        AnalyzerConfig::Dictionary { stem_file: String::from("stems.csv") },
        Some("dpd_stem,snowball_stem\na,b\n"),
    );
    assert!(matches!(result, Err(TableError::MissingColumn(ref name)) if name == "term"));
}

// Stem tables.

#[test]
fn stem_table_reads_records() {
    let table = StemTable::try_from("term,dpd_stem,snowball_stem\njumped,jump,jump\nfrog,,frog\n").ok().unwrap();
    let records = table.records();
    assert_eq!(records.len(), 2);
    assert_eq!(records[0].term, "jumped");
    assert_eq!(records[0].dpd_stem, Some(String::from("jump")));
    assert_eq!(records[1].dpd_stem, None);
    assert_eq!(records[1].snowball_stem, "frog");
}

#[test]
fn stem_table_finds_columns_by_name() {
    let table = StemTable::try_from("snowball_stem,extra,term\nx,y,z\n").ok().unwrap();
    let records = table.records();
    assert_eq!(records[0].term, "z");
    assert_eq!(records[0].snowball_stem, "x");
    assert_eq!(records[0].dpd_stem, None);
}

#[test]
fn stem_table_without_rows_is_empty() {
    let table = StemTable::try_from("anything\n").ok().unwrap();
    assert!(table.records().is_empty());
}

#[test]
fn stem_table_missing_column() {
    let result = StemTable::try_from("term,dpd_stem\njumped,jump\n");
    assert!(matches!(result, Err(TableError::MissingColumn(ref name)) if name == "snowball_stem"));
}

#[test]
fn stem_table_duplicate_column() {
    let result = StemTable::try_from("term,term,snowball_stem\na,b,c\n");
    assert!(matches!(result, Err(TableError::DuplicateColumn(ref name)) if name == "term"));
}

#[test]
fn stem_table_malformed_csv() {
    let result = StemTable::try_from("term,dpd_stem,snowball_stem\na,b\n");
    assert!(matches!(result, Err(TableError::Csv(_))));
}

#[test]
fn stem_table_from_vocabulary() {
    let vocabulary = Vocabulary::new(vec![segment("a", "Bhagavā gacchati bhagavā")], Analyzer::plain());
    let table = StemTable::new(vocabulary, vec![Some(String::from("bhagavant")), None]);
    let records = table.records();
    assert_eq!(records.len(), 2);
    assert_eq!(records[0].term, "bhagavā");
    assert_eq!(records[0].dpd_stem, Some(String::from("bhagavant")));
    assert_eq!(records[0].snowball_stem, "bhagav");
    assert_eq!(records[1].term, "gacchati");
    assert_eq!(records[1].dpd_stem, None);
    assert_eq!(records[1].snowball_stem, "gacch");
}

#[test]
fn dpd_stem_takes_first_stem() {
    assert_eq!(
        StemTable::dpd_stem(Some(vec![String::from("gam"), String::from("gacch")])),
        Some(String::from("gam"))
    );
    assert_eq!(StemTable::dpd_stem(Some(Vec::new())), None);
    assert_eq!(StemTable::dpd_stem(None), None);
}

// The dictionary stemmer.

#[test]
fn dictionary_stemmer_from_table_agrees_with_direct_reading() {
    let data = "term,dpd_stem,snowball_stem\njumped,jump,jump\nfrog,,frog\n";
    let direct = DictionaryStemmer::try_from(data).ok().unwrap();
    let table = StemTable::try_from(data).ok().unwrap();
    let via_table = DictionaryStemmer::from_table(&table);
    for term in ["jumped", "frog", "toad"] {
        assert_eq!(direct.get(term), via_table.get(term));
    }
    assert_eq!(via_table.get("jumped"), Some(String::from("jump")));
}

#[test]
fn dictionary_stemmer_later_row_wins() {
    let stemmer = DictionaryStemmer::try_from("term,dpd_stem\nx,first\nx,second\n").ok().unwrap();
    assert_eq!(stemmer.get("x"), Some(String::from("second")));
}

#[test]
fn dictionary_stemmer_missing_term_column() {
    let result = DictionaryStemmer::try_from("dpd_stem\njump\n");
    assert!(matches!(result, Err(TableError::MissingColumn(ref name)) if name == "term"));
}

// Texts.

#[test]
fn parse_takes_uid_from_file_stem() {
    let text = PaliText::parse("texts/sn/sn1.1_root-pli-ms.json", r#"{"sn1.1:1.1": "Evaṁ"}"#).unwrap();
    assert_eq!(text.uid, "sn1.1_root-pli-ms");
    assert_eq!(text.segments, vec![segment("sn1.1:1.1", "Evaṁ")]);
}

#[test]
fn parse_orders_segments_by_id() {
    let text = PaliText::parse("mn2.json", r#"{"b": "two", "a": "one"}"#).unwrap();
    assert_eq!(text.segments, vec![segment("a", "one"), segment("b", "two")]);
}

#[test]
fn parse_rejects_bad_json() {
    assert!(matches!(PaliText::parse("mn1.json", "[1, 2]"), Err(TextError::Json(_))));
    assert!(matches!(PaliText::parse("mn1.json", r#"{"a": 1}"#), Err(TextError::Json(_))));
}

#[test]
fn parse_rejects_path_without_file_stem() {
    assert!(matches!(PaliText::parse("", "{}"), Err(TextError::BadFileStem)));
}

#[test]
fn pali_files_are_root_texts() {
    assert!(PaliFiles::is_pali_file("ms/sutta/mn/mn1_root-pli-ms.json", true));
    assert!(!PaliFiles::is_pali_file("ms/sutta/mn/mn1_root-pli-ms.json", false));
    assert!(!PaliFiles::is_pali_file("en/sutta/mn/mn1_comment-en-sujato.json", true));
}

#[test]
fn segments_skip_unusable_files() {
    let files = PaliFiles::new(String::from("texts"));
    assert_eq!(files.location_str(), "texts");
    let segments = files.segments(vec![
        (String::from("texts/mn1_root-pli-ms.json"), Some(String::from(r#"{"mn1:1": "Evaṁ"}"#))),
        (String::from("texts/mn2_root-pli-ms.json"), None),
        (String::from("texts/mn3_root-pli-ms.json"), Some(String::from("not json"))),
        (String::from("texts/mn4_root-pli-ms.json"), Some(String::from(r#"{"mn4:2": "me", "mn4:1": "sutaṁ"}"#))),
    ]);
    assert_eq!(segments, vec![segment("mn1:1", "Evaṁ"), segment("mn4:1", "sutaṁ"), segment("mn4:2", "me")]);
}

#[test]
fn texts_report_each_file() {
    let files = PaliFiles::new(String::from("texts"));
    let texts = files.texts(vec![
        (String::from("texts/mn1_root-pli-ms.json"), Some(String::from("{}"))),
        (String::from("texts/mn2_root-pli-ms.json"), None),
    ]);
    assert!(matches!(&texts[0], Ok(text) if text.uid == "mn1_root-pli-ms" && text.segments.is_empty()));
    assert!(matches!(texts[1], Err(TextError::Unreadable)));
}

// Vocabulary and stop words.

#[test]
fn vocabulary_keeps_first_occurrences() {
    let vocabulary = Vocabulary::new(
        vec![segment("a", "Evaṁ me sutaṁ"), segment("b", "evaṁ ME suta")],
        Analyzer::plain(),
    );
    assert_eq!(vocabulary.terms(), vec![String::from("evaṁ"), String::from("me"), String::from("sutaṁ"), String::from("suta")]);
}

#[test]
fn vocabulary_add_text_uses_its_analyzer() {
    let mut vocabulary = Vocabulary::new(Vec::new(), Analyzer::algorithmic());
    vocabulary.add_text("Bhagavā kho bhagavā");
    let terms: Vec<String> = vocabulary.into_iter().collect();
    assert_eq!(terms, vec![String::from("bhagav")]);
}

#[test]
fn most_frequent_words_orders_ties_by_word() {
    let segments = vec![segment("x", "b a B, a c")];
    assert_eq!(most_frequent_words(segments, 2), vec![String::from("a"), String::from("b")]);
}

#[test]
fn most_frequent_words_with_few_words() {
    let segments = vec![segment("x", "b a b"), segment("y", "c")];
    assert_eq!(
        most_frequent_words(segments, 10),
        vec![String::from("b"), String::from("a"), String::from("c")]
    );
    assert!(most_frequent_words(vec![segment("x", "a")], 0).is_empty());
}

// The dictionary's lookup entries.

#[test]
fn headword_ids_reads_json_list() {
    assert_eq!(headword_ids("[12, 7, 300]").unwrap(), vec![12, 7, 300]);
    assert_eq!(headword_ids("[]").unwrap(), Vec::<u32>::new());
    assert!(headword_ids("[-1]").is_err());
    assert!(headword_ids("12").is_err());
}

// Character inventories.

#[test]
fn pali_characters_are_sorted_alphabet() {
    let chars = pali_characters();
    assert_eq!(chars.len(), 60);
    assert_eq!(chars[0], 'A');
    assert_eq!(chars[59], 'ṭ');
    assert!(chars.windows(2).all(|w| w[0] < w[1]));
}

#[test]
fn other_characters_lists_foreign_characters_once() {
    let alphabet = PaliTokenizer::default().alphabet;
    let segments = vec![segment("a", "Evaṁ me sutaṁ—"), segment("b", "x: ekaṁ—samayaṁ")];
    assert_eq!(other_characters(&alphabet, &segments), vec![' ', ':', 'x', '—']);
}

#[test]
fn char_set_sorts_and_dedups() {
    assert_eq!(char_set(&vec!['c', 'a', 'c', 'b']), vec!['a', 'b', 'c']);
    assert!(char_set(&Vec::new()).is_empty());
}

#[test]
fn stem_table_csv_reads_back() {
    let vocabulary = Vocabulary::new(vec![segment("a", "Bhagavā \"gacchati\", bhagavā")], Analyzer::plain());
    let table = StemTable::new(vocabulary, vec![Some(String::from("bhaga,vant")), None]);
    let text = table.to_csv();
    assert_eq!(text, "term,dpd_stem,snowball_stem\nbhagavā,\"bhaga,vant\",bhagav\ngacchati,,gacch\n");
    let read = StemTable::try_from(text.as_str()).ok().unwrap();
    let (a, b) = (read.records(), table.records());
    assert_eq!(a.len(), b.len());
    for (x, y) in a.iter().zip(b.iter()) {
        assert_eq!((&x.term, &x.dpd_stem, &x.snowball_stem), (&y.term, &y.dpd_stem, &y.snowball_stem));
    }
}

#[test]
fn empty_stem_table_csv_is_empty() {
    let table = StemTable::new(Vocabulary::new(Vec::new(), Analyzer::plain()), Vec::new());
    assert_eq!(table.to_csv(), "");
}

#[test]
fn pali_stems_end_with_root_marker() {
    assert!(PaliFiles::is_pali_stem("mn1_root-pli-ms"));
    assert!(PaliFiles::is_pali_stem("root-pli-ms"));
    assert!(!PaliFiles::is_pali_stem("oot-pli-ms"));
    assert!(!PaliFiles::is_pali_stem("mn1_root-pli-ms.json"));
}

#[test]
fn stem_borrows_unchanged_words() {
    assert!(matches!(stem("buddh"), std::borrow::Cow::Borrowed("buddh")));
    assert!(matches!(stem("gacchati"), std::borrow::Cow::Owned(ref s) if s == "gacch"));
}

#[test]
fn stemming_program_leaves_cursor() {
    let mut env = SnowballEnv::create("gacchati");
    assert!(pali::stem(&mut env));
    assert_eq!((env.current.as_str(), env.cursor), ("gacch", 0));
    let mut env = SnowballEnv::create("buddh");
    assert!(!pali::stem(&mut env));
    assert_eq!((env.current.as_str(), env.cursor), ("buddh", 5));
}

#[test]
fn exhausted_stream_has_empty_text() {
    let tokenizer = PaliTokenizer::default();
    let mut stream = tokenizer.token_stream("me");
    assert!(stream.advance());
    assert_eq!(stream.token().text, "me");
    assert!(!stream.advance());
    assert_eq!(stream.token().text, "");
    assert_eq!(stream.token().position, 1);
    assert!(!stream.advance());
    assert_eq!(stream.token().position, 2);
}

#[test]
fn tokenize_splits_at_separator() {
    let (a, b) = ("Evaṁ me", "sutaṁ ekaṁ");
    for c in [' ', ',', '—', '7'] {
        let joined = format!("{a}{c}{b}");
        assert_eq!(tokenize(&joined), [tokenize(a), tokenize(b)].concat());
    }
}

#[test]
fn empty_stem_file_is_empty_table() {
    let table = StemTable::try_from("").ok().unwrap();
    assert!(table.records().is_empty());
    let empty = StemTable::new(Vocabulary::new(Vec::new(), Analyzer::plain()), Vec::new());
    assert!(StemTable::try_from(empty.to_csv().as_str()).ok().unwrap().records().is_empty());
}

#[test]
fn vocabulary_with_any_tokenizer() {
    let letters = PaliTokenizer { alphabet: "abc".chars().collect() };
    let vocabulary = Vocabulary::new(vec![segment("a", "cab-bad aba cab")], letters);
    assert_eq!(vocabulary.terms(), vec![String::from("cab"), String::from("ba"), String::from("aba")]);
}

#[test]
fn texts_and_records_compare_and_clone() {
    let text = PaliText::parse("mn1.json", r#"{"a": "one"}"#).unwrap();
    assert!(text == text.clone());
    assert!(text != PaliText::parse("mn2.json", r#"{"a": "one"}"#).unwrap());
    let table = StemTable::try_from("term,dpd_stem,snowball_stem\na,b,c\n").ok().unwrap();
    let copy = table.clone();
    assert!(copy.records()[0] == table.records()[0]);
}
