use pali_search::algo_stemmer::StemmerTokenStream as AlgorithmicStream;
use pali_search::dict_stemmer::{DictionaryStemmer, StemmerTokenStream as DictionaryStream};
use pali_search::stop_words::most_frequent_words;
use pali_search::table::StemTable;
use pali_search::texts::{PaliText, Segment};
use pali_search::token::{Token, TokenList, TokenStream};
use pali_search::tokenizer::PaliTokenizer;
use pali_search::token::Tokenizer;
use pali_search::vocabulary::Vocabulary;
use tantivy::tokenizer::{TokenStream as _, Tokenizer as _};

/// Checks a token's position, text and byte offsets.
fn assert_token(token: &Token, position: usize, text: &str, from: usize, to: usize) {
    assert_eq!(token.position, position, "expected position {position}");
    assert_eq!(token.text, text, "expected text {text}");
    assert_eq!(token.offset_from, from, "expected offset_from {from}");
    assert_eq!(token.offset_to, to, "expected offset_to {to}");
}

/// The tokens of tantivy's whitespace tokenizer, as a stream of the library's tokens.
fn whitespace_tokens(text: &str) -> TokenList {
    let mut tokenizer = tantivy::tokenizer::WhitespaceTokenizer::default();
    let mut stream = tokenizer.token_stream(text);
    let mut tokens = Vec::new();
    while stream.advance() {
        let t = stream.token();
        tokens.push(Token {
            offset_from: t.offset_from,
            offset_to: t.offset_to,
            position: t.position,
            text: t.text.clone(),
            position_length: t.position_length,
        });
    }
    TokenList::new(tokens)
}

fn drain<S: TokenStream>(mut stream: S) -> Vec<Token> {
    let mut out = Vec::new();
    while stream.advance() {
        out.push(stream.token().duplicate());
    }
    out
}

#[test]
fn test_algorithmic_stemmer() {
    let tokens = drain(AlgorithmicStream::new(whitespace_tokens("Tatra kho bhagavā")));
    assert_token(&tokens[0], 0, "Tatr", 0, 5);
    assert_token(&tokens[1], 1, "kh", 6, 9);
    assert_token(&tokens[2], 2, "bhagav", 10, 18);
}

const DICT_STEM_DATA: &str = "\
term,dpd_stem
jumped,jump
jumping,jump
frog,";

#[test]
fn test_from_str() {
    let stemmer = DictionaryStemmer::try_from(DICT_STEM_DATA).ok().unwrap();
    assert_eq!(stemmer.get("jumped").unwrap(), "jump");
    assert_eq!(stemmer.get("jumping").unwrap(), "jump");
    assert_eq!(stemmer.get("frog"), None);
}

fn dictionary_tokens(text: &str) -> Vec<Token> {
    let stemmer = DictionaryStemmer::try_from(DICT_STEM_DATA).ok().unwrap();
    drain(DictionaryStream::new(whitespace_tokens(text), &stemmer))
}

#[test]
fn test_changes_token_to_stem_when_available() {
    let tokens = dictionary_tokens("jumping jumped frog");
    assert_token(&tokens[0], 0, "jump", 0, 7);
    assert_token(&tokens[1], 1, "jump", 8, 14);
    assert_token(&tokens[2], 2, "frog", 15, 19);
}

#[test]
fn test_token_unchanged_when_stem_unavailable() {
    let tokens = dictionary_tokens("abc xyz frog");
    assert_token(&tokens[0], 0, "abc", 0, 3);
    assert_token(&tokens[1], 1, "xyz", 4, 7);
    assert_token(&tokens[2], 2, "frog", 8, 12);
}

#[test]
fn test_most_frequent_words() {
    let segments = vec![
        Segment {
            uid: String::from("mn1:3.2"),
            text: String::from("pathaviṁ pathavito sañjānāti; "),
        },
        Segment {
            uid: String::from("mn1:3.3"),
            text: String::from(
                "pathaviṁ pathavito saññatvā pathaviṁ maññati,\
             pathaviyā maññati, pathavito maññati, pathaviṁ meti maññati, pathaviṁ abhinandati. ",
            ),
        },
    ];
    assert_eq!(
        most_frequent_words(segments, 2),
        vec![String::from("pathaviṁ"), String::from("maññati")]
    );
}

const TABLE_STEM_DATA: &str = "\
term,dpd_stem,snowball_stem
jumped,jump,jump
jumping,jump,jump
frog,,frog";

#[test]
fn test_try_from_reader() {
    let _table = StemTable::try_from(TABLE_STEM_DATA);
}

const TEXT_JSON: &str = r#"
    {
        "mn1:0.1": "Majjhima Nikāya 1 ",
        "mn1:0.2": "Mūlapariyāyasutta ",
        "mn1:1.1": "Evaṁ me sutaṁ—"
    }
    "#;

fn expected_segments() -> Vec<Segment> {
    vec![
        Segment {
            uid: String::from("mn1:0.1"),
            text: String::from("Majjhima Nikāya 1 "),
        },
        Segment {
            uid: String::from("mn1:0.2"),
            text: String::from("Mūlapariyāyasutta "),
        },
        Segment {
            uid: String::from("mn1:1.1"),
            text: String::from("Evaṁ me sutaṁ—"),
        },
    ]
}

fn pali_text_from_file() -> PaliText {
    PaliText::parse("/tmp/texts/mn1.json", TEXT_JSON).unwrap()
}

#[test]
fn test_parse_pali_json() {
    assert_eq!(pali_text_from_file().segments, expected_segments());
}

#[test]
fn test_pali_text_into_segment_iterator() {
    let segments: Vec<Segment> = pali_text_from_file().into_iter().collect();
    assert_eq!(segments, expected_segments());
}

#[test]
fn test_pali_text_has_uid() {
    assert_eq!(pali_text_from_file().uid, String::from("mn1"));
}

#[test]
fn test_tokenize_pali_words() {
    let tokenizer = PaliTokenizer::default();
    let tokens = drain(tokenizer.token_stream("Evaṁ me sutaṁ—"));
    assert_eq!(tokens.len(), 3);
    assert_token(&tokens[0], 0, "Evaṁ", 0, 6);
    assert_token(&tokens[1], 1, "me", 7, 9);
    assert_token(&tokens[2], 2, "sutaṁ", 10, 17);
}

#[test]
fn test_construct_from_segments() {
    let segments = vec![
        Segment {
            uid: String::from("a"),
            text: String::from("the cat sat"),
        },
        Segment {
            uid: String::from("b"),
            text: String::from("on the mat"),
        },
    ];
    // The Pāli tokenizer splits these texts at the spaces, as a whitespace tokenizer does.
    let mut vocabulary: Vec<String> = Vocabulary::new(segments, PaliTokenizer::default())
        .into_iter()
        .collect();
    vocabulary.sort();
    assert_eq!(vocabulary, vec!("cat", "mat", "on", "sat", "the"));
}
