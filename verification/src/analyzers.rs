//! Text analyzers: the Pāli tokenizer, lower-casing, stop word removal and a stemmer.
use crate::algo_stemmer::{algorithmic_stem_token, AlgorithmicStemmer, StemmerFilter as AlgorithmicFilter};
use crate::dict_stemmer::{
    dictionary_stem_token, pairs_map, records_pairs, DictionaryStemmer,
    StemmerFilter as DictionaryFilter,
};
use crate::filters::{
    lowercased_token, not_listed, string_views, without_words, LowerCaser, LowerCaserFilter, StopWordFilter,
    StopWordFilterWrapper,
};
use crate::table::{stem_table_result, StemTable, TableError, TableErrorView, TermStemView};
use crate::token::{collect_tokens, Token, TokenList, TokenStream, TokenView, Tokenizer};
use crate::tokenizer::{pali_tokens, PaliTokenizer};
use vstd::prelude::*;

verus! {

/// The Pāli words that the analyzers drop.
pub open spec fn pali_stop_words() -> Seq<Seq<char>> {
    seq![
        seq!['c', 'a'],
        seq!['t', 'i'],
        seq!['n', 'a'],
        seq!['p', 'e'],
        seq!['v', 'ā'],
        seq!['k', 'h', 'o'],
        seq!['h', 'o', 't', 'i'],
        seq!['b', 'h', 'i', 'k', 'k', 'h', 'a', 'v', 'e'],
        seq!['b'],
        seq!['s', 'o'],
    ]
}

/// The stop words as strings.
fn stop_words() -> (words: Vec<String>)
    ensures
        string_views(words@) == pali_stop_words(),
{
    let words = vec![
        String::from_str("ca"),
        String::from_str("ti"),
        String::from_str("na"),
        String::from_str("pe"),
        String::from_str("vā"),
        String::from_str("kho"),
        String::from_str("hoti"),
        String::from_str("bhikkhave"),
        String::from_str("b"),
        String::from_str("so"),
    ];
    proof {
        reveal_strlit("ca");
        reveal_strlit("ti");
        reveal_strlit("na");
        reveal_strlit("pe");
        reveal_strlit("vā");
        reveal_strlit("kho");
        reveal_strlit("hoti");
        reveal_strlit("bhikkhave");
        reveal_strlit("b");
        reveal_strlit("so");
        assert("ca"@ =~= seq!['c', 'a']);
        assert("ti"@ =~= seq!['t', 'i']);
        assert("na"@ =~= seq!['n', 'a']);
        assert("pe"@ =~= seq!['p', 'e']);
        assert("vā"@ =~= seq!['v', 'ā']);
        assert("kho"@ =~= seq!['k', 'h', 'o']);
        assert("hoti"@ =~= seq!['h', 'o', 't', 'i']);
        assert("bhikkhave"@ =~= seq!['b', 'h', 'i', 'k', 'k', 'h', 'a', 'v', 'e']);
        assert("b"@ =~= seq!['b']);
        assert("so"@ =~= seq!['s', 'o']);
        assert(string_views(words@) =~= pali_stop_words());
    }
    words
}

/// The Pāli tokens of `text`, lower-cased.
pub open spec fn lowered_tokens(text: Seq<char>) -> Seq<TokenView> {
    pali_tokens(text).map_values(|t: TokenView| lowercased_token(t))
}

/// The lower-cased Pāli tokens of `text` that are not stop words.
pub open spec fn content_tokens(text: Seq<char>) -> Seq<TokenView> {
    without_words(lowered_tokens(text), pali_stop_words())
}

/// The tokens of the algorithmic analyzer: content tokens, stemmed by the Pāli stemmer.
pub open spec fn algorithmic_tokens(text: Seq<char>) -> Seq<TokenView> {
    content_tokens(text).map_values(|t: TokenView| algorithmic_stem_token(t))
}

/// The tokens of the dictionary analyzer: content tokens, replaced by their stems from
/// `stems` where there is one.
pub open spec fn dictionary_tokens(stems: Map<Seq<char>, Seq<char>>, text: Seq<char>) -> Seq<TokenView> {
    content_tokens(text).map_values(|t: TokenView| dictionary_stem_token(stems, t))
}

/// Which stemmer an analyzer uses.
pub enum AnalyzerConfig {
    /// The algorithmic Pāli stemmer.
    Algorithmic,
    /// Stems from the stem table in `stem_file`.
    Dictionary { stem_file: String },
}

/// A text analyzer: the Pāli tokenizer and lower-casing, then (except for `Plain`) stop word
/// removal and a stemmer.
pub enum Analyzer {
    /// Pāli tokens, lower-cased.
    Plain(LowerCaserFilter<PaliTokenizer>),
    /// Content tokens stemmed by the algorithmic stemmer.
    Algorithmic(AlgorithmicFilter<StopWordFilterWrapper<LowerCaserFilter<PaliTokenizer>>>),
    /// Content tokens replaced by their dictionary stems.
    Dictionary(DictionaryFilter<StopWordFilterWrapper<LowerCaserFilter<PaliTokenizer>>>),
}

/// The Pāli tokenizer followed by the lower-caser.
fn lowered() -> (f: LowerCaserFilter<PaliTokenizer>)
    ensures
        forall|text: Seq<char>| #[trigger] f.stream_tokens(text) == lowered_tokens(text),
{
    let tokenizer = PaliTokenizer::default();
    LowerCaser.transform(tokenizer)
}

/// The lower-cased Pāli tokens without stop words.
fn content() -> (f: StopWordFilterWrapper<LowerCaserFilter<PaliTokenizer>>)
    ensures
        forall|text: Seq<char>| #[trigger] f.stream_tokens(text) == content_tokens(text),
{
    let filter = StopWordFilter::remove(stop_words());
    filter.transform(lowered())
}

impl Analyzer {
    /// The tokens that the analyzer gives for `text`.
    pub closed spec fn analysis(&self, text: Seq<char>) -> Seq<TokenView> {
        match self {
            Analyzer::Plain(f) => f.stream_tokens(text),
            Analyzer::Algorithmic(f) => f.stream_tokens(text),
            Analyzer::Dictionary(f) => f.stream_tokens(text),
        }
    }

    /// Pāli tokens, lower-cased.
    pub fn plain() -> (a: Analyzer)
        ensures
            forall|text: Seq<char>| #[trigger] a.analysis(text) == lowered_tokens(text),
    {
        Analyzer::Plain(lowered())
    }

    /// Content tokens stemmed by the algorithmic stemmer.
    pub fn algorithmic() -> (a: Analyzer)
        ensures
            forall|text: Seq<char>| #[trigger] a.analysis(text) == algorithmic_tokens(text),
    {
        Analyzer::Algorithmic(AlgorithmicStemmer.transform(content()))
    }

    /// Content tokens replaced by their stems from `stemmer`.
    pub fn dictionary(stemmer: DictionaryStemmer) -> (a: Analyzer)
        ensures
            forall|text: Seq<char>| #[trigger] a.analysis(text) == dictionary_tokens(stemmer.stems(), text),
    {
        Analyzer::Dictionary(stemmer.transform(content()))
    }

    /// The analyzer that `config` describes. For `Dictionary`, `stem_data` is the content of
    /// the stem file, read as a stem table; its errors are passed on.
    pub fn try_from_config(config: AnalyzerConfig, stem_data: Option<&str>) -> (r: Result<Analyzer, TableError>)
        requires
            config is Dictionary ==> stem_data is Some,
        ensures
            config is Algorithmic ==> r is Ok && forall|text: Seq<char>| #[trigger] r->Ok_0.analysis(text)
                == algorithmic_tokens(text),
            config is Dictionary ==> match stem_table_result(stem_data->Some_0@) {
                Ok(records) => r is Ok && forall|text: Seq<char>| #[trigger] r->Ok_0.analysis(text)
                    == dictionary_tokens(pairs_map(records_pairs(records)), text),
                Err(e) => r is Err && r->Err_0@ == e,
            },
    {
        match config {
            AnalyzerConfig::Algorithmic => Ok(Self::algorithmic()),
            AnalyzerConfig::Dictionary { .. } => {
                let data = stem_data.unwrap();
                match StemTable::try_from(data) {
                    Ok(table) => Ok(Self::dictionary(DictionaryStemmer::from_table(&table))),
                    Err(e) => Err(e),
                }
            },
        }
    }

    /// The tokens of `text`.
    pub fn analyze(&self, text: &str) -> (out: Vec<Token>)
        ensures
            out@.map_values(|t: Token| t@) == self.analysis(text@),
    {
        match self {
            Analyzer::Plain(f) => {
                let mut stream = f.token_stream(text);
                let out = collect_tokens(&mut stream);
                proof {
                    assert(stream.tokens().skip(0) =~= stream.tokens());
                }
                out
            },
            Analyzer::Algorithmic(f) => {
                let mut stream = f.token_stream(text);
                let out = collect_tokens(&mut stream);
                proof {
                    assert(stream.tokens().skip(0) =~= stream.tokens());
                }
                out
            },
            Analyzer::Dictionary(f) => {
                let mut stream = f.token_stream(text);
                let out = collect_tokens(&mut stream);
                proof {
                    assert(stream.tokens().skip(0) =~= stream.tokens());
                }
                out
            },
        }
    }
}

/// An analyzer is a tokenizer: its stream hands out the tokens of `analyze`.
impl Tokenizer for Analyzer {
    type Stream = TokenList;

    open spec fn stream_tokens(&self, text: Seq<char>) -> Seq<TokenView> {
        self.analysis(text)
    }

    fn token_stream(&self, text: &str) -> (stream: TokenList) {
        TokenList::new(self.analyze(text))
    }
}

} // verus!

verus! {

/// Content tokens are the lower-cased Pāli tokens that are not stop words, in order: none of
/// them is a stop word, and every lower-cased token that is not a stop word is among them.
pub proof fn lemma_content_tokens_drop_stop_words(text: Seq<char>)
    ensures
        forall|i: int|
            0 <= i < content_tokens(text).len() ==> !pali_stop_words().contains(#[trigger] content_tokens(text)[i].text),
        forall|i: int|
            0 <= i < lowered_tokens(text).len() && !pali_stop_words().contains(#[trigger] lowered_tokens(text)[i].text)
                ==> content_tokens(text).contains(lowered_tokens(text)[i]),
        content_tokens(text).len() <= lowered_tokens(text).len(),
{
    let pred = not_listed(pali_stop_words());
    broadcast use vstd::seq_lib::group_filter_ensures;
    assert forall|i: int|
        0 <= i < content_tokens(text).len() implies !pali_stop_words().contains(#[trigger] content_tokens(text)[i].text) by {
        assert(pred(content_tokens(text)[i]));
    }
    assert forall|i: int|
        0 <= i < lowered_tokens(text).len() && !pali_stop_words().contains(#[trigger] lowered_tokens(text)[i].text)
            implies content_tokens(text).contains(lowered_tokens(text)[i]) by {
        assert(pred(lowered_tokens(text)[i]));
    }
}

/// The filters change token texts only: every analysis keeps the byte offsets and the
/// positions of the tokens it starts from.
pub proof fn lemma_filters_keep_offsets(stems: Map<Seq<char>, Seq<char>>, text: Seq<char>, i: int)
    ensures
        0 <= i < lowered_tokens(text).len() ==> {
            let a = pali_tokens(text)[i];
            let b = lowered_tokens(text)[i];
            a.offset_from == b.offset_from && a.offset_to == b.offset_to && a.position == b.position
        },
        0 <= i < content_tokens(text).len() ==> {
            let a = content_tokens(text)[i];
            let b = algorithmic_tokens(text)[i];
            let c = dictionary_tokens(stems, text)[i];
            &&& a.offset_from == b.offset_from && a.offset_to == b.offset_to && a.position == b.position
            &&& a.offset_from == c.offset_from && a.offset_to == c.offset_to && a.position == c.position
        },
{
}


/// The analyzers drop exactly the ten stop words ca, ti, na, pe, vā, kho, hoti, bhikkhave,
/// b and so. The tokens that reach a stemmer are lower-cased Pāli tokens of the text, in
/// order, none of them one of these words; the algorithmic and the dictionary analysis
/// stem exactly these tokens; every lower-cased Pāli token that is none of these words
/// reaches the stemmers, and none that is one of them does.
pub proof fn lemma_analyzers_drop_the_stop_words(stems: Map<Seq<char>, Seq<char>>, text: Seq<char>)
    ensures
        ({
            let stop: Seq<Seq<char>> = seq![
                seq!['c', 'a'],
                seq!['t', 'i'],
                seq!['n', 'a'],
                seq!['p', 'e'],
                seq!['v', 'ā'],
                seq!['k', 'h', 'o'],
                seq!['h', 'o', 't', 'i'],
                seq!['b', 'h', 'i', 'k', 'k', 'h', 'a', 'v', 'e'],
                seq!['b'],
                seq!['s', 'o'],
            ];
            &&& algorithmic_tokens(text).len() == content_tokens(text).len()
            &&& dictionary_tokens(stems, text).len() == content_tokens(text).len()
            &&& forall|i: int|
                0 <= i < content_tokens(text).len() ==> {
                    let t = #[trigger] content_tokens(text)[i];
                    &&& lowered_tokens(text).contains(t)
                    &&& !stop.contains(t.text)
                    &&& algorithmic_tokens(text)[i] == algorithmic_stem_token(t)
                    &&& dictionary_tokens(stems, text)[i] == dictionary_stem_token(stems, t)
                }
            &&& forall|j: int|
                0 <= j < lowered_tokens(text).len() && !stop.contains(#[trigger] lowered_tokens(text)[j].text)
                    ==> content_tokens(text).contains(lowered_tokens(text)[j])
            &&& forall|j: int|
                0 <= j < lowered_tokens(text).len() && stop.contains(#[trigger] lowered_tokens(text)[j].text)
                    ==> !content_tokens(text).contains(lowered_tokens(text)[j])
        }),
{
    broadcast use vstd::seq_lib::group_filter_ensures;
    let pred = not_listed(pali_stop_words());
    let lowered = lowered_tokens(text);
    let content = content_tokens(text);
    let stop: Seq<Seq<char>> = seq![
        seq!['c', 'a'],
        seq!['t', 'i'],
        seq!['n', 'a'],
        seq!['p', 'e'],
        seq!['v', 'ā'],
        seq!['k', 'h', 'o'],
        seq!['h', 'o', 't', 'i'],
        seq!['b', 'h', 'i', 'k', 'k', 'h', 'a', 'v', 'e'],
        seq!['b'],
        seq!['s', 'o'],
    ];
    assert(pali_stop_words() =~= stop);
    assert forall|i: int| 0 <= i < content.len() implies lowered.contains(#[trigger] content[i]) by {
        assert(content.contains(content[i]));
        lowered.lemma_filter_contains_rev(pred, content[i]);
    }
    assert forall|i: int| 0 <= i < content.len() implies !stop.contains((#[trigger] content[i]).text) by {
        assert(pred(content[i]));
    }
    assert forall|j: int| 0 <= j < lowered.len() && !stop.contains(#[trigger] lowered[j].text)
        implies content.contains(lowered[j]) by {
        assert(pred(lowered[j]));
    }
    assert forall|j: int| 0 <= j < lowered.len() && stop.contains(#[trigger] lowered[j].text)
        implies !content.contains(lowered[j]) by {
        if content.contains(lowered[j]) {
            let i = choose|i: int| 0 <= i < content.len() && content[i] == lowered[j];
            assert(pred(content[i]));
        }
    }
}

} // verus!
