//! Token filters applied after tokenizing: lower-casing and stop word removal.
use crate::token::{Token, TokenStream, TokenView, Tokenizer};
use vstd::prelude::*;

verus! {

/// What tantivy's `LowerCaser` makes of a token text.
pub uninterp spec fn lowercased(text: Seq<char>) -> Seq<char>;

/// Lower-cases `text` with tantivy's `LowerCaser` token filter.
///
/// Trusted: runs tantivy's `LowerCaser` over a `RawTokenizer`, which emits the whole text as
/// one token, and returns that token's text. The contract only names the result
/// (`lowercased`): tantivy lower-cases character by character with Unicode's case tables,
/// which nothing here states.
#[verifier::external_body]
fn lowercase_text(text: &str) -> (out: String)
    ensures
        out@ == lowercased(text@),
{
    let mut analyzer = tantivy::tokenizer::TextAnalyzer::builder(
        tantivy::tokenizer::RawTokenizer::default(),
    ).filter(tantivy::tokenizer::LowerCaser).build();
    let mut stream = analyzer.token_stream(text);
    tantivy::tokenizer::TokenStream::advance(&mut stream);
    tantivy::tokenizer::TokenStream::token(&stream).text.clone()
}

/// A token with its text lower-cased.
pub open spec fn lowercased_token(t: TokenView) -> TokenView {
    TokenView { text: lowercased(t.text), ..t }
}

/// Token filter that lower-cases token texts.
pub struct LowerCaser;

impl LowerCaser {
    /// Wraps `tokenizer` so that its tokens come out lower-cased.
    pub fn transform<T: Tokenizer>(self, tokenizer: T) -> (f: LowerCaserFilter<T>)
        ensures
            forall|text: Seq<char>| #[trigger] f.stream_tokens(text)
                == tokenizer.stream_tokens(text).map_values(|t: TokenView| lowercased_token(t)),
    {
        LowerCaserFilter { tokenizer }
    }
}

/// A tokenizer whose tokens come out lower-cased.
pub struct LowerCaserFilter<T> {
    tokenizer: T,
}

impl<T: Tokenizer> Tokenizer for LowerCaserFilter<T> {
    type Stream = LowerCaserTokenStream<T::Stream>;

    closed spec fn stream_tokens(&self, text: Seq<char>) -> Seq<TokenView> {
        self.tokenizer.stream_tokens(text).map_values(|t: TokenView| lowercased_token(t))
    }

    fn token_stream(&self, text: &str) -> (stream: LowerCaserTokenStream<T::Stream>) {
        let tail = self.tokenizer.token_stream(text);
        LowerCaserTokenStream { tail, token: Token::default() }
    }
}

/// The stream of a `LowerCaserFilter`.
pub struct LowerCaserTokenStream<S> {
    tail: S,
    token: Token,
}

impl<S: TokenStream> TokenStream for LowerCaserTokenStream<S> {
    closed spec fn tokens(&self) -> Seq<TokenView> {
        self.tail.tokens().map_values(|t: TokenView| lowercased_token(t))
    }

    closed spec fn consumed(&self) -> nat {
        self.tail.consumed()
    }

    closed spec fn current(&self) -> TokenView {
        self.token@
    }

    closed spec fn wf(&self) -> bool {
        self.tail.wf()
    }

    fn advance(&mut self) -> (found: bool) {
        if !self.tail.advance() {
            return false;
        }
        let t = self.tail.token();
        let text = lowercase_text(t.text.as_str());
        self.token = Token {
            offset_from: t.offset_from,
            offset_to: t.offset_to,
            position: t.position,
            text,
            position_length: t.position_length,
        };
        true
    }

    fn token(&self) -> (t: &Token) {
        &self.token
    }
}

/// Whether `word` is one of `words`.
pub open spec fn is_listed(words: Seq<Seq<char>>, word: Seq<char>) -> bool {
    words.contains(word)
}

/// The views of a list of strings.
pub open spec fn string_views(words: Seq<String>) -> Seq<Seq<char>> {
    words.map_values(|w: String| w@)
}

/// The test that keeps a token: its text is not one of `words`.
pub open spec fn not_listed(words: Seq<Seq<char>>) -> spec_fn(TokenView) -> bool {
    |t: TokenView| !is_listed(words, t.text)
}

/// The tokens of `tokens` whose text is not one of `words`, in order.
pub open spec fn without_words(tokens: Seq<TokenView>, words: Seq<Seq<char>>) -> Seq<TokenView> {
    tokens.filter(not_listed(words))
}

/// Whether `word` occurs in `words`.
pub fn contains_word(words: &Vec<String>, word: &String) -> (b: bool)
    ensures
        b == is_listed(string_views(words@), word@),
{
    let mut i: usize = 0;
    while i < words.len()
        invariant
            0 <= i <= words@.len(),
            forall|j: int| 0 <= j < i ==> words@[j]@ != word@,
        decreases words@.len() - i,
    {
        if words[i] == *word {
            proof {
                assert(string_views(words@)[i as int] == word@);
            }
            return true;
        }
        i = i + 1;
    }
    proof {
        if string_views(words@).contains(word@) {
            let j = choose|j: int| 0 <= j < string_views(words@).len() && string_views(words@)[j] == word@;
            assert(words@[j]@ == word@);
        }
    }
    false
}

/// Token filter that removes the tokens whose text is one of a list of words.
pub struct StopWordFilter {
    words: Vec<String>,
}

impl StopWordFilter {
    /// A filter that removes the given words.
    pub fn remove(words: Vec<String>) -> (f: StopWordFilter)
        ensures
            f.words() == string_views(words@),
    {
        StopWordFilter { words }
    }

    /// The words that the filter removes.
    pub closed spec fn words(&self) -> Seq<Seq<char>> {
        string_views(self.words@)
    }

    /// Wraps `tokenizer` so that tokens whose text is one of the words are dropped.
    pub fn transform<T: Tokenizer>(self, tokenizer: T) -> (f: StopWordFilterWrapper<T>)
        ensures
            forall|text: Seq<char>| #[trigger] f.stream_tokens(text)
                == without_words(tokenizer.stream_tokens(text), self.words()),
    {
        StopWordFilterWrapper { words: self.words, inner: tokenizer }
    }
}

/// A tokenizer whose tokens that are stop words are dropped.
pub struct StopWordFilterWrapper<T> {
    words: Vec<String>,
    inner: T,
}

impl<T: Tokenizer> Tokenizer for StopWordFilterWrapper<T> {
    type Stream = StopWordFilterStream<T::Stream>;

    closed spec fn stream_tokens(&self, text: Seq<char>) -> Seq<TokenView> {
        without_words(self.inner.stream_tokens(text), string_views(self.words@))
    }

    fn token_stream(&self, text: &str) -> (stream: StopWordFilterStream<T::Stream>) {
        let tail = self.inner.token_stream(text);
        let words = self.words.clone();
        proof {
            assert(tail.tokens().take(0) =~= Seq::<TokenView>::empty());
            assert(string_views(words@) =~= string_views(self.words@));
        }
        StopWordFilterStream { words, tail, token: Token::default() }
    }
}

/// The stream of a `StopWordFilterWrapper`.
pub struct StopWordFilterStream<S> {
    words: Vec<String>,
    tail: S,
    token: Token,
}

impl<S: TokenStream> TokenStream for StopWordFilterStream<S> {
    closed spec fn tokens(&self) -> Seq<TokenView> {
        without_words(self.tail.tokens(), string_views(self.words@))
    }

    closed spec fn consumed(&self) -> nat {
        without_words(self.tail.tokens().take(self.tail.consumed() as int), string_views(self.words@)).len()
    }

    closed spec fn current(&self) -> TokenView {
        self.token@
    }

    closed spec fn wf(&self) -> bool {
        &&& self.tail.wf()
        &&& self.tail.consumed() <= self.tail.tokens().len()
    }

    fn advance(&mut self) -> (found: bool) {
        let ghost words = string_views(self.words@);
        let ghost all = self.tail.tokens();
        let ghost pred = not_listed(words);
        let ghost start = self.consumed();
        proof {
            lemma_filter_take_le(all, pred, self.tail.consumed() as int);
        }
        loop
            invariant
                self.tail.wf(),
                self.tail.tokens() == all,
                self.tail.consumed() <= all.len(),
                string_views(self.words@) == words,
                pred == not_listed(words),
                all.take(self.tail.consumed() as int).filter(pred).len() == start,
                start <= all.filter(pred).len(),
                old(self).tokens() == all.filter(pred),
                old(self).consumed() == start,
            decreases all.len() - self.tail.consumed(),
        {
            let ghost j = self.tail.consumed() as int;
            if !self.tail.advance() {
                proof {
                    assert(all.take(j) =~= all);
                }
                return false;
            }
            proof {
                assert(all.take(j + 1).drop_last() =~= all.take(j));
                assert(all.take(j + 1).last() == all[j]);
                lemma_filter_take_le(all, pred, j + 1);
            }
            let is_stop = contains_word(&self.words, &self.tail.token().text);
            if !is_stop {
                self.token = self.tail.token().duplicate();
                proof {
                    lemma_filter_take_index(all, pred, j);
                }
                return true;
            }
            proof {
                reveal(Seq::filter);
                assert(!pred(all[j]));
            }
        }
    }

    fn token(&self) -> (t: &Token) {
        &self.token
    }
}

/// Filtering a prefix keeps no more than filtering the whole.
pub proof fn lemma_filter_take_le(s: Seq<TokenView>, pred: spec_fn(TokenView) -> bool, k: int)
    requires
        0 <= k <= s.len(),
    ensures
        s.take(k).filter(pred).len() <= s.filter(pred).len(),
{
    assert(s =~= s.take(k) + s.skip(k));
    Seq::filter_distributes_over_add(s.take(k), s.skip(k), pred);
}

/// When the element at `j` passes the filter, it is the element of the filtered sequence
/// that follows the filtered prefix before it.
pub proof fn lemma_filter_take_index(s: Seq<TokenView>, pred: spec_fn(TokenView) -> bool, j: int)
    requires
        0 <= j < s.len(),
        pred(s[j]),
    ensures
        s.filter(pred)[s.take(j).filter(pred).len() as int] == s[j],
        s.take(j + 1).filter(pred).len() == s.take(j).filter(pred).len() + 1,
{
    reveal(Seq::filter);
    assert(s.take(j + 1).drop_last() =~= s.take(j));
    assert(s.take(j + 1).last() == s[j]);
    assert(s =~= s.take(j + 1) + s.skip(j + 1));
    Seq::filter_distributes_over_add(s.take(j + 1), s.skip(j + 1), pred);
}

} // verus!
