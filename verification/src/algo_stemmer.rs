//! A token filter that stems each token with the algorithmic Pāli stemmer.
use crate::snowball::algorithms::pali::stem_of;
use crate::snowball::pali_stem;
use crate::token::{Token, TokenStream, TokenView, Tokenizer};
use vstd::prelude::*;

verus! {

/// A token with its text replaced by its algorithmic stem.
pub open spec fn algorithmic_stem_token(t: TokenView) -> TokenView {
    TokenView { text: stem_of(t.text), ..t }
}

/// Token filter that replaces each token's text by its Pāli stem.
pub struct AlgorithmicStemmer;

impl AlgorithmicStemmer {
    /// Wraps `tokenizer` so that its tokens come out stemmed.
    pub fn transform<T: Tokenizer>(self, tokenizer: T) -> (f: StemmerFilter<T>)
        ensures
            forall|text: Seq<char>| #[trigger] f.stream_tokens(text)
                == tokenizer.stream_tokens(text).map_values(|t: TokenView| algorithmic_stem_token(t)),
    {
        StemmerFilter { inner: tokenizer }
    }
}

/// A tokenizer whose tokens come out stemmed.
pub struct StemmerFilter<T> {
    inner: T,
}

impl<T: Tokenizer> Tokenizer for StemmerFilter<T> {
    type Stream = StemmerTokenStream<T::Stream>;

    closed spec fn stream_tokens(&self, text: Seq<char>) -> Seq<TokenView> {
        self.inner.stream_tokens(text).map_values(|t: TokenView| algorithmic_stem_token(t))
    }

    fn token_stream(&self, text: &str) -> (stream: StemmerTokenStream<T::Stream>) {
        StemmerTokenStream { tail: self.inner.token_stream(text), token: Token::default() }
    }
}

/// The stream of a `StemmerFilter`: the tokens of its tail, stemmed.
pub struct StemmerTokenStream<S> {
    tail: S,
    token: Token,
}

impl<S: TokenStream> StemmerTokenStream<S> {
    /// Stems the tokens of `tail`.
    pub fn new(tail: S) -> (stream: StemmerTokenStream<S>)
        requires
            tail.wf(),
        ensures
            stream.wf(),
            stream.consumed() == tail.consumed(),
            stream.tokens() == tail.tokens().map_values(|t: TokenView| algorithmic_stem_token(t)),
    {
        StemmerTokenStream { tail, token: Token::default() }
    }
}

impl<S: TokenStream> TokenStream for StemmerTokenStream<S> {
    closed spec fn tokens(&self) -> Seq<TokenView> {
        self.tail.tokens().map_values(|t: TokenView| algorithmic_stem_token(t))
    }

    closed spec fn consumed(&self) -> nat {
        self.tail.consumed()
    }

    closed spec fn current(&self) -> TokenView {
        self.token@
    }

    closed spec fn wf(&self) -> bool {
        self.tail.wf()
    }

    fn advance(&mut self) -> (found: bool) {
        if !self.tail.advance() {
            return false;
        }
        let t = self.tail.token();
        let stemmed = pali_stem(t.text.as_str());
        self.token = Token {
            offset_from: t.offset_from,
            offset_to: t.offset_to,
            position: t.position,
            text: stemmed,
            position_length: t.position_length,
        };
        true
    }

    fn token(&self) -> (t: &Token) {
        &self.token
    }
}

} // verus!
