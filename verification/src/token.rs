//! Tokens as they flow through the analysis pipeline, and UTF-8 byte counting.
use vstd::prelude::*;
use vstd::utf8::*;

verus! {

/// Number of bytes that the UTF-8 encoding of `chars` takes.
pub open spec fn utf8_len(chars: Seq<char>) -> nat {
    encode_utf8(chars).len()
}

/// Encoding a concatenation encodes each part in turn.
pub proof fn lemma_encode_utf8_concat(a: Seq<char>, b: Seq<char>)
    ensures
        encode_utf8(a + b) == encode_utf8(a) + encode_utf8(b),
    decreases a.len(),
{
    if a.len() == 0 {
        assert(a + b =~= b);
    } else {
        lemma_encode_utf8_concat(a.drop_first(), b);
        assert((a + b).drop_first() =~= a.drop_first() + b);
        assert((a + b)[0] == a[0]);
    }
}

/// The byte length of a prefix grows by the width of the next character.
pub proof fn lemma_utf8_len_take_step(s: Seq<char>, i: int)
    requires
        0 <= i < s.len(),
    ensures
        utf8_len(s.take(i + 1)) == utf8_len(s.take(i)) + encode_scalar(s[i] as u32).len(),
{
    assert(s.take(i + 1) =~= s.take(i) + seq![s[i]]);
    lemma_encode_utf8_concat(s.take(i), seq![s[i]]);
    assert(seq![s[i]].drop_first() =~= Seq::<char>::empty());
    assert(encode_utf8(Seq::<char>::empty()) =~= Seq::<u8>::empty());
    assert(encode_utf8(seq![s[i]]) =~= encode_scalar(s[i] as u32));
}

/// Byte lengths of prefixes are monotone and bounded by the whole.
pub proof fn lemma_utf8_len_take_le(s: Seq<char>, i: int, j: int)
    requires
        0 <= i <= j <= s.len(),
    ensures
        utf8_len(s.take(i)) <= utf8_len(s.take(j)) <= utf8_len(s),
{
    assert(s.take(j) =~= s.take(i) + s.subrange(i, j));
    lemma_encode_utf8_concat(s.take(i), s.subrange(i, j));
    assert(s =~= s.take(j) + s.subrange(j, s.len() as int));
    lemma_encode_utf8_concat(s.take(j), s.subrange(j, s.len() as int));
}

/// Number of bytes in the UTF-8 encoding of one character.
pub fn char_utf8_width(c: char) -> (w: usize)
    ensures
        w as nat == encode_scalar(c as u32).len(),
        1 <= w <= 4,
{
    let u = c as u32;
    if u <= 0x7f {
        1
    } else if u <= 0x7ff {
        2
    } else if u <= 0xffff {
        proof {
            broadcast use char_is_scalar;
        }
        3
    } else {
        4
    }
}

/// The characters of `s`, in order.
pub fn chars_of(s: &str) -> (out: Vec<char>)
    ensures
        out@ == s@,
{
    let mut out: Vec<char> = Vec::new();
    for c in it: s.chars()
        invariant
            out@ == it.seq().take(it.index() as int),
            it.seq() == s@,
    {
        out.push(c);
    }
    out
}

/// The abstract value of a token.
pub struct TokenView {
    pub offset_from: usize,
    pub offset_to: usize,
    pub position: usize,
    pub text: Seq<char>,
    pub position_length: usize,
}

/// A token: a piece of text with its byte offsets in the source text and its position
/// (counted in tokens).
pub struct Token {
    /// Byte offset of the first character of the token.
    pub offset_from: usize,
    /// Byte offset just past the last character of the token.
    pub offset_to: usize,
    /// Position, counted in tokens.
    pub position: usize,
    /// The token's text.
    pub text: String,
    /// How many source tokens the token spans.
    pub position_length: usize,
}

impl View for Token {
    type V = TokenView;

    open spec fn view(&self) -> TokenView {
        TokenView {
            offset_from: self.offset_from,
            offset_to: self.offset_to,
            position: self.position,
            text: self.text@,
            position_length: self.position_length,
        }
    }
}

/// The value of a token before any text was read: empty, with position `usize::MAX`
/// so that the first increment (wrapping) gives position 0.
pub open spec fn initial_token_view() -> TokenView {
    TokenView {
        offset_from: 0,
        offset_to: 0,
        position: usize::MAX,
        text: Seq::empty(),
        position_length: 1,
    }
}

impl Token {
    /// A copy of the token.
    pub fn duplicate(&self) -> (out: Token)
        ensures
            out@ == self@,
    {
        Token {
            offset_from: self.offset_from,
            offset_to: self.offset_to,
            position: self.position,
            text: self.text.clone(),
            position_length: self.position_length,
        }
    }
}

impl Default for Token {
    fn default() -> (out: Token)
        ensures
            out@ == initial_token_view(),
    {
        Token {
            offset_from: 0,
            offset_to: 0,
            position: usize::MAX,
            text: String::new(),
            position_length: 1,
        }
    }
}

/// A stream of tokens: `advance` moves to the next token and `token` shows the current one.
pub trait TokenStream: Sized {
    /// Every token the stream hands out, in order.
    spec fn tokens(&self) -> Seq<TokenView>;

    /// How many tokens `advance` has handed out so far.
    spec fn consumed(&self) -> nat;

    /// The current token.
    spec fn current(&self) -> TokenView;

    /// The stream's internal invariant.
    spec fn wf(&self) -> bool;

    /// Moves to the next token; `false` when none is left.
    fn advance(&mut self) -> (found: bool)
        requires
            old(self).wf(),
            old(self).consumed() <= old(self).tokens().len(),
        ensures
            final(self).wf(),
            final(self).tokens() == old(self).tokens(),
            final(self).consumed() <= final(self).tokens().len(),
            found == (old(self).consumed() < old(self).tokens().len()),
            found ==> final(self).consumed() == old(self).consumed() + 1 && final(self).current()
                == old(self).tokens()[old(self).consumed() as int],
            !found ==> final(self).consumed() == old(self).consumed(),
    ;

    /// The current token.
    fn token(&self) -> (t: &Token)
        ensures
            t@ == self.current(),
    ;
}

/// Splits text into a stream of tokens.
pub trait Tokenizer: Sized {
    /// The stream that `token_stream` returns.
    type Stream: TokenStream;

    /// The tokens of `text`, in order.
    spec fn stream_tokens(&self, text: Seq<char>) -> Seq<TokenView>;

    /// A fresh stream over the tokens of `text`.
    fn token_stream(&self, text: &str) -> (stream: Self::Stream)
        ensures
            stream.wf(),
            stream.consumed() == 0,
            stream.tokens() == self.stream_tokens(text@),
    ;
}

/// A stream over tokens made elsewhere (by another tokenizer, say), so that the library's
/// filters can run over them.
pub struct TokenList {
    tokens: Vec<Token>,
    next: usize,
    token: Token,
}

impl TokenList {
    /// A stream that hands out `tokens`, in order.
    pub fn new(tokens: Vec<Token>) -> (stream: TokenList)
        ensures
            stream.wf(),
            stream.consumed() == 0,
            stream.tokens() == tokens@.map_values(|t: Token| t@),
    {
        TokenList { tokens, next: 0, token: Token::default() }
    }
}

impl TokenStream for TokenList {
    closed spec fn tokens(&self) -> Seq<TokenView> {
        self.tokens@.map_values(|t: Token| t@)
    }

    closed spec fn consumed(&self) -> nat {
        self.next as nat
    }

    closed spec fn current(&self) -> TokenView {
        self.token@
    }

    closed spec fn wf(&self) -> bool {
        self.next <= self.tokens@.len()
    }

    fn advance(&mut self) -> (found: bool) {
        if self.next < self.tokens.len() {
            self.token = self.tokens[self.next].duplicate();
            self.next = self.next + 1;
            true
        } else {
            false
        }
    }

    fn token(&self) -> (t: &Token) {
        &self.token
    }
}

/// The tokens that `stream` has still to hand out, each copied, in order.
pub fn collect_tokens<S: TokenStream>(stream: &mut S) -> (out: Vec<Token>)
    requires
        old(stream).wf(),
        old(stream).consumed() <= old(stream).tokens().len(),
    ensures
        out@.map_values(|t: Token| t@) == old(stream).tokens().skip(old(stream).consumed() as int),
        final(stream).wf(),
{
    let ghost all = stream.tokens();
    let ghost start = stream.consumed();
    let mut out: Vec<Token> = Vec::new();
    loop
        invariant
            stream.wf(),
            stream.tokens() == all,
            start <= stream.consumed() <= all.len(),
            out@.len() == stream.consumed() - start,
            forall|k: int| 0 <= k < out@.len() ==> #[trigger] out@[k]@ == all[start + k],
        ensures
            stream.wf(),
            out@.len() == all.len() - start,
            forall|k: int| 0 <= k < out@.len() ==> #[trigger] out@[k]@ == all[start + k],
        decreases all.len() - stream.consumed(),
    {
        let found = stream.advance();
        if !found {
            break;
        }
        let t = stream.token().duplicate();
        out.push(t);
    }
    proof {
        assert(out@.map_values(|t: Token| t@) =~= all.skip(start as int));
    }
    out
}

} // verus!
