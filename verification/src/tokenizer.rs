//! The Pāli tokenizer: a token is a maximal run of characters of the Pāli alphabet.
use crate::token::{
    char_utf8_width, chars_of, initial_token_view, lemma_encode_utf8_concat, lemma_utf8_len_take_le, lemma_utf8_len_take_step, utf8_len, Token,
    Tokenizer, TokenStream, TokenView,
};
use vstd::prelude::*;
use vstd::utf8::encode_utf8;

verus! {

/// The characters that the tokenizer recognises as Pāli.
pub open spec fn pali_alphabet() -> Seq<char> {
    seq![
        'A', 'B', 'C', 'D', 'E', 'G', 'H', 'I', 'J', 'K', 'L', 'M', 'N', 'O', 'P', 'R',
        'S', 'T', 'U', 'V', 'W', 'Y', 'a', 'b', 'c', 'd', 'e', 'f', 'g', 'h', 'i', 'j',
        'k', 'l', 'm', 'n', 'o', 'p', 'r', 's', 't', 'u', 'v', 'y', 'Ñ', 'ñ', 'Ā', 'ā',
        'Ī', 'ī', 'Ū', 'ū', 'Ḍ', 'ḍ', 'ḷ', 'ṁ', 'ṅ', 'ṇ', 'Ṭ', 'ṭ',
    ]
}

/// The character spans `(start, end)` of the maximal runs of `alphabet` characters in `s`,
/// in order: a character extends the run that the previous character belongs to, or
/// starts a new run.
pub open spec fn token_spans(alphabet: Seq<char>, s: Seq<char>) -> Seq<(int, int)>
    decreases s.len(),
{
    if s.len() == 0 {
        seq![]
    } else {
        let p = s.drop_last();
        let prev = token_spans(alphabet, p);
        if !alphabet.contains(s.last()) {
            prev
        } else if p.len() > 0 && alphabet.contains(p.last()) {
            prev.update(prev.len() - 1, (prev.last().0, s.len() as int))
        } else {
            prev.push((p.len() as int, s.len() as int))
        }
    }
}

/// The token that the span `span` of `s` gives at position `position`: its text, and its
/// byte offsets in the UTF-8 encoding of `s`.
pub open spec fn span_token(s: Seq<char>, position: int, span: (int, int)) -> TokenView {
    TokenView {
        offset_from: utf8_len(s.take(span.0)) as usize,
        offset_to: utf8_len(s.take(span.1)) as usize,
        position: position as usize,
        text: s.subrange(span.0, span.1),
        position_length: 1,
    }
}

/// All tokens of `s` for the given alphabet, numbered from position 0.
pub open spec fn alphabet_tokens(alphabet: Seq<char>, s: Seq<char>) -> Seq<TokenView> {
    token_spans(alphabet, s).map(|k: int, span: (int, int)| span_token(s, k, span))
}

/// The tokens that the Pāli tokenizer with its default alphabet finds in `s`.
pub open spec fn pali_tokens(s: Seq<char>) -> Seq<TokenView> {
    alphabet_tokens(pali_alphabet(), s)
}

/// Whether `c` occurs in `alphabet`.
pub fn in_alphabet(alphabet: &Vec<char>, c: char) -> (b: bool)
    ensures
        b == alphabet@.contains(c),
{
    let mut i: usize = 0;
    while i < alphabet.len()
        invariant
            0 <= i <= alphabet.len(),
            forall|j: int| 0 <= j < i ==> alphabet@[j] != c,
        decreases alphabet.len() - i,
    {
        if alphabet[i] == c {
            return true;
        }
        i = i + 1;
    }
    false
}

/// Builds the token for the span `(start, end)` of `text`.
fn make_token(
    text: &str,
    start: usize,
    end: usize,
    byte_start: usize,
    byte_end: usize,
    position: usize,
) -> (t: Token)
    requires
        start <= end <= text@.len(),
        byte_start == utf8_len(text@.take(start as int)),
        byte_end == utf8_len(text@.take(end as int)),
    ensures
        t@ == span_token(text@, position as int, (start as int, end as int)),
{
    let piece = text.substring_char(start, end);
    Token {
        offset_from: byte_start,
        offset_to: byte_end,
        position,
        text: String::from_str(piece),
        position_length: 1,
    }
}

/// The tokens of `text`: the maximal runs of `alphabet` characters, each with its byte
/// offsets and its position.
pub fn alphabet_token_list(alphabet: &Vec<char>, text: &str) -> (out: Vec<Token>)
    ensures
        out@.len() == alphabet_tokens(alphabet@, text@).len(),
        forall|k: int| 0 <= k < out@.len() ==> #[trigger] out@[k]@ == alphabet_tokens(alphabet@, text@)[k],
{
    let ghost s = text@;
    let ghost a = alphabet@;
    let cs = chars_of(text);
    let n = cs.len();
    let total_bytes = text.as_bytes().len();
    let mut out: Vec<Token> = Vec::new();
    let ghost mut closed: Seq<(int, int)> = seq![];
    let mut i: usize = 0;
    let mut byte: usize = 0;
    let mut in_run = false;
    let mut start: usize = 0;
    let mut byte_start: usize = 0;
    proof {
        lemma_utf8_len_take_le(s, 0, 0);
        assert(s.take(0) =~= Seq::<char>::empty());
    }
    while i < n
        invariant
            cs@ == s,
            n == s.len(),
            0 <= i <= n,
            s == text@,
            a == alphabet@,
            byte == utf8_len(s.take(i as int)),
            byte <= utf8_len(s),
            utf8_len(s) == total_bytes,
            in_run <==> (i > 0 && a.contains(s[i - 1])),
            in_run ==> start < i && byte_start == utf8_len(s.take(start as int)),
            token_spans(a, s.take(i as int)) == closed + (if in_run {
                seq![(start as int, i as int)]
            } else {
                Seq::<(int, int)>::empty()
            }),
            out@.len() == closed.len(),
            forall|k: int| 0 <= k < out@.len() ==> #[trigger] out@[k]@ == span_token(s, k, closed[k]),
        decreases n - i,
    {
        let c = cs[i];
        let w = char_utf8_width(c);
        proof {
            lemma_utf8_len_take_step(s, i as int);
            lemma_utf8_len_take_le(s, i as int + 1, n as int);
            assert(s.take(i as int + 1).drop_last() =~= s.take(i as int));
            assert(s.take(i as int + 1).last() == c);
        }
        let member = in_alphabet(alphabet, c);
        if member {
            if !in_run {
                start = i;
                byte_start = byte;
                in_run = true;
            }
        } else {
            if in_run {
                let ghost old_closed = closed;
                let t = make_token(text, start, i, byte_start, byte, out.len());
                out.push(t);
                proof {
                    closed = closed.push((start as int, i as int));
                    assert forall|k: int| 0 <= k < out@.len() implies #[trigger] out@[k]@ == span_token(s, k, closed[k]) by {
                        if k < old_closed.len() {
                            assert(closed[k] == old_closed[k]);
                        }
                    }
                }
                in_run = false;
            }
        }
        byte = byte + w;
        i = i + 1;
    }
    if in_run {
        let ghost old_closed = closed;
        let t = make_token(text, start, n, byte_start, byte, out.len());
        out.push(t);
        proof {
            closed = closed.push((start as int, n as int));
            assert forall|k: int| 0 <= k < out@.len() implies #[trigger] out@[k]@ == span_token(s, k, closed[k]) by {
                if k < old_closed.len() {
                    assert(closed[k] == old_closed[k]);
                }
            }
        }
    }
    proof {
        assert(s.take(n as int) =~= s);
    }
    out
}

} // verus!

verus! {

/// Tokenizes text by matching the Pāli alphabet.
pub struct PaliTokenizer {
    /// The characters that make up tokens; nothing occurs twice.
    pub alphabet: Vec<char>,
}

impl PaliTokenizer {
    /// The spec of `default`: the tokenizer with the Pāli alphabet.
    pub open spec fn is_default(&self) -> bool {
        self.alphabet@ == pali_alphabet()
    }

}

impl Tokenizer for PaliTokenizer {
    type Stream = PaliTokenStream;

    open spec fn stream_tokens(&self, text: Seq<char>) -> Seq<TokenView> {
        alphabet_tokens(self.alphabet@, text)
    }

    /// A stream over the tokens of `text`.
    fn token_stream(&self, text: &str) -> (stream: PaliTokenStream)
        ensures
            stream.tokens() == alphabet_tokens(self.alphabet@, text@),
            stream.consumed() == 0,
            stream.current() == initial_token_view(),
            stream.wf(),
    {
        let tokens = alphabet_token_list(&self.alphabet, text);
        let n = tokens.len();
        let stream = PaliTokenStream { tokens, next: 0, token: Token::default() };
        proof {
            assert(stream.tokens() =~= alphabet_tokens(self.alphabet@, text@));
            assert forall|k: int| 0 <= k < stream.tokens@.len() implies (#[trigger] stream.tokens@[k]).position == k by {
                assert(stream.tokens@[k]@ == alphabet_tokens(self.alphabet@, text@)[k]);
                assert(k <= n);
            }
        }
        stream
    }
}

impl Default for PaliTokenizer {
    fn default() -> (t: PaliTokenizer)
        ensures
            t.is_default(),
    {
        let alphabet = vec![
            'A', 'B', 'C', 'D', 'E', 'G', 'H', 'I', 'J', 'K', 'L', 'M', 'N', 'O', 'P', 'R',
            'S', 'T', 'U', 'V', 'W', 'Y', 'a', 'b', 'c', 'd', 'e', 'f', 'g', 'h', 'i', 'j',
            'k', 'l', 'm', 'n', 'o', 'p', 'r', 's', 't', 'u', 'v', 'y', 'Ñ', 'ñ', 'Ā', 'ā',
            'Ī', 'ī', 'Ū', 'ū', 'Ḍ', 'ḍ', 'ḷ', 'ṁ', 'ṅ', 'ṇ', 'Ṭ', 'ṭ',
        ];
        let t = PaliTokenizer { alphabet };
        proof {
            assert(t.alphabet@ =~= pali_alphabet());
        }
        t
    }
}

/// The stream of tokens of one text: `advance` moves to the next token, `token` shows it.
/// The position grows by one, wrapping, on every call of `advance`; the text is cleared
/// when nothing is left.
pub struct PaliTokenStream {
    tokens: Vec<Token>,
    next: usize,
    token: Token,
}

impl TokenStream for PaliTokenStream {
    closed spec fn tokens(&self) -> Seq<TokenView> {
        self.tokens@.map_values(|t: Token| t@)
    }

    closed spec fn consumed(&self) -> nat {
        self.next as nat
    }

    closed spec fn current(&self) -> TokenView {
        self.token@
    }

    closed spec fn wf(&self) -> bool {
        &&& self.next <= self.tokens@.len()
        &&& forall|k: int| 0 <= k < self.tokens@.len() ==> (#[trigger] self.tokens@[k]).position == k
        &&& self.next < self.tokens@.len() ==> self.token.position == if self.next == 0 {
            usize::MAX
        } else {
            (self.next - 1) as usize
        }
    }

    /// Moves to the next token. The position of the current token grows by one (wrapping)
    /// on every call; when no token is left, the current token's text is empty.
    fn advance(&mut self) -> (found: bool)
        ensures
            final(self).current().position == if old(self).current().position == usize::MAX {
                0usize
            } else {
                (old(self).current().position + 1) as usize
            },
            !found ==> final(self).current().text == Seq::<char>::empty(),
    {
        self.token.text = String::new();
        self.token.position = if self.token.position == usize::MAX {
            0
        } else {
            self.token.position + 1
        };
        if self.next < self.tokens.len() {
            let from = self.tokens[self.next].offset_from;
            let to = self.tokens[self.next].offset_to;
            let len = self.tokens[self.next].position_length;
            let text = self.tokens[self.next].text.clone();
            self.token.offset_from = from;
            self.token.offset_to = to;
            self.token.position_length = len;
            self.token.text = text;
            self.next = self.next + 1;
            true
        } else {
            false
        }
    }

    fn token(&self) -> (t: &Token) {
        &self.token
    }
}

/// The texts of the Pāli tokens of `segment`, in order.
pub fn tokenize(segment: &str) -> (out: Vec<String>)
    ensures
        out@.map_values(|s: String| s@) == pali_tokens(segment@).map_values(|t: TokenView| t.text),
{
    let tokenizer = PaliTokenizer::default();
    let mut stream = tokenizer.token_stream(segment);
    let mut out: Vec<String> = Vec::new();
    loop
        invariant
            stream.wf(),
            stream.tokens() == pali_tokens(segment@),
            out@.len() == stream.consumed(),
            forall|k: int| 0 <= k < out@.len() ==> #[trigger] out@[k]@ == stream.tokens()[k].text,
        ensures
            out@.len() == pali_tokens(segment@).len(),
            forall|k: int| 0 <= k < out@.len() ==> #[trigger] out@[k]@ == pali_tokens(segment@)[k].text,
        decreases stream.tokens().len() - stream.consumed(),
    {
        let found = stream.advance();
        if !found {
            break;
        }
        let text = stream.token().text.clone();
        out.push(text);
    }
    proof {
        assert(out@.map_values(|s: String| s@) =~= pali_tokens(segment@).map_values(|t: TokenView| t.text));
    }
    out
}

} // verus!

verus! {

/// `spans` are exactly the maximal runs of `alphabet` characters of `s`, in order: each
/// span is non-empty and made of alphabet characters only, cannot be extended on either
/// side, lies strictly before the next one, and every alphabet character lies in a span.
pub open spec fn maximal_runs(alphabet: Seq<char>, s: Seq<char>, spans: Seq<(int, int)>) -> bool {
    &&& forall|k: int| 0 <= k < spans.len() ==> 0 <= (#[trigger] spans[k]).0 < spans[k].1 <= s.len()
    &&& forall|k: int, i: int|
        0 <= k < spans.len() && (#[trigger] spans[k]).0 <= i < spans[k].1 ==> alphabet.contains(#[trigger] s[i])
    &&& forall|k: int|
        0 <= k < spans.len() ==> ((#[trigger] spans[k]).0 == 0 || !alphabet.contains(s[spans[k].0 - 1]))
    &&& forall|k: int|
        0 <= k < spans.len() ==> ((#[trigger] spans[k]).1 == s.len() || !alphabet.contains(s[spans[k].1]))
    &&& forall|k: int, l: int| 0 <= k < l < spans.len() ==> (#[trigger] spans[k]).1 < (#[trigger] spans[l]).0
    &&& forall|i: int|
        0 <= i < s.len() && alphabet.contains(#[trigger] s[i]) ==> exists|k: int|
            0 <= k < spans.len() && (#[trigger] spans[k]).0 <= i < spans[k].1
}

/// The tokenizer's spans are exactly the maximal runs of alphabet characters.
pub proof fn lemma_token_spans_are_maximal_runs(alphabet: Seq<char>, s: Seq<char>)
    ensures
        maximal_runs(alphabet, s, token_spans(alphabet, s)),
    decreases s.len(),
{
    if s.len() > 0 {
        let p = s.drop_last();
        let n = s.len() as int;
        let c = s.last();
        lemma_token_spans_are_maximal_runs(alphabet, p);
        let prev = token_spans(alphabet, p);
        let spans = token_spans(alphabet, s);
        assert forall|i: int| 0 <= i < n - 1 implies s[i] == #[trigger] p[i] by {}
        assert(s[n - 1] == c);
        if !alphabet.contains(c) {
            assert(spans == prev);
            assert forall|i: int|
                0 <= i < s.len() && alphabet.contains(#[trigger] s[i]) implies exists|k: int|
                    0 <= k < spans.len() && (#[trigger] spans[k]).0 <= i < spans[k].1 by {
                assert(p[i] == s[i]);
            }
            assert forall|k: int|
                0 <= k < spans.len() implies ((#[trigger] spans[k]).1 == s.len() || !alphabet.contains(s[spans[k].1])) by {
                if spans[k].1 < n - 1 {
                    assert(p[spans[k].1] == s[spans[k].1]);
                }
            }
            assert forall|k: int|
                0 <= k < spans.len() implies ((#[trigger] spans[k]).0 == 0 || !alphabet.contains(s[spans[k].0 - 1])) by {
                if spans[k].0 > 0 {
                    assert(p[spans[k].0 - 1] == s[spans[k].0 - 1]);
                }
            }
            assert forall|k: int, i: int|
                0 <= k < spans.len() && (#[trigger] spans[k]).0 <= i < spans[k].1 implies alphabet.contains(#[trigger] s[i]) by {
                assert(p[i] == s[i]);
            }
        } else if p.len() > 0 && alphabet.contains(p.last()) {
            // The last run of `p` ends at its end, and `c` extends it.
            assert(p[n - 2] == p.last());
            let k0 = choose|k: int| 0 <= k < prev.len() && (#[trigger] prev[k]).0 <= n - 2 < prev[k].1;
            assert(prev[k0].1 == n - 1);
            if k0 < prev.len() - 1 {
                assert(prev[k0].1 < prev[prev.len() - 1].0);
            }
            let last = prev.len() - 1;
            assert(k0 == last);
            assert(spans == prev.update(last, (prev[last].0, n)));
            assert forall|k: int| 0 <= k < spans.len() implies 0 <= (#[trigger] spans[k]).0 < spans[k].1 <= s.len() by {
                if k < last {
                    assert(spans[k] == prev[k]);
                }
            }
            assert forall|k: int, i: int|
                0 <= k < spans.len() && (#[trigger] spans[k]).0 <= i < spans[k].1 implies alphabet.contains(#[trigger] s[i]) by {
                if i < n - 1 {
                    assert(p[i] == s[i]);
                    if k < last {
                        assert(spans[k] == prev[k]);
                    }
                }
            }
            assert forall|k: int|
                0 <= k < spans.len() implies ((#[trigger] spans[k]).0 == 0 || !alphabet.contains(s[spans[k].0 - 1])) by {
                if k < last {
                    assert(spans[k] == prev[k]);
                }
                if spans[k].0 > 0 {
                    assert(p[spans[k].0 - 1] == s[spans[k].0 - 1]);
                }
            }
            assert forall|k: int|
                0 <= k < spans.len() implies ((#[trigger] spans[k]).1 == s.len() || !alphabet.contains(s[spans[k].1])) by {
                if k < last {
                    assert(spans[k] == prev[k]);
                    assert(prev[k].1 < prev[last].0);
                    assert(p[spans[k].1] == s[spans[k].1]);
                }
            }
            assert forall|k: int, l: int| 0 <= k < l < spans.len() implies (#[trigger] spans[k]).1 < (#[trigger] spans[l]).0 by {
                assert(spans[k] == prev[k]);
                if l < last {
                    assert(spans[l] == prev[l]);
                }
            }
            assert forall|i: int|
                0 <= i < s.len() && alphabet.contains(#[trigger] s[i]) implies exists|k: int|
                    0 <= k < spans.len() && (#[trigger] spans[k]).0 <= i < spans[k].1 by {
                if i < n - 1 {
                    assert(p[i] == s[i]);
                    let k = choose|k: int| 0 <= k < prev.len() && (#[trigger] prev[k]).0 <= i < prev[k].1;
                    if k < last {
                        assert(spans[k] == prev[k]);
                    } else {
                        assert(spans[last].0 <= i < spans[last].1);
                    }
                } else {
                    assert(spans[last].0 <= i < spans[last].1);
                }
            }
        } else {
            // `c` starts a new run.
            let last = prev.len() as int;
            assert(spans == prev.push((n - 1, n)));
            assert forall|k: int| 0 <= k < prev.len() implies (#[trigger] prev[k]).1 < n - 1 by {
                if prev[k].1 == n - 1 {
                    assert(alphabet.contains(p[prev[k].1 - 1]));
                    assert(p[n - 2] == p.last());
                }
            }
            assert forall|k: int| 0 <= k < spans.len() implies 0 <= (#[trigger] spans[k]).0 < spans[k].1 <= s.len() by {
                if k < last {
                    assert(spans[k] == prev[k]);
                }
            }
            assert forall|k: int, i: int|
                0 <= k < spans.len() && (#[trigger] spans[k]).0 <= i < spans[k].1 implies alphabet.contains(#[trigger] s[i]) by {
                if k < last {
                    assert(spans[k] == prev[k]);
                    assert(p[i] == s[i]);
                }
            }
            assert forall|k: int|
                0 <= k < spans.len() implies ((#[trigger] spans[k]).0 == 0 || !alphabet.contains(s[spans[k].0 - 1])) by {
                if k < last {
                    assert(spans[k] == prev[k]);
                    if spans[k].0 > 0 {
                        assert(p[spans[k].0 - 1] == s[spans[k].0 - 1]);
                    }
                } else if n - 1 > 0 {
                    assert(p[n - 2] == p.last());
                }
            }
            assert forall|k: int|
                0 <= k < spans.len() implies ((#[trigger] spans[k]).1 == s.len() || !alphabet.contains(s[spans[k].1])) by {
                if k < last {
                    assert(spans[k] == prev[k]);
                    assert(p[spans[k].1] == s[spans[k].1]);
                }
            }
            assert forall|k: int, l: int| 0 <= k < l < spans.len() implies (#[trigger] spans[k]).1 < (#[trigger] spans[l]).0 by {
                assert(spans[k] == prev[k]);
                if l < last {
                    assert(spans[l] == prev[l]);
                }
            }
            assert forall|i: int|
                0 <= i < s.len() && alphabet.contains(#[trigger] s[i]) implies exists|k: int|
                    0 <= k < spans.len() && (#[trigger] spans[k]).0 <= i < spans[k].1 by {
                if i < n - 1 {
                    assert(p[i] == s[i]);
                    let k = choose|k: int| 0 <= k < prev.len() && (#[trigger] prev[k]).0 <= i < prev[k].1;
                    assert(spans[k] == prev[k]);
                } else {
                    assert(spans[last].0 <= i < spans[last].1);
                }
            }
        }
    }
}

/// The tokens of a text: token `k` has position `k`; its text is the span of its run; and its
/// byte offsets delimit that text in the UTF-8 encoding of the whole text.
pub proof fn lemma_token_offsets(alphabet: Seq<char>, s: Seq<char>, k: int)
    requires
        0 <= k < alphabet_tokens(alphabet, s).len(),
        utf8_len(s) <= usize::MAX,
        k <= usize::MAX,
    ensures
        ({
            let t = alphabet_tokens(alphabet, s)[k];
            let span = token_spans(alphabet, s)[k];
            &&& t.position == k
            &&& t.text == s.subrange(span.0, span.1)
            &&& t.offset_from <= t.offset_to <= utf8_len(s)
            &&& encode_utf8(s).subrange(t.offset_from as int, t.offset_to as int) == encode_utf8(t.text)
        }),
{
    lemma_token_spans_are_maximal_runs(alphabet, s);
    let span = token_spans(alphabet, s)[k];
    let (a, b) = span;
    lemma_utf8_len_take_le(s, a, b);
    assert(s.take(b) =~= s.take(a) + s.subrange(a, b));
    lemma_encode_utf8_concat(s.take(a), s.subrange(a, b));
    assert(s =~= s.take(b) + s.skip(b));
    lemma_encode_utf8_concat(s.take(b), s.skip(b));
    let e = encode_utf8(s);
    let ea = encode_utf8(s.take(a));
    let em = encode_utf8(s.subrange(a, b));
    assert(e.subrange(ea.len() as int, (ea.len() + em.len()) as int) =~= em);
}


/// Spans moved right by `off` characters.
pub open spec fn shifted(spans: Seq<(int, int)>, off: int) -> Seq<(int, int)> {
    spans.map_values(|sp: (int, int)| (sp.0 + off, sp.1 + off))
}

/// The spans of `a`, a separator `c` and `b` are those of `a`, then those of `b` moved past
/// `a` and `c`.
proof fn lemma_token_spans_separated(alphabet: Seq<char>, a: Seq<char>, c: char, b: Seq<char>)
    requires
        !alphabet.contains(c),
    ensures
        token_spans(alphabet, a + seq![c] + b) == token_spans(alphabet, a) + shifted(
            token_spans(alphabet, b),
            (a.len() + 1) as int,
        ),
    decreases b.len(),
{
    let s = a + seq![c] + b;
    let off = (a.len() + 1) as int;
    let ta = token_spans(alphabet, a);
    let tb = token_spans(alphabet, b);
    if b.len() == 0 {
        assert(s.drop_last() =~= a);
        assert(s.last() == c);
        assert(shifted(tb, off) =~= Seq::<(int, int)>::empty());
        assert(ta + shifted(tb, off) =~= ta);
    } else {
        let b1 = b.drop_last();
        let x = b.last();
        lemma_token_spans_separated(alphabet, a, c, b1);
        let p = s.drop_last();
        assert(p =~= a + seq![c] + b1);
        assert(s.last() == x);
        let tb1 = token_spans(alphabet, b1);
        if !alphabet.contains(x) {
            assert(tb == tb1);
        } else if b1.len() > 0 && alphabet.contains(b1.last()) {
            assert(p.last() == b1.last());
            lemma_token_spans_are_maximal_runs(alphabet, b1);
            assert(alphabet.contains(b1[b1.len() - 1]));
            assert(tb1.len() > 0);
            assert(shifted(tb, off) =~= shifted(tb1, off).update(
                tb1.len() - 1,
                (tb1.last().0 + off, b.len() + off),
            ));
            assert(token_spans(alphabet, s) =~= ta + shifted(tb, off));
        } else {
            if b1.len() == 0 {
                assert(p.last() == c);
            } else {
                assert(p.last() == b1.last());
            }
            assert(shifted(tb, off) =~= shifted(tb1, off).push((b1.len() + off, b.len() + off)));
            assert(token_spans(alphabet, s) =~= ta + shifted(tb, off));
        }
    }
}

/// Splitting a text at a character outside the alphabet splits its tokens: the token texts
/// of `a`, `c` and `b` together are those of `a` followed by those of `b`.
pub proof fn lemma_tokens_split_at_separator(alphabet: Seq<char>, a: Seq<char>, c: char, b: Seq<char>)
    requires
        !alphabet.contains(c),
    ensures
        alphabet_tokens(alphabet, a + seq![c] + b).map_values(|t: TokenView| t.text)
            == alphabet_tokens(alphabet, a).map_values(|t: TokenView| t.text) + alphabet_tokens(
            alphabet,
            b,
        ).map_values(|t: TokenView| t.text),
{
    let s = a + seq![c] + b;
    let off = (a.len() + 1) as int;
    let ta = token_spans(alphabet, a);
    let tb = token_spans(alphabet, b);
    lemma_token_spans_separated(alphabet, a, c, b);
    lemma_token_spans_are_maximal_runs(alphabet, a);
    lemma_token_spans_are_maximal_runs(alphabet, b);
    let lhs = alphabet_tokens(alphabet, s).map_values(|t: TokenView| t.text);
    let ra = alphabet_tokens(alphabet, a).map_values(|t: TokenView| t.text);
    let rb = alphabet_tokens(alphabet, b).map_values(|t: TokenView| t.text);
    assert(lhs.len() == ra.len() + rb.len());
    assert forall|k: int| 0 <= k < lhs.len() implies #[trigger] lhs[k] == (ra + rb)[k] by {
        let spans = token_spans(alphabet, s);
        if k < ta.len() {
            let sp = ta[k];
            assert(spans[k] == sp);
            assert(0 <= sp.0 < sp.1 <= a.len());
            assert(s.subrange(sp.0, sp.1) =~= a.subrange(sp.0, sp.1));
        } else {
            let j = k - ta.len();
            let sp = tb[j];
            assert(spans[k] == (sp.0 + off, sp.1 + off));
            assert(0 <= sp.0 < sp.1 <= b.len());
            assert(s.subrange(sp.0 + off, sp.1 + off) =~= b.subrange(sp.0, sp.1));
        }
    }
    assert(lhs =~= ra + rb);
}


/// A non-empty text made of alphabet characters only is one run.
proof fn lemma_letters_make_one_span(alphabet: Seq<char>, w: Seq<char>)
    requires
        w.len() > 0,
        forall|i: int| 0 <= i < w.len() ==> alphabet.contains(#[trigger] w[i]),
    ensures
        token_spans(alphabet, w) == seq![(0int, w.len() as int)],
    decreases w.len(),
{
    let p = w.drop_last();
    assert(w.last() == w[w.len() - 1]);
    if w.len() == 1 {
        assert(p.len() == 0);
        assert(token_spans(alphabet, p) =~= Seq::<(int, int)>::empty());
        assert(token_spans(alphabet, w) =~= seq![(0int, 1int)]);
    } else {
        assert forall|i: int| 0 <= i < p.len() implies alphabet.contains(#[trigger] p[i]) by {
            assert(p[i] == w[i]);
        }
        lemma_letters_make_one_span(alphabet, p);
        assert(p.last() == w[w.len() - 2]);
        assert(token_spans(alphabet, w) =~= seq![(0int, w.len() as int)]);
    }
}

/// The default tokenizer's letters are exactly these 60: A B C D E G H I J K L M N O P R S T
/// U V W Y a b c d e f g h i j k l m n o p r s t u v y Ñ ñ Ā ā Ī ī Ū ū Ḍ ḍ ḷ ṁ ṅ ṇ Ṭ ṭ. A
/// non-empty word made of them is one token, the whole word; a text that any other character
/// splits in two gives the tokens of its two parts, in order.
pub proof fn lemma_pali_letters(a: Seq<char>, c: char, b: Seq<char>)
    ensures
        ({
            let letters: Seq<char> = seq![
                'A', 'B', 'C', 'D', 'E', 'G', 'H', 'I', 'J', 'K', 'L', 'M', 'N', 'O', 'P', 'R',
                'S', 'T', 'U', 'V', 'W', 'Y', 'a', 'b', 'c', 'd', 'e', 'f', 'g', 'h', 'i', 'j',
                'k', 'l', 'm', 'n', 'o', 'p', 'r', 's', 't', 'u', 'v', 'y', 'Ñ', 'ñ', 'Ā', 'ā',
                'Ī', 'ī', 'Ū', 'ū', 'Ḍ', 'ḍ', 'ḷ', 'ṁ', 'ṅ', 'ṇ', 'Ṭ', 'ṭ',
            ];
            &&& (a.len() > 0 && forall|i: int| 0 <= i < a.len() ==> letters.contains(#[trigger] a[i]))
                ==> pali_tokens(a).map_values(|t: TokenView| t.text) == seq![a]
            &&& !letters.contains(c) ==> pali_tokens(a + seq![c] + b).map_values(|t: TokenView| t.text)
                == pali_tokens(a).map_values(|t: TokenView| t.text) + pali_tokens(b).map_values(|t: TokenView| t.text)
        }),
{
    let letters: Seq<char> = seq![
        'A', 'B', 'C', 'D', 'E', 'G', 'H', 'I', 'J', 'K', 'L', 'M', 'N', 'O', 'P', 'R',
        'S', 'T', 'U', 'V', 'W', 'Y', 'a', 'b', 'c', 'd', 'e', 'f', 'g', 'h', 'i', 'j',
        'k', 'l', 'm', 'n', 'o', 'p', 'r', 's', 't', 'u', 'v', 'y', 'Ñ', 'ñ', 'Ā', 'ā',
        'Ī', 'ī', 'Ū', 'ū', 'Ḍ', 'ḍ', 'ḷ', 'ṁ', 'ṅ', 'ṇ', 'Ṭ', 'ṭ',
    ];
    assert(pali_alphabet() =~= letters);
    if a.len() > 0 && forall|i: int| 0 <= i < a.len() ==> letters.contains(#[trigger] a[i]) {
        lemma_letters_make_one_span(pali_alphabet(), a);
        assert(a.subrange(0, a.len() as int) =~= a);
        assert(pali_tokens(a).map_values(|t: TokenView| t.text) =~= seq![a]);
    }
    if !letters.contains(c) {
        lemma_tokens_split_at_separator(pali_alphabet(), a, c, b);
    }
}

} // verus!
