//! The vocabulary of a corpus: the distinct token texts that an analyzer finds in it.
use crate::texts::Segment;
use crate::token::{collect_tokens, Token, TokenStream, TokenView, Tokenizer};
use vstd::hash_set::StringHashSet;
use vstd::prelude::*;
use vstd::std_specs::vec::into_iter_elts;

verus! {

/// `seen` followed by the words of `words` that are new, each once, in order of first
/// occurrence.
pub open spec fn add_distinct(seen: Seq<Seq<char>>, words: Seq<Seq<char>>) -> Seq<Seq<char>>
    decreases words.len(),
{
    if words.len() == 0 {
        seen
    } else {
        let before = add_distinct(seen, words.drop_last());
        if before.contains(words.last()) {
            before
        } else {
            before.push(words.last())
        }
    }
}

/// The token texts that the analysis `analysis` gives for the texts `texts`, one text
/// after another.
pub open spec fn analysis_texts(analysis: spec_fn(Seq<char>) -> Seq<TokenView>, texts: Seq<Seq<char>>) -> Seq<Seq<char>>
    decreases texts.len(),
{
    if texts.len() == 0 {
        Seq::empty()
    } else {
        analysis_texts(analysis, texts.drop_last()) + analysis(texts.last()).map_values(
            |t: TokenView| t.text,
        )
    }
}

/// The analysis that `analyzer` performs, as a function of the text.
pub open spec fn analysis_of<T: Tokenizer>(analyzer: T) -> spec_fn(Seq<char>) -> Seq<TokenView> {
    |text: Seq<char>| analyzer.stream_tokens(text)
}

/// Adding words keeps what was there, adds every word, and nothing twice.
pub proof fn lemma_add_distinct(seen: Seq<Seq<char>>, words: Seq<Seq<char>>)
    requires
        seen.no_duplicates(),
    ensures
        add_distinct(seen, words).no_duplicates(),
        forall|w: Seq<char>| #[trigger] add_distinct(seen, words).contains(w) <==> (seen.contains(w) || words.contains(w)),
        add_distinct(seen, words).take(seen.len() as int) == seen,
        seen.len() <= add_distinct(seen, words).len(),
    decreases words.len(),
{
    if words.len() > 0 {
        let p = words.drop_last();
        lemma_add_distinct(seen, p);
        let before = add_distinct(seen, p);
        let r = add_distinct(seen, words);
        assert forall|w: Seq<char>| #[trigger] r.contains(w) <==> (seen.contains(w) || words.contains(w)) by {
            if words.contains(w) {
                let i = choose|i: int| 0 <= i < words.len() && words[i] == w;
                if i < words.len() - 1 {
                    assert(p[i] == w);
                    assert(p.contains(w));
                }
            }
            if p.contains(w) {
                let i = choose|i: int| 0 <= i < p.len() && p[i] == w;
                assert(words[i] == w);
            }
            assert(words[words.len() - 1] == words.last());
            if !before.contains(words.last()) {
                assert(r == before.push(words.last()));
                if r.contains(w) {
                    let i = choose|i: int| 0 <= i < r.len() && r[i] == w;
                    if i < before.len() {
                        assert(before[i] == w);
                    }
                }
                if before.contains(w) {
                    let i = choose|i: int| 0 <= i < before.len() && before[i] == w;
                    assert(r[i] == w);
                }
                assert(r[before.len() as int] == words.last());
            }
        }
        if !before.contains(words.last()) {
            assert forall|i: int, j: int| 0 <= i < r.len() && 0 <= j < r.len() && i != j implies r[i] != r[j] by {
                if i < before.len() && j < before.len() {
                    assert(r[i] == before[i] && r[j] == before[j]);
                } else if i < before.len() {
                    assert(r[i] == before[i]);
                    assert(before.contains(before[i]));
                } else if j < before.len() {
                    assert(r[j] == before[j]);
                    assert(before.contains(before[j]));
                }
            }
        }
        if !before.contains(words.last()) {
            assert(before.push(words.last()).take(seen.len() as int) =~= before.take(seen.len() as int));
        }
    }
}

/// The distinct token texts that an analyzer finds in texts.
pub struct Vocabulary<T: Tokenizer> {
    analyzer: T,
    tokens: StringHashSet,
    terms: Vec<String>,
}

impl<T: Tokenizer> Vocabulary<T> {
    /// The distinct token texts, in order of first occurrence.
    pub closed spec fn terms_view(&self) -> Seq<Seq<char>> {
        self.terms@.map_values(|s: String| s@)
    }

    /// The analyzer that `add_text` uses.
    pub closed spec fn analyzer(&self) -> T {
        self.analyzer
    }

    /// The set and the list hold the same texts, and the list nothing twice.
    pub closed spec fn wf(&self) -> bool {
        &&& self.terms_view().no_duplicates()
        &&& forall|w: Seq<char>| #[trigger] self.tokens@.contains(w) <==> self.terms_view().contains(w)
    }

    /// Adds one word, unless it is already there.
    fn add_word(&mut self, word: String)
        requires
            old(self).wf(),
        ensures
            final(self).wf(),
            final(self).analyzer() == old(self).analyzer(),
            final(self).terms_view() == if old(self).terms_view().contains(word@) {
                old(self).terms_view()
            } else {
                old(self).terms_view().push(word@)
            },
    {
        if !self.tokens.contains(word.as_str()) {
            let ghost before = self.terms_view();
            self.tokens.insert(word.clone());
            self.terms.push(word);
            proof {
                assert(self.terms_view() =~= before.push(word@));
                assert forall|w: Seq<char>| #[trigger] self.tokens@.contains(w) <==> self.terms_view().contains(w) by {
                    if before.contains(w) {
                        let i = choose|i: int| 0 <= i < before.len() && before[i] == w;
                        assert(self.terms_view()[i] == w);
                    }
                    if self.terms_view().contains(w) && w != word@ {
                        let i = choose|i: int| 0 <= i < self.terms_view().len() && self.terms_view()[i] == w;
                        assert(before[i] == w);
                    }
                    assert(self.terms_view()[before.len() as int] == word@);
                }
                assert forall|i: int, j: int|
                    0 <= i < self.terms_view().len() && 0 <= j < self.terms_view().len() && i != j
                    implies self.terms_view()[i] != self.terms_view()[j] by {
                    if i < before.len() && j < before.len() {
                    } else if i < before.len() {
                        assert(before.contains(before[i]));
                    } else if j < before.len() {
                        assert(before.contains(before[j]));
                    }
                }
            }
        }
    }

    /// Adds the given words, each once.
    pub fn add_tokens(&mut self, words: Vec<String>)
        requires
            old(self).wf(),
        ensures
            final(self).wf(),
            final(self).analyzer() == old(self).analyzer(),
            final(self).terms_view() == add_distinct(old(self).terms_view(), words@.map_values(|s: String| s@)),
    {
        let ghost start = self.terms_view();
        let ghost ws = words@.map_values(|s: String| s@);
        let mut i: usize = 0;
        proof {
            assert(ws.take(0) =~= Seq::<Seq<char>>::empty());
        }
        while i < words.len()
            invariant
                self.wf(),
                self.analyzer() == old(self).analyzer(),
                start == old(self).terms_view(),
                ws == words@.map_values(|s: String| s@),
                0 <= i <= words@.len(),
                self.terms_view() == add_distinct(start, ws.take(i as int)),
            decreases words@.len() - i,
        {
            proof {
                assert(ws.take(i as int + 1).drop_last() =~= ws.take(i as int));
                assert(ws.take(i as int + 1).last() == words@[i as int]@);
            }
            self.add_word(words[i].clone());
            i = i + 1;
        }
        proof {
            assert(ws.take(words@.len() as int) =~= ws);
        }
    }

    /// Adds the token texts that the analyzer finds in `text`.
    pub fn add_text(&mut self, text: &str)
        requires
            old(self).wf(),
        ensures
            final(self).wf(),
            final(self).analyzer() == old(self).analyzer(),
            final(self).terms_view() == add_distinct(
                old(self).terms_view(),
                old(self).analyzer().stream_tokens(text@).map_values(|t: TokenView| t.text),
            ),
    {
        let mut stream = self.analyzer.token_stream(text);
        let tokens = collect_tokens(&mut stream);
        proof {
            assert(stream.tokens().skip(0) =~= stream.tokens());
        }
        let mut words: Vec<String> = Vec::new();
        let mut i: usize = 0;
        while i < tokens.len()
            invariant
                0 <= i <= tokens@.len(),
                words@.len() == i,
                forall|k: int| 0 <= k < i ==> #[trigger] words@[k]@ == tokens@[k].text@,
            decreases tokens@.len() - i,
        {
            words.push(tokens[i].text.clone());
            i = i + 1;
        }
        proof {
            let wv = words@.map_values(|s: String| s@);
            let av = self.analyzer.stream_tokens(text@).map_values(|t: TokenView| t.text);
            let tv = tokens@.map_values(|t: Token| t@);
            assert(tv == self.analyzer.stream_tokens(text@));
            assert forall|k: int| 0 <= k < wv.len() implies #[trigger] wv[k] == av[k] by {
                assert(tv[k] == tokens@[k]@);
            }
            assert(wv =~= av);
        }
        self.add_tokens(words);
    }

    /// The vocabulary of the texts of `segments`, in order, with `analyzer`.
    pub fn new(segments: Vec<Segment>, analyzer: T) -> (v: Vocabulary<T>)
        ensures
            v.wf(),
            v.analyzer() == analyzer,
            v.terms_view() == add_distinct(
                Seq::empty(),
                analysis_texts(analysis_of(analyzer), segments@.map_values(|s: Segment| s.text@)),
            ),
            v.terms_view().no_duplicates(),
            forall|w: Seq<char>|
                #[trigger] v.terms_view().contains(w) <==> exists|i: int, k: int|
                    0 <= i < segments@.len() && 0 <= k < analyzer.stream_tokens(segments@[i].text@).len()
                        && (#[trigger] analyzer.stream_tokens(segments@[i].text@)[k]).text == w,
    {
        let ghost segs = segments@;
        let mut vocabulary = Vocabulary { analyzer, tokens: StringHashSet::new(), terms: Vec::new() };
        let ghost texts = segments@.map_values(|s: Segment| s.text@);
        let mut i: usize = 0;
        proof {
            assert(vocabulary.terms_view() =~= Seq::<Seq<char>>::empty());
            assert(texts.take(0) =~= Seq::<Seq<char>>::empty());
        }
        while i < segments.len()
            invariant
                vocabulary.wf(),
                vocabulary.analyzer() == analyzer,
                texts == segments@.map_values(|s: Segment| s.text@),
                0 <= i <= segments@.len(),
                vocabulary.terms_view() == add_distinct(Seq::empty(), analysis_texts(analysis_of(analyzer), texts.take(i as int))),
            decreases segments@.len() - i,
        {
            proof {
                assert(texts.take(i as int + 1).drop_last() =~= texts.take(i as int));
                assert(texts.take(i as int + 1).last() == segments@[i as int].text@);
                lemma_add_distinct_concat(
                    Seq::empty(),
                    analysis_texts(analysis_of(analyzer), texts.take(i as int)),
                    analyzer.stream_tokens(segments@[i as int].text@).map_values(|t: TokenView| t.text),
                );
            }
            vocabulary.add_text(segments[i].text.as_str());
            i = i + 1;
        }
        proof {
            assert(texts.take(segments@.len() as int) =~= texts);
            lemma_vocabulary_terms(analyzer, segs, Seq::empty());
            assert forall|w: Seq<char>|
                #[trigger] vocabulary.terms_view().contains(w) <==> exists|i: int, k: int|
                    0 <= i < segs.len() && 0 <= k < analyzer.stream_tokens(segs[i].text@).len()
                        && (#[trigger] analyzer.stream_tokens(segs[i].text@)[k]).text == w by {
                lemma_vocabulary_terms(analyzer, segs, w);
            }
        }
        vocabulary
    }

    /// The distinct token texts, in order of first occurrence.
    pub fn terms(&self) -> (out: Vec<String>)
        ensures
            out@.map_values(|s: String| s@) == self.terms_view(),
    {
        self.terms.clone()
    }
}

/// Adding two lists of words one after the other is adding their concatenation.
pub proof fn lemma_add_distinct_concat(seen: Seq<Seq<char>>, a: Seq<Seq<char>>, b: Seq<Seq<char>>)
    ensures
        add_distinct(add_distinct(seen, a), b) == add_distinct(seen, a + b),
    decreases b.len(),
{
    if b.len() == 0 {
        assert(a + b =~= a);
    } else {
        lemma_add_distinct_concat(seen, a, b.drop_last());
        assert((a + b).drop_last() =~= a + b.drop_last());
        assert((a + b).last() == b.last());
    }
}

impl<T: Tokenizer> IntoIterator for Vocabulary<T> {
    type Item = String;
    type IntoIter = std::vec::IntoIter<String>;

    /// The distinct token texts, in order of first occurrence.
    fn into_iter(self) -> (it: std::vec::IntoIter<String>)
        ensures
            into_iter_elts(it).map_values(|s: String| s@) == self.terms_view(),
    {
        let it = self.terms.into_iter();
        proof {
            broadcast use vstd::std_specs::vec::axiom_spec_into_iter;
        }
        it
    }
}

} // verus!

verus! {

/// The vocabulary of texts holds each token text that the analysis finds in them, and
/// nothing else, each once.
pub proof fn lemma_vocabulary_is_distinct_token_texts(
    analysis: spec_fn(Seq<char>) -> Seq<TokenView>,
    texts: Seq<Seq<char>>,
)
    ensures
        add_distinct(Seq::empty(), analysis_texts(analysis, texts)).no_duplicates(),
        forall|w: Seq<char>|
            #[trigger] add_distinct(Seq::empty(), analysis_texts(analysis, texts)).contains(w)
                <==> analysis_texts(analysis, texts).contains(w),
{
    lemma_add_distinct(Seq::empty(), analysis_texts(analysis, texts));
}


/// A word occurs among the token texts of texts exactly when some token of some text has it.
proof fn lemma_analysis_texts_contains(
    analysis: spec_fn(Seq<char>) -> Seq<TokenView>,
    texts: Seq<Seq<char>>,
    w: Seq<char>,
)
    ensures
        analysis_texts(analysis, texts).contains(w) <==> exists|i: int, k: int|
            0 <= i < texts.len() && 0 <= k < analysis(texts[i]).len() && (#[trigger] analysis(texts[i])[k]).text == w,
    decreases texts.len(),
{
    if texts.len() > 0 {
        let p = texts.drop_last();
        let last = analysis(texts.last()).map_values(|t: TokenView| t.text);
        lemma_analysis_texts_contains(analysis, p, w);
        let all = analysis_texts(analysis, texts);
        let before = analysis_texts(analysis, p);
        assert(all == before + last);
        if all.contains(w) {
            let m = choose|m: int| 0 <= m < all.len() && all[m] == w;
            if m < before.len() {
                assert(before[m] == w);
                let (i, k) = choose|i: int, k: int|
                    0 <= i < p.len() && 0 <= k < analysis(p[i]).len() && (#[trigger] analysis(p[i])[k]).text == w;
                assert(texts[i] == p[i]);
            } else {
                let k = m - before.len();
                assert(last[k] == w);
                assert(analysis(texts[texts.len() - 1])[k].text == w);
            }
        }
        if exists|i: int, k: int|
            0 <= i < texts.len() && 0 <= k < analysis(texts[i]).len() && (#[trigger] analysis(texts[i])[k]).text == w {
            let (i, k) = choose|i: int, k: int|
                0 <= i < texts.len() && 0 <= k < analysis(texts[i]).len() && (#[trigger] analysis(texts[i])[k]).text == w;
            if i < texts.len() - 1 {
                assert(p[i] == texts[i]);
                assert(analysis(p[i])[k].text == w);
                assert(before.contains(w));
                let m = choose|m: int| 0 <= m < before.len() && before[m] == w;
                assert(all[m] == w);
            } else {
                assert(last[k] == w);
                assert(all[before.len() + k] == w);
            }
        }
    }
}

/// The vocabulary of segments under an analyzer holds each word once, and a word is in it
/// exactly when the analyzer gives, for the text of some segment, a token with that text.
pub proof fn lemma_vocabulary_terms<T: Tokenizer>(analyzer: T, segments: Seq<Segment>, w: Seq<char>)
    ensures
        add_distinct(Seq::empty(), analysis_texts(analysis_of(analyzer), segments.map_values(|s: Segment| s.text@)))
            .no_duplicates(),
        add_distinct(Seq::empty(), analysis_texts(analysis_of(analyzer), segments.map_values(|s: Segment| s.text@)))
            .contains(w) <==> exists|i: int, k: int|
            0 <= i < segments.len() && 0 <= k < analyzer.stream_tokens(segments[i].text@).len()
                && (#[trigger] analyzer.stream_tokens(segments[i].text@)[k]).text == w,
{
    let texts = segments.map_values(|s: Segment| s.text@);
    let f = analysis_of(analyzer);
    lemma_add_distinct(Seq::empty(), analysis_texts(f, texts));
    lemma_analysis_texts_contains(f, texts, w);
    assert forall|i: int| 0 <= i < segments.len() implies #[trigger] f(texts[i]) == analyzer.stream_tokens(
        segments[i].text@,
    ) by {}
    if exists|i: int, k: int|
        0 <= i < segments.len() && 0 <= k < analyzer.stream_tokens(segments[i].text@).len()
            && (#[trigger] analyzer.stream_tokens(segments[i].text@)[k]).text == w {
        let (i, k) = choose|i: int, k: int|
            0 <= i < segments.len() && 0 <= k < analyzer.stream_tokens(segments[i].text@).len()
                && (#[trigger] analyzer.stream_tokens(segments[i].text@)[k]).text == w;
        assert(f(texts[i])[k].text == w);
    }
    if exists|i: int, k: int| 0 <= i < texts.len() && 0 <= k < f(texts[i]).len() && (#[trigger] f(texts[i])[k]).text == w {
        let (i, k) = choose|i: int, k: int|
            0 <= i < texts.len() && 0 <= k < f(texts[i]).len() && (#[trigger] f(texts[i])[k]).text == w;
        assert(f(texts[i]) == analyzer.stream_tokens(segments[i].text@));
        assert(analyzer.stream_tokens(segments[i].text@)[k].text == w);
    }
}

} // verus!
