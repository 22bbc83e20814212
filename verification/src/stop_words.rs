//! Finding stop word candidates: the most frequent words of a corpus.
use crate::analyzers::{lowered_tokens, Analyzer};
use crate::texts::{str_lt, Segment};
use crate::token::{Token, TokenView};
use crate::vocabulary::analysis_texts;
use vstd::multiset::Multiset;
use vstd::prelude::*;

verus! {

/// `a` (with count `na`) ranks before `b` (with count `nb`): a higher count, or the same
/// count and a smaller word.
pub open spec fn ranks_before(a: Seq<char>, na: nat, b: Seq<char>, nb: nat) -> bool {
    na > nb || (na == nb && str_lt(a, b))
}

/// `words` are the `k` (or, when fewer words were counted, all) most frequent words of `m`,
/// from the most frequent down, words with the same count in increasing order.
pub open spec fn top_words(m: Multiset<Seq<char>>, k: nat, words: Seq<Seq<char>>) -> bool {
    &&& words.len() == if k < m.dom().len() {
        k
    } else {
        m.dom().len()
    }
    &&& forall|i: int| 0 <= i < words.len() ==> m.count(#[trigger] words[i]) > 0
    &&& forall|i: int, j: int|
        0 <= i < j < words.len() ==> ranks_before(
            #[trigger] words[i],
            m.count(words[i]),
            #[trigger] words[j],
            m.count(words[j]),
        )
    &&& forall|w: Seq<char>, i: int|
        m.count(w) > 0 && !words.contains(w) && 0 <= i < words.len() ==> ranks_before(
            #[trigger] words[i],
            m.count(words[i]),
            w,
            #[trigger] m.count(w),
        )
}

/// The analysis of the plain analyzer: lower-cased Pāli tokens.
pub open spec fn lowered_analysis() -> spec_fn(Seq<char>) -> Seq<TokenView> {
    |text: Seq<char>| lowered_tokens(text)
}

/// The `k` most frequent of `words`, each with its count.
///
/// Trusted: collects the words into a `counter::Counter<String>` (its `FromIterator` impl
/// adds one to a word's count for each occurrence, so every counted word has a positive
/// count) and calls `Counter::k_most_common_ordered`, which gives the entries in decreasing
/// order of their counts, entries with the same count in increasing order of their keys,
/// truncated to length `k` (all entries when there are fewer).
#[verifier::external_body]
fn most_common(words: &Vec<String>, k: usize) -> (out: Vec<(String, usize)>)
    ensures
        top_words(words@.map_values(|w: String| w@).to_multiset(), k as nat, out@.map_values(|e: (String, usize)| e.0@)),
        forall|i: int| 0 <= i < out@.len() ==> words@.map_values(|w: String| w@).to_multiset().count((#[trigger] out@[i]).0@)
            == out@[i].1,
{
    words.iter().cloned().collect::<counter::Counter<String>>().k_most_common_ordered(k)
}

/// The `number` most frequent lower-cased Pāli words of the texts of `segments`, from the
/// most frequent down; words with the same count in increasing order.
pub fn most_frequent_words(segments: Vec<Segment>, number: usize) -> (out: Vec<String>)
    ensures
        top_words(
            analysis_texts(lowered_analysis(), segments@.map_values(|s: Segment| s.text@)).to_multiset(),
            number as nat,
            out@.map_values(|w: String| w@),
        ),
{
    let analyzer = Analyzer::plain();
    let ghost texts = segments@.map_values(|s: Segment| s.text@);
    let mut tokens: Vec<String> = Vec::new();
    let mut i: usize = 0;
    proof {
        assert(texts.take(0) =~= Seq::<Seq<char>>::empty());
        assert(tokens@.map_values(|w: String| w@) =~= Seq::<Seq<char>>::empty());
    }
    while i < segments.len()
        invariant
            0 <= i <= segments@.len(),
            texts == segments@.map_values(|s: Segment| s.text@),
            forall|text: Seq<char>| #[trigger] analyzer.analysis(text) == lowered_tokens(text),
            tokens@.map_values(|w: String| w@) == analysis_texts(lowered_analysis(), texts.take(i as int)),
        decreases segments@.len() - i,
    {
        let found = analyzer.analyze(segments[i].text.as_str());
        let ghost before = tokens@.map_values(|w: String| w@);
        let mut j: usize = 0;
        while j < found.len()
            invariant
                0 <= j <= found@.len(),
                tokens@.map_values(|w: String| w@) == before + found@.map_values(|t: Token| t@.text).take(j as int),
            decreases found@.len() - j,
        {
            let ghost prev = tokens@;
            let word = found[j].text.clone();
            tokens.push(word);
            proof {
                assert(tokens@ == prev.push(word));
                assert(prev.push(word).map_values(|w: String| w@) =~= prev.map_values(|w: String| w@).push(word@));
                assert(found@.map_values(|t: Token| t@.text)[j as int] == word@);
                assert(tokens@.map_values(|w: String| w@) =~= before + found@.map_values(|t: Token| t@.text).take(j as int + 1));
            }
            j = j + 1;
        }
        proof {
            assert(texts.take(i as int + 1).drop_last() =~= texts.take(i as int));
            assert(texts.take(i as int + 1).last() == segments@[i as int].text@);
            assert(found@.map_values(|t: Token| t@.text).take(j as int) =~= found@.map_values(|t: Token| t@).map_values(
                |t: TokenView| t.text,
            ));
        }
        i = i + 1;
    }
    proof {
        assert(texts.take(segments@.len() as int) =~= texts);
    }
    let common = most_common(&tokens, number);
    let mut out: Vec<String> = Vec::new();
    let mut k: usize = 0;
    while k < common.len()
        invariant
            0 <= k <= common@.len(),
            out@.len() == k,
            forall|m: int| 0 <= m < k ==> #[trigger] out@[m]@ == common@[m].0@,
        decreases common@.len() - k,
    {
        out.push(common[k].0.clone());
        k = k + 1;
    }
    proof {
        assert(out@.map_values(|w: String| w@) =~= common@.map_values(|e: (String, usize)| e.0@));
    }
    out
}

} // verus!
