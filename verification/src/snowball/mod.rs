//! The algorithmic Pāli stemmer, written as a Snowball program.
pub mod algorithms;
pub mod among;
pub mod snowball_env;

use crate::snowball::algorithms::pali::{pali_suffixes, removed_len, stem_of};
use crate::snowball::snowball_env::{ends_region, lemma_longest_match_len, SnowballEnv};
use std::borrow::Cow;
use vstd::prelude::*;

verus! {

/// The stem of `input`: `input` without its longest known Pāli ending. A word without a
/// known ending comes back borrowed, unchanged; a stemmed word comes back owned.
pub fn stem(input: &str) -> (out: Cow<'_, str>)
    ensures
        out@ == stem_of(input@),
        (out is Borrowed) == (removed_len(input@) == 0),
{
    let mut env = SnowballEnv::create(input);
    if algorithms::pali::stem(&mut env) {
        Cow::Owned(env.get_current())
    } else {
        Cow::Borrowed(input)
    }
}

/// The stem of `input` as an owned string: `input` without its longest known Pāli ending.
pub fn pali_stem(input: &str) -> (out: String)
    ensures
        out@ == stem_of(input@),
{
    match stem(input) {
        Cow::Borrowed(s) => String::from_str(s),
        Cow::Owned(s) => s,
    }
}

/// Stemming only ever cuts off an ending: the word is its stem followed by either nothing
/// (when no known ending fits) or a known ending, and that ending is the longest known
/// ending of the word, at most four characters.
pub proof fn lemma_stem_cuts_longest_ending(word: Seq<char>)
    ensures
        word == stem_of(word) + word.skip(stem_of(word).len() as int),
        removed_len(word) == word.len() - stem_of(word).len(),
        0 <= removed_len(word) <= 4,
        removed_len(word) == 0 ==> stem_of(word) == word && forall|i: int|
            0 <= i < pali_suffixes().len() ==> !ends_region(word, 0, word.len() as int, #[trigger] pali_suffixes()[i]),
        removed_len(word) != 0 ==> pali_suffixes().contains(word.skip(stem_of(word).len() as int)),
        forall|i: int|
            0 <= i < pali_suffixes().len() && ends_region(word, 0, word.len() as int, #[trigger] pali_suffixes()[i])
                ==> pali_suffixes()[i].len() <= removed_len(word),
{
    let table = pali_suffixes();
    let n = word.len() as int;
    lemma_longest_match_len(table, word, 0, n);
    assert forall|i: int| 0 <= i < table.len() implies (#[trigger] table[i]).len() <= 4 by {}
    let r = removed_len(word);
    assert(word =~= word.take(n - r) + word.skip(n - r));
    if r == 0 {
        assert(word.take(n) =~= word);
        assert forall|i: int|
            0 <= i < table.len() implies !ends_region(word, 0, n, #[trigger] table[i]) by {
            if ends_region(word, 0, n, table[i]) {
                assert(table[i].len() > 0);
            }
        }
    } else {
        let i = choose|i: int|
            0 <= i < table.len() && ends_region(word, 0, n, #[trigger] table[i]) && table[i].len() == r;
        assert(word.skip(n - r) =~= word.subrange(n - table[i].len(), n));
        assert(table[i] == word.skip(n - r));
    }
}


/// The stemmer knows exactly these 25 endings: a, māna, issa, anta, enta, onta, unta, i,
/// esi, āsi, ati, eti, āti, o, ant, u, aṁ, iṁ, uṁ, ā, aṃ, iṃ, uṃ, ī, ū. A word's stem is the
/// word without the longest of them that it ends with, or the whole word when it ends with
/// none of them.
pub proof fn lemma_stem_cuts_listed_ending(word: Seq<char>)
    ensures
        ({
            let endings: Seq<Seq<char>> = seq![
                seq!['a'],
                seq!['m', 'ā', 'n', 'a'],
                seq!['i', 's', 's', 'a'],
                seq!['a', 'n', 't', 'a'],
                seq!['e', 'n', 't', 'a'],
                seq!['o', 'n', 't', 'a'],
                seq!['u', 'n', 't', 'a'],
                seq!['i'],
                seq!['e', 's', 'i'],
                seq!['ā', 's', 'i'],
                seq!['a', 't', 'i'],
                seq!['e', 't', 'i'],
                seq!['ā', 't', 'i'],
                seq!['o'],
                seq!['a', 'n', 't'],
                seq!['u'],
                seq!['a', 'ṁ'],
                seq!['i', 'ṁ'],
                seq!['u', 'ṁ'],
                seq!['ā'],
                seq!['a', 'ṃ'],
                seq!['i', 'ṃ'],
                seq!['u', 'ṃ'],
                seq!['ī'],
                seq!['ū'],
            ];
            let cut = word.skip(stem_of(word).len() as int);
            &&& word == stem_of(word) + cut
            &&& cut.len() == 0 || endings.contains(cut)
            &&& forall|e: Seq<char>|
                #[trigger] endings.contains(e) && e.len() <= word.len() && word.skip(word.len() - e.len()) == e
                    ==> e.len() <= cut.len()
        }),
{
    let endings: Seq<Seq<char>> = seq![
        seq!['a'],
        seq!['m', 'ā', 'n', 'a'],
        seq!['i', 's', 's', 'a'],
        seq!['a', 'n', 't', 'a'],
        seq!['e', 'n', 't', 'a'],
        seq!['o', 'n', 't', 'a'],
        seq!['u', 'n', 't', 'a'],
        seq!['i'],
        seq!['e', 's', 'i'],
        seq!['ā', 's', 'i'],
        seq!['a', 't', 'i'],
        seq!['e', 't', 'i'],
        seq!['ā', 't', 'i'],
        seq!['o'],
        seq!['a', 'n', 't'],
        seq!['u'],
        seq!['a', 'ṁ'],
        seq!['i', 'ṁ'],
        seq!['u', 'ṁ'],
        seq!['ā'],
        seq!['a', 'ṃ'],
        seq!['i', 'ṃ'],
        seq!['u', 'ṃ'],
        seq!['ī'],
        seq!['ū'],
    ];
    assert(pali_suffixes() =~= endings);
    lemma_stem_cuts_longest_ending(word);
    let n = word.len() as int;
    let cut = word.skip(stem_of(word).len() as int);
    assert forall|e: Seq<char>|
        #[trigger] endings.contains(e) && e.len() <= word.len() && word.skip(word.len() - e.len()) == e
            implies e.len() <= cut.len() by {
        let i = choose|i: int| 0 <= i < endings.len() && endings[i] == e;
        assert(word.subrange(n - e.len(), n) =~= word.skip(n - e.len()));
        assert(ends_region(word, 0, n, pali_suffixes()[i]));
    }
}

/// A word made of `w` and a known ending `e` that no longer known ending of it outgrows has
/// `w` as its stem: for instance the stem of `w` followed by "uṁ" is `w`.
pub proof fn lemma_listed_ending_is_cut(w: Seq<char>, e: Seq<char>)
    requires
        ({
            let endings: Seq<Seq<char>> = seq![
                seq!['a'],
                seq!['m', 'ā', 'n', 'a'],
                seq!['i', 's', 's', 'a'],
                seq!['a', 'n', 't', 'a'],
                seq!['e', 'n', 't', 'a'],
                seq!['o', 'n', 't', 'a'],
                seq!['u', 'n', 't', 'a'],
                seq!['i'],
                seq!['e', 's', 'i'],
                seq!['ā', 's', 'i'],
                seq!['a', 't', 'i'],
                seq!['e', 't', 'i'],
                seq!['ā', 't', 'i'],
                seq!['o'],
                seq!['a', 'n', 't'],
                seq!['u'],
                seq!['a', 'ṁ'],
                seq!['i', 'ṁ'],
                seq!['u', 'ṁ'],
                seq!['ā'],
                seq!['a', 'ṃ'],
                seq!['i', 'ṃ'],
                seq!['u', 'ṃ'],
                seq!['ī'],
                seq!['ū'],
            ];
            &&& endings.contains(e)
            &&& forall|f: Seq<char>|
                #[trigger] endings.contains(f) && f.len() <= (w + e).len() && (w + e).skip((w + e).len() - f.len()) == f
                    ==> f.len() <= e.len()
        }),
    ensures
        stem_of(w + e) == w,
{
    let endings: Seq<Seq<char>> = seq![
        seq!['a'],
        seq!['m', 'ā', 'n', 'a'],
        seq!['i', 's', 's', 'a'],
        seq!['a', 'n', 't', 'a'],
        seq!['e', 'n', 't', 'a'],
        seq!['o', 'n', 't', 'a'],
        seq!['u', 'n', 't', 'a'],
        seq!['i'],
        seq!['e', 's', 'i'],
        seq!['ā', 's', 'i'],
        seq!['a', 't', 'i'],
        seq!['e', 't', 'i'],
        seq!['ā', 't', 'i'],
        seq!['o'],
        seq!['a', 'n', 't'],
        seq!['u'],
        seq!['a', 'ṁ'],
        seq!['i', 'ṁ'],
        seq!['u', 'ṁ'],
        seq!['ā'],
        seq!['a', 'ṃ'],
        seq!['i', 'ṃ'],
        seq!['u', 'ṃ'],
        seq!['ī'],
        seq!['ū'],
    ];
    let word = w + e;
    lemma_stem_cuts_listed_ending(word);
    let cut = word.skip(stem_of(word).len() as int);
    assert(word.skip(word.len() - e.len()) =~= e);
    assert(e.len() <= cut.len());
    assert(e.len() > 0);
    assert(endings.contains(cut));
    assert(word.skip(word.len() - cut.len()) =~= cut);
    assert(cut.len() <= e.len());
    assert(cut =~= e);
    assert(stem_of(word) =~= w);
}

} // verus!
