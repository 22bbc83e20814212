//! Character inventories: the Pāli alphabet in code point order, and the characters of
//! the texts that lie outside it.
use crate::texts::Segment;
use crate::token::chars_of;
use crate::tokenizer::{in_alphabet, pali_alphabet, PaliTokenizer};
use vstd::prelude::*;

verus! {

/// The characters of `s` are in strictly increasing order of their code points (so none
/// occurs twice).
pub open spec fn strictly_increasing(s: Seq<char>) -> bool {
    forall|i: int, j: int| 0 <= i < j < s.len() ==> (s[i] as int) < (s[j] as int)
}

proof fn lemma_char_code(c: char)
    ensures
        c as u32 == c as int,
{
}

/// Adds `c` to the ordered character set `set`, at its place.
fn insert_char(set: &mut Vec<char>, c: char)
    requires
        strictly_increasing(old(set)@),
    ensures
        strictly_increasing(final(set)@),
        final(set)@.to_set() == old(set)@.to_set().insert(c),
{
    let mut i: usize = 0;
    while i < set.len() && (set[i] as u32) < (c as u32)
        invariant
            0 <= i <= set@.len(),
            forall|j: int| 0 <= j < i ==> (set@[j] as int) < (c as int),
        decreases set@.len() - i,
    {
        proof {
            lemma_char_code(set@[i as int]);
            lemma_char_code(c);
        }
        i = i + 1;
    }
    if i < set.len() && set[i] == c {
        proof {
            assert(set@.contains(c));
            assert(set@.to_set().insert(c) =~= set@.to_set());
        }
        return;
    }
    let ghost before = set@;
    proof {
        if i < before.len() {
            lemma_char_code(before[i as int]);
            lemma_char_code(c);
        }
        assert forall|k: int| i <= k < before.len() implies (c as int) < (#[trigger] before[k] as int) by {
            assert((c as int) < (before[i as int] as int));
        }
        before.insert_ensures(i as int, c);
    }
    set.insert(i, c);
    proof {
        let after = set@;
        assert(after == before.insert(i as int, c));
        assert forall|a: int, b: int| 0 <= a < b < after.len() implies (after[a] as int) < (after[b] as int) by {
            if b < i {
            } else if b == i {
            } else if a < i {
                assert(after[b] == before[b - 1]);
            } else if a == i {
                assert(after[b] == before[b - 1]);
            } else {
                assert(after[a] == before[a - 1]);
                assert(after[b] == before[b - 1]);
            }
        }
        assert forall|x: char| after.to_set().contains(x) == before.to_set().insert(c).contains(x) by {
            if before.contains(x) {
                let j = choose|j: int| 0 <= j < before.len() && before[j] == x;
                if j < i {
                    assert(after[j] == x);
                } else {
                    assert(after[j + 1] == x);
                }
            }
            if x == c {
                assert(after[i as int] == x);
            }
            if after.contains(x) {
                let k = choose|k: int| 0 <= k < after.len() && after[k] == x;
                if k < i {
                    assert(before[k] == x);
                } else if k > i {
                    assert(before[k - 1] == x);
                }
            }
        }
        assert(after.to_set() =~= before.to_set().insert(c));
    }
}

/// The distinct characters of `chars`, in increasing order of their code points.
pub fn char_set(chars: &Vec<char>) -> (out: Vec<char>)
    ensures
        strictly_increasing(out@),
        out@.to_set() == chars@.to_set(),
{
    let mut out: Vec<char> = Vec::new();
    let mut i: usize = 0;
    while i < chars.len()
        invariant
            0 <= i <= chars@.len(),
            strictly_increasing(out@),
            out@.to_set() == chars@.take(i as int).to_set(),
        decreases chars@.len() - i,
    {
        insert_char(&mut out, chars[i]);
        proof {
            assert(chars@.take(i + 1) == chars@.take(i as int).push(chars@[i as int]));
            chars@.take(i as int).lemma_push_to_set_commute(chars@[i as int]);
        }
        i = i + 1;
    }
    proof {
        assert(chars@.take(i as int) == chars@);
    }
    out
}

/// The letters of the default Pāli alphabet, in increasing order of their code points.
pub fn pali_characters() -> (out: Vec<char>)
    ensures
        strictly_increasing(out@),
        out@.to_set() == pali_alphabet().to_set(),
{
    let tokenizer = PaliTokenizer::default();
    char_set(&tokenizer.alphabet)
}

/// The characters that occur in some of `texts`, as a set.
pub open spec fn text_chars(texts: Seq<Seq<char>>) -> Set<char> {
    Set::new(|c: char| exists|t: int| 0 <= t < texts.len() && #[trigger] texts[t].contains(c))
}

/// The texts of `segments`.
pub open spec fn segment_texts(segments: Seq<Segment>) -> Seq<Seq<char>> {
    segments.map_values(|s: Segment| s.text@)
}

/// The distinct characters of the segments' texts that are not in `alphabet`, in
/// increasing order of their code points.
pub fn other_characters(alphabet: &Vec<char>, segments: &Vec<Segment>) -> (out: Vec<char>)
    ensures
        strictly_increasing(out@),
        out@.to_set() == text_chars(segment_texts(segments@)).filter(|c: char| !alphabet@.contains(c)),
{
    let ghost texts = segment_texts(segments@);
    let mut out: Vec<char> = Vec::new();
    let mut s: usize = 0;
    while s < segments.len()
        invariant
            0 <= s <= segments@.len(),
            texts == segment_texts(segments@),
            strictly_increasing(out@),
            out@.to_set() == text_chars(texts.take(s as int)).filter(|c: char| !alphabet@.contains(c)),
        decreases segments@.len() - s,
    {
        let chars = chars_of(segments[s].text.as_str());
        let ghost before = out@.to_set();
        let mut i: usize = 0;
        while i < chars.len()
            invariant
                0 <= s < segments@.len(),
                0 <= i <= chars@.len(),
                chars@ == segments@[s as int].text@,
                strictly_increasing(out@),
                out@.to_set() == before + chars@.take(i as int).to_set().filter(|c: char| !alphabet@.contains(c)),
            decreases chars@.len() - i,
        {
            let c = chars[i];
            if !in_alphabet(alphabet, c) {
                insert_char(&mut out, c);
            }
            proof {
                assert(chars@.take(i + 1) == chars@.take(i as int).push(c));
                chars@.take(i as int).lemma_push_to_set_commute(c);
                assert(out@.to_set() =~= before + chars@.take(i + 1).to_set().filter(|c: char| !alphabet@.contains(c)));
            }
            i = i + 1;
        }
        proof {
            assert(chars@.take(i as int) == chars@);
            let prev = text_chars(texts.take(s as int));
            let next = text_chars(texts.take(s + 1));
            assert(texts[s as int] == chars@);
            assert forall|c: char| next.contains(c) == (prev.contains(c) || chars@.contains(c)) by {
                if next.contains(c) {
                    let t = choose|t: int| 0 <= t < s + 1 && #[trigger] texts.take(s + 1)[t].contains(c);
                    if t < s {
                        assert(texts.take(s as int)[t] == texts.take(s + 1)[t]);
                    }
                }
                if prev.contains(c) {
                    let t = choose|t: int| 0 <= t < s && #[trigger] texts.take(s as int)[t].contains(c);
                    assert(texts.take(s + 1)[t] == texts.take(s as int)[t]);
                }
                if chars@.contains(c) {
                    assert(texts.take(s + 1)[s as int] == chars@);
                }
            }
            assert(out@.to_set() =~= next.filter(|c: char| !alphabet@.contains(c)));
        }
        s = s + 1;
    }
    proof {
        assert(texts.take(s as int) == texts);
    }
    out
}

} // verus!
