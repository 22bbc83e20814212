//! The Pāli stemming program: removes the longest known inflectional ending.
use crate::snowball::among::{among_strings, Among};
use crate::snowball::snowball_env::{lemma_longest_match_len, longest_match_len, SnowballEnv};
use vstd::prelude::*;

verus! {

/// The endings that the stemmer removes, in the order of its `among` table.
pub open spec fn pali_suffixes() -> Seq<Seq<char>> {
    seq![
        seq!['a'],
        seq!['m', 'ā', 'n', 'a'],
        seq!['i', 's', 's', 'a'],
        seq!['a', 'n', 't', 'a'],
        seq!['e', 'n', 't', 'a'],
        seq!['o', 'n', 't', 'a'],
        seq!['u', 'n', 't', 'a'],
        seq!['i'],
        seq!['e', 's', 'i'],
        seq!['ā', 's', 'i'],
        seq!['a', 't', 'i'],
        seq!['e', 't', 'i'],
        seq!['ā', 't', 'i'],
        seq!['o'],
        seq!['a', 'n', 't'],
        seq!['u'],
        seq!['a', 'ṁ'],
        seq!['i', 'ṁ'],
        seq!['u', 'ṁ'],
        seq!['ā'],
        seq!['a', 'ṃ'],
        seq!['i', 'ṃ'],
        seq!['u', 'ṃ'],
        seq!['ī'],
        seq!['ū'],
    ]
}

/// The length of the longest ending of `pali_suffixes` that `word` ends with, 0 if none.
pub open spec fn removed_len(word: Seq<char>) -> int {
    longest_match_len(pali_suffixes(), word, 0, word.len() as int)
}

/// The stem of `word`: the word without its longest known ending.
pub open spec fn stem_of(word: Seq<char>) -> Seq<char> {
    word.take(word.len() - removed_len(word))
}

/// The `among` table of endings.
fn endings() -> (table: Vec<Among>)
    ensures
        among_strings(table@) == pali_suffixes(),
        forall|i: int| 0 <= i < table@.len() ==> (#[trigger] table@[i]).0@.len() > 0 && table@[i].2 != 0,
{
    let table = vec![
        Among("a", -1, -1),
        Among("māna", 0, -1),
        Among("issa", 0, -1),
        Among("anta", 0, -1),
        Among("enta", 0, -1),
        Among("onta", 0, -1),
        Among("unta", 0, -1),
        Among("i", -1, -1),
        Among("esi", 7, -1),
        Among("āsi", 7, -1),
        Among("ati", 7, -1),
        Among("eti", 7, -1),
        Among("āti", 7, -1),
        Among("o", -1, -1),
        Among("ant", -1, -1),
        Among("u", -1, -1),
        Among("a\u{1E41}", -1, -1),
        Among("i\u{1E41}", -1, -1),
        Among("u\u{1E41}", -1, -1),
        Among("ā", -1, -1),
        Among("a\u{1E43}", -1, -1),
        Among("i\u{1E43}", -1, -1),
        Among("u\u{1E43}", -1, -1),
        Among("ī", -1, -1),
        Among("ū", -1, -1),
    ];
    proof {
        reveal_strlit("a");
        reveal_strlit("māna");
        reveal_strlit("issa");
        reveal_strlit("anta");
        reveal_strlit("enta");
        reveal_strlit("onta");
        reveal_strlit("unta");
        reveal_strlit("i");
        reveal_strlit("esi");
        reveal_strlit("āsi");
        reveal_strlit("ati");
        reveal_strlit("eti");
        reveal_strlit("āti");
        reveal_strlit("o");
        reveal_strlit("ant");
        reveal_strlit("u");
        reveal_strlit("a\u{1E41}");
        reveal_strlit("i\u{1E41}");
        reveal_strlit("u\u{1E41}");
        reveal_strlit("ā");
        reveal_strlit("a\u{1E43}");
        reveal_strlit("i\u{1E43}");
        reveal_strlit("u\u{1E43}");
        reveal_strlit("ī");
        reveal_strlit("ū");
        assert("a"@ =~= seq!['a']);
        assert("māna"@ =~= seq!['m', 'ā', 'n', 'a']);
        assert("issa"@ =~= seq!['i', 's', 's', 'a']);
        assert("anta"@ =~= seq!['a', 'n', 't', 'a']);
        assert("enta"@ =~= seq!['e', 'n', 't', 'a']);
        assert("onta"@ =~= seq!['o', 'n', 't', 'a']);
        assert("unta"@ =~= seq!['u', 'n', 't', 'a']);
        assert("i"@ =~= seq!['i']);
        assert("esi"@ =~= seq!['e', 's', 'i']);
        assert("āsi"@ =~= seq!['ā', 's', 'i']);
        assert("ati"@ =~= seq!['a', 't', 'i']);
        assert("eti"@ =~= seq!['e', 't', 'i']);
        assert("āti"@ =~= seq!['ā', 't', 'i']);
        assert("o"@ =~= seq!['o']);
        assert("ant"@ =~= seq!['a', 'n', 't']);
        assert("u"@ =~= seq!['u']);
        assert("a\u{1E41}"@ =~= seq!['a', 'ṁ']);
        assert("i\u{1E41}"@ =~= seq!['i', 'ṁ']);
        assert("u\u{1E41}"@ =~= seq!['u', 'ṁ']);
        assert("ā"@ =~= seq!['ā']);
        assert("a\u{1E43}"@ =~= seq!['a', 'ṃ']);
        assert("i\u{1E43}"@ =~= seq!['i', 'ṃ']);
        assert("u\u{1E43}"@ =~= seq!['u', 'ṃ']);
        assert("ī"@ =~= seq!['ī']);
        assert("ū"@ =~= seq!['ū']);
        assert(among_strings(table@) =~= pali_suffixes());
    }
    table
}

/// Runs the Pāli stemming program on a fresh environment: the longest known ending is
/// deleted from the word. The result tells whether an ending was found; the cursor ends at
/// the start of the word when one was, and at its end when none was.
pub fn stem(env: &mut SnowballEnv) -> (found: bool)
    requires
        old(env).wf(),
        old(env).cursor == 0,
    ensures
        final(env).current@ == stem_of(old(env).current@),
        found == (removed_len(old(env).current@) != 0),
        final(env).wf(),
        final(env).limit_backward == 0,
        found ==> final(env).cursor == 0,
        !found ==> final(env).cursor == old(env).current@.len(),
{
    let table = endings();
    env.limit_backward = env.cursor;
    env.cursor = env.limit;
    env.ket = env.cursor;
    if env.find_among_b(&table) == 0 {
        proof {
            assert(env.current@.take(env.current@.len() as int) =~= env.current@);
        }
        return false;
    }
    env.bra = env.cursor;
    env.slice_del();
    env.cursor = env.limit_backward;
    proof {
        assert(old(env).current@.skip(old(env).current@.len() as int) =~= Seq::<char>::empty());
        assert(env.current@ =~= stem_of(old(env).current@));
    }
    true
}

} // verus!
