//! The state on which a Snowball stemming program works: the word and the cursors in it,
//! counted in characters.
use crate::snowball::among::{among_strings, Among};
use crate::token::chars_of;
use vstd::prelude::*;

verus! {

/// Whether `t` ends the region `s[lb..c]`.
pub open spec fn ends_region(s: Seq<char>, lb: int, c: int, t: Seq<char>) -> bool {
    &&& t.len() <= c - lb
    &&& s.subrange(c - t.len(), c) == t
}

/// The length of the longest string of `table` that ends the region `s[lb..c]`, or 0 when
/// none does.
pub open spec fn longest_match_len(table: Seq<Seq<char>>, s: Seq<char>, lb: int, c: int) -> int
    decreases table.len(),
{
    if table.len() == 0 {
        0
    } else {
        let rest = longest_match_len(table.drop_last(), s, lb, c);
        let t = table.last();
        if ends_region(s, lb, c, t) && t.len() > rest {
            t.len() as int
        } else {
            rest
        }
    }
}

/// The longest match is 0 or the length of a matching entry, and no matching entry is longer.
pub proof fn lemma_longest_match_len(table: Seq<Seq<char>>, s: Seq<char>, lb: int, c: int)
    ensures
        0 <= longest_match_len(table, s, lb, c),
        longest_match_len(table, s, lb, c) == 0 || exists|i: int|
            0 <= i < table.len() && ends_region(s, lb, c, #[trigger] table[i])
                && table[i].len() == longest_match_len(table, s, lb, c),
        forall|i: int|
            0 <= i < table.len() && ends_region(s, lb, c, #[trigger] table[i]) ==> table[i].len()
                <= longest_match_len(table, s, lb, c),
    decreases table.len(),
{
    if table.len() > 0 {
        let p = table.drop_last();
        lemma_longest_match_len(p, s, lb, c);
        assert forall|i: int|
            0 <= i < table.len() && ends_region(s, lb, c, #[trigger] table[i]) implies table[i].len()
                <= longest_match_len(table, s, lb, c) by {
            if i < table.len() - 1 {
                assert(table[i] == p[i]);
            }
        }
        if longest_match_len(table, s, lb, c) != 0 && longest_match_len(table, s, lb, c) == longest_match_len(p, s, lb, c) {
            let i = choose|i: int|
                0 <= i < p.len() && ends_region(s, lb, c, #[trigger] p[i]) && p[i].len()
                    == longest_match_len(p, s, lb, c);
            assert(table[i] == p[i]);
        }
    }
}

/// A Snowball environment: the current word and the cursors of the stemming program.
pub struct SnowballEnv {
    pub current: String,
    pub cursor: usize,
    pub limit: usize,
    pub limit_backward: usize,
    pub bra: usize,
    pub ket: usize,
}

impl SnowballEnv {
    /// The cursors lie within the word and `limit` is its end.
    pub open spec fn wf(&self) -> bool {
        &&& self.limit == self.current@.len()
        &&& self.cursor <= self.limit
        &&& self.bra <= self.ket <= self.limit
    }

    /// A fresh environment on `value`: the cursor at its start, the limit at its end.
    pub fn create(value: &str) -> (env: SnowballEnv)
        ensures
            env.wf(),
            env.current@ == value@,
            env.cursor == 0,
            env.limit_backward == 0,
            env.bra == 0,
            env.ket == value@.len(),
    {
        let len = value.unicode_len();
        SnowballEnv {
            current: String::from_str(value),
            cursor: 0,
            limit: len,
            limit_backward: 0,
            bra: 0,
            ket: len,
        }
    }

    /// The current word.
    pub fn get_current(&self) -> (s: String)
        ensures
            s@ == self.current@,
    {
        self.current.clone()
    }

    /// Looks backwards from the cursor, down to `limit_backward`, for the longest string of
    /// `amongs` that ends there. On a match the cursor moves to the start of that string and
    /// its result is returned; without one the result is 0 and the cursor stays.
    pub fn find_among_b(&mut self, amongs: &Vec<Among>) -> (result: i32)
        requires
            old(self).wf(),
            old(self).limit_backward <= old(self).cursor,
            forall|i: int| 0 <= i < amongs@.len() ==> (#[trigger] amongs@[i]).0@.len() > 0 && amongs@[i].2 != 0,
        ensures
            final(self).wf(),
            final(self).current == old(self).current,
            final(self).limit == old(self).limit,
            final(self).limit_backward == old(self).limit_backward,
            final(self).bra == old(self).bra,
            final(self).ket == old(self).ket,
            ({
                let len = longest_match_len(
                    among_strings(amongs@),
                    old(self).current@,
                    old(self).limit_backward as int,
                    old(self).cursor as int,
                );
                &&& (result == 0) == (len == 0)
                &&& final(self).cursor == old(self).cursor - len
                &&& result != 0 ==> exists|i: int|
                    0 <= i < amongs@.len() && (#[trigger] amongs@[i]).2 == result
                        && amongs@[i].0@.len() == len && ends_region(
                        old(self).current@,
                        old(self).limit_backward as int,
                        old(self).cursor as int,
                        amongs@[i].0@,
                    )
            }),
    {
        let ghost table = among_strings(amongs@);
        let ghost s = self.current@;
        let cs = chars_of(self.current.as_str());
        let c = self.cursor;
        let lb = self.limit_backward;
        let mut best_len: usize = 0;
        let mut best_result: i32 = 0;
        let mut i: usize = 0;
        while i < amongs.len()
            invariant
                cs@ == s,
                s == self.current@,
                self.wf(),
                lb <= c <= s.len(),
                c == self.cursor,
                lb == self.limit_backward,
                table == among_strings(amongs@),
                0 <= i <= amongs@.len(),
                forall|j: int| 0 <= j < amongs@.len() ==> (#[trigger] amongs@[j]).0@.len() > 0 && amongs@[j].2 != 0,
                best_len == longest_match_len(table.take(i as int), s, lb as int, c as int),
                best_len <= c - lb,
                (best_result == 0) == (best_len == 0),
                best_result != 0 ==> exists|j: int|
                    0 <= j < i && (#[trigger] amongs@[j]).2 == best_result
                        && amongs@[j].0@.len() == best_len && ends_region(s, lb as int, c as int, amongs@[j].0@),
            decreases amongs@.len() - i,
        {
            let t = chars_of(amongs[i].0);
            let tl = t.len();
            proof {
                assert(table.take(i as int + 1).drop_last() =~= table.take(i as int));
                assert(table.take(i as int + 1).last() == amongs@[i as int].0@);
            }
            if tl <= c - lb && tl > best_len {
                let mut k: usize = 0;
                let mut same = true;
                while k < tl
                    invariant
                        cs@ == s,
                        t@ == amongs@[i as int].0@,
                        tl == t@.len(),
                        tl <= c - lb,
                        c <= s.len(),
                        0 <= k <= tl,
                        same == (forall|m: int| 0 <= m < k ==> s[c - tl + m] == t@[m]),
                    decreases tl - k,
                {
                    if cs[c - tl + k] != t[k] {
                        same = false;
                    }
                    k = k + 1;
                }
                proof {
                    if same {
                        assert(s.subrange(c - tl, c as int) =~= t@);
                    } else {
                        let m = choose|m: int| 0 <= m < tl && s[c - tl + m] != t@[m];
                        assert(s.subrange(c - tl, c as int)[m] != t@[m]);
                    }
                }
                if same {
                    best_len = tl;
                    best_result = amongs[i].2;
                }
            }
            i = i + 1;
        }
        proof {
            assert(table.take(amongs@.len() as int) =~= table);
        }
        self.cursor = c - best_len;
        best_result
    }

    /// Deletes the characters between `bra` and `ket`; the limit shrinks with the word, a
    /// cursor past the deleted part moves with it, and `ket` closes onto `bra`.
    pub fn slice_del(&mut self) -> (done: bool)
        requires
            old(self).wf(),
        ensures
            final(self).wf(),
            done,
            final(self).current@ == old(self).current@.take(old(self).bra as int) + old(self).current@.skip(
                old(self).ket as int,
            ),
            final(self).bra == old(self).bra,
            final(self).ket == old(self).bra,
            final(self).limit_backward == old(self).limit_backward,
            final(self).cursor == if old(self).cursor >= old(self).ket {
                old(self).cursor - (old(self).ket - old(self).bra)
            } else if old(self).cursor > old(self).bra {
                old(self).bra as int
            } else {
                old(self).cursor as int
            },
    {
        let len = self.limit;
        let bra = self.bra;
        let ket = self.ket;
        let removed = ket - bra;
        let head = self.current.as_str().substring_char(0, bra);
        let tail = self.current.as_str().substring_char(ket, len);
        let joined = String::from_str(head).concat(tail);
        proof {
            assert(self.current@.subrange(0, bra as int) =~= self.current@.take(bra as int));
            assert(self.current@.subrange(ket as int, len as int) =~= self.current@.skip(ket as int));
        }
        self.current = joined;
        self.limit = len - removed;
        if self.cursor >= ket {
            self.cursor = self.cursor - removed;
        } else if self.cursor > bra {
            self.cursor = bra;
        }
        self.ket = bra;
        true
    }
}

} // verus!
