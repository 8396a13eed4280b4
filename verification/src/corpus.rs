//! The word corpus: ranked vocabulary entries for one language.
//!
//! Entries are supplied from outside (a per-language resource parsed by the
//! application shell) and are read-only here. The helpers derive the facts
//! the filter and settings logic need: the distinct part-of-speech tags that
//! occur, and the highest rank available.

use crate::text::str_eq;
use vstd::prelude::*;

verus! {

/// One ranked vocabulary entry.
///
/// `rank` is a positive frequency rank, unique per language but not
/// necessarily contiguous. `word` is the target-language spelling, `en` the
/// English gloss, `cb` an optional transliteration, `pos` an optional
/// part-of-speech tag and `example` an optional example sentence.
pub struct FrequencyWord {
    pub rank: u32,
    pub word: String,
    pub en: String,
    pub cb: Option<String>,
    pub pos: Option<String>,
    pub example: Option<String>,
}

impl Clone for FrequencyWord {
    fn clone(&self) -> (r: Self)
        ensures
            r == *self,
    {
        FrequencyWord {
            rank: self.rank,
            word: self.word.clone(),
            en: self.en.clone(),
            cb: clone_opt_string(&self.cb),
            pos: clone_opt_string(&self.pos),
            example: clone_opt_string(&self.example),
        }
    }
}

fn clone_opt_string(o: &Option<String>) -> (r: Option<String>)
    ensures
        r == *o,
{
    match o {
        Some(s) => Some(s.clone()),
        None => None,
    }
}

/// Whether the character sequence `t` occurs among the views of `tags`.
pub open spec fn contains_str(tags: Seq<String>, t: Seq<char>) -> bool {
    exists|i: int| 0 <= i < tags.len() && tags[i]@ == t
}

/// Whether some entry of `corpus` carries the part-of-speech tag `t`.
pub open spec fn pos_observed(corpus: Seq<FrequencyWord>, t: Seq<char>) -> bool {
    exists|i: int|
        0 <= i < corpus.len() && corpus[i].pos is Some && corpus[i].pos->Some_0@ == t
}

/// Runtime test for [`contains_str`].
pub fn contains_tag(tags: &Vec<String>, t: &str) -> (r: bool)
    ensures
        r == contains_str(tags@, t@),
{
    let mut i: usize = 0;
    while i < tags.len()
        invariant
            i <= tags@.len(),
            forall|j: int| 0 <= j < i ==> tags@[j]@ != t@,
        decreases tags@.len() - i,
    {
        if str_eq(tags[i].as_str(), t) {
            return true;
        }
        i = i + 1;
    }
    false
}

proof fn lemma_contains_str_push(tags: Seq<String>, x: String, t: Seq<char>)
    requires
        contains_str(tags, t),
    ensures
        contains_str(tags.push(x), t),
{
    let m = choose|m: int| 0 <= m < tags.len() && tags[m]@ == t;
    assert(tags.push(x)[m]@ == t);
}

/// The distinct part-of-speech tags observed in the corpus, in order of
/// first occurrence: no duplicates, and exactly the observed tags.
pub fn distinct_pos(corpus: &Vec<FrequencyWord>) -> (r: Vec<String>)
    ensures
        forall|j: int| 0 <= j < r@.len() ==> pos_observed(corpus@, #[trigger] r@[j]@),
        forall|i: int|
            0 <= i < corpus@.len() && (#[trigger] corpus@[i].pos) is Some ==> contains_str(
                r@,
                corpus@[i].pos->Some_0@,
            ),
        forall|i: int, j: int| 0 <= i < j < r@.len() ==> r@[i]@ != r@[j]@,
{
    let mut r: Vec<String> = Vec::new();
    let mut i: usize = 0;
    while i < corpus.len()
        invariant
            i <= corpus@.len(),
            forall|j: int| 0 <= j < r@.len() ==> pos_observed(corpus@, #[trigger] r@[j]@),
            forall|m: int|
                0 <= m < i && (#[trigger] corpus@[m].pos) is Some ==> contains_str(
                    r@,
                    corpus@[m].pos->Some_0@,
                ),
            forall|a: int, b: int| 0 <= a < b < r@.len() ==> r@[a]@ != r@[b]@,
        decreases corpus@.len() - i,
    {
        let ghost prev = r@;
        match &corpus[i].pos {
            Some(p) => {
                if !contains_tag(&r, p.as_str()) {
                    let tag = p.clone();
                    proof {
                        assert(pos_observed(corpus@, tag@)) by {
                            assert(corpus@[i as int].pos is Some
                                && corpus@[i as int].pos->Some_0@ == tag@);
                        }
                    }
                    r.push(tag);
                    proof {
                        assert forall|m: int|
                            0 <= m < i + 1 && (#[trigger] corpus@[m].pos) is Some
                            implies contains_str(r@, corpus@[m].pos->Some_0@) by {
                            if m < i {
                                lemma_contains_str_push(prev, r@[prev.len() as int], corpus@[m].pos->Some_0@);
                            } else {
                                assert(r@[prev.len() as int]@ == corpus@[m].pos->Some_0@);
                            }
                        }
                        assert forall|a: int, b: int| 0 <= a < b < r@.len() implies r@[a]@
                            != r@[b]@ by {
                            if b == prev.len() {
                                assert(!contains_str(prev, r@[b]@));
                                assert(prev[a]@ != r@[b]@);
                            }
                        }
                    }
                } else {
                    proof {
                        assert forall|m: int|
                            0 <= m < i + 1 && (#[trigger] corpus@[m].pos) is Some
                            implies contains_str(r@, corpus@[m].pos->Some_0@) by {}
                    }
                }
            }
            None => {}
        }
        i = i + 1;
    }
    r
}

/// The highest rank that occurs in the corpus, or 1 when it is empty.
/// Used as the upper clamp for the rank-range settings inputs.
pub fn max_rank(corpus: &Vec<FrequencyWord>) -> (r: u32)
    ensures
        corpus@.len() == 0 ==> r == 1,
        forall|i: int| 0 <= i < corpus@.len() ==> corpus@[i].rank <= r,
        corpus@.len() > 0 ==> exists|i: int| 0 <= i < corpus@.len() && corpus@[i].rank == r,
{
    let mut r: u32 = 1;
    let mut seen: bool = false;
    let mut i: usize = 0;
    while i < corpus.len()
        invariant
            i <= corpus@.len(),
            !seen ==> r == 1 && i == 0,
            seen ==> i > 0,
            forall|j: int| 0 <= j < i ==> corpus@[j].rank <= r,
            seen ==> exists|j: int| 0 <= j < i && corpus@[j].rank == r,
            i > 0 ==> seen,
        decreases corpus@.len() - i,
    {
        let rank = corpus[i].rank;
        if !seen || rank > r {
            r = rank;
            seen = true;
        } else {
            seen = true;
        }
        i = i + 1;
    }
    r
}

} // verus!
