//! Character and string helpers shared by the filter, drill and trial logic.
//!
//! Strings are modelled by their views as `Seq<char>`; every executable
//! helper here is proved against a spec function over those sequences.

use vstd::prelude::*;

verus! {

/// The characters that count as whitespace when words are split apart,
/// mirroring Unicode's White_Space set.
pub open spec fn is_space(c: char) -> bool {
    c == ' ' || c == '\u{0009}' || c == '\u{000A}' || c == '\u{000B}' || c == '\u{000C}'
        || c == '\u{000D}' || c == '\u{0085}' || c == '\u{00A0}' || c == '\u{1680}'
        || c == '\u{2000}' || c == '\u{2001}' || c == '\u{2002}' || c == '\u{2003}'
        || c == '\u{2004}' || c == '\u{2005}' || c == '\u{2006}' || c == '\u{2007}'
        || c == '\u{2008}' || c == '\u{2009}' || c == '\u{200A}' || c == '\u{2028}'
        || c == '\u{2029}' || c == '\u{202F}' || c == '\u{205F}' || c == '\u{3000}'
}

/// Runtime test for [`is_space`].
pub fn is_space_char(c: char) -> (r: bool)
    ensures
        r == is_space(c),
{
    c == ' ' || c == '\u{0009}' || c == '\u{000A}' || c == '\u{000B}' || c == '\u{000C}'
        || c == '\u{000D}' || c == '\u{0085}' || c == '\u{00A0}' || c == '\u{1680}'
        || c == '\u{2000}' || c == '\u{2001}' || c == '\u{2002}' || c == '\u{2003}'
        || c == '\u{2004}' || c == '\u{2005}' || c == '\u{2006}' || c == '\u{2007}'
        || c == '\u{2008}' || c == '\u{2009}' || c == '\u{200A}' || c == '\u{2028}'
        || c == '\u{2029}' || c == '\u{202F}' || c == '\u{205F}' || c == '\u{3000}'
}

/// Compares two string slices by their character sequences.
pub fn str_eq(a: &str, b: &str) -> (r: bool)
    ensures
        r == (a@ == b@),
{
    let la = a.unicode_len();
    let lb = b.unicode_len();
    if la != lb {
        return false;
    }
    let mut i: usize = 0;
    while i < la
        invariant
            la == a@.len(),
            la == b@.len(),
            i <= la,
            forall|j: int| 0 <= j < i ==> a@[j] == b@[j],
        decreases la - i,
    {
        if a.get_char(i) != b.get_char(i) {
            return false;
        }
        i = i + 1;
    }
    proof {
        assert(a@ =~= b@);
    }
    true
}

} // verus!

verus! {

/// The end of the word starting at `i`: the first index at or after `i`
/// holding whitespace, or the end of the sequence.
pub open spec fn word_end(s: Seq<char>, i: int) -> int
    decreases s.len() - i,
{
    if i < 0 || i >= s.len() || is_space(s[i]) {
        i
    } else {
        word_end(s, i + 1)
    }
}

/// `word_end` stays inside the sequence, moves only forward, and stops at
/// the first whitespace: everything between `i` and it is non-space.
pub proof fn lemma_word_end(s: Seq<char>, i: int)
    requires
        0 <= i <= s.len(),
    ensures
        i <= word_end(s, i) <= s.len(),
        forall|k: int| i <= k < word_end(s, i) ==> !is_space(s[k]),
        word_end(s, i) < s.len() ==> is_space(s[word_end(s, i)]),
        i < s.len() && !is_space(s[i]) ==> word_end(s, i) > i,
    decreases s.len() - i,
{
    if i < s.len() && !is_space(s[i]) {
        lemma_word_end(s, i + 1);
    }
}

/// A scan that found only non-space characters in `[i, j)` and whitespace
/// (or the end) at `j` found exactly the word end.
pub proof fn lemma_word_end_at(s: Seq<char>, i: int, j: int)
    requires
        0 <= i <= j <= s.len(),
        forall|k: int| i <= k < j ==> !is_space(s[k]),
        j == s.len() || is_space(s[j]),
    ensures
        word_end(s, i) == j,
    decreases j - i,
{
    if i < j {
        lemma_word_end_at(s, i + 1, j);
    }
}

/// The words of `s` from position `i` on: maximal runs of non-space
/// characters, in order.
pub open spec fn split_ws_from(s: Seq<char>, i: int) -> Seq<Seq<char>>
    decreases s.len() - i,
    via split_ws_from_dec
{
    if i < 0 || i >= s.len() {
        Seq::empty()
    } else if is_space(s[i]) {
        split_ws_from(s, i + 1)
    } else {
        seq![s.subrange(i, word_end(s, i))] + split_ws_from(s, word_end(s, i))
    }
}

#[via_fn]
proof fn split_ws_from_dec(s: Seq<char>, i: int) {
    if 0 <= i < s.len() && !is_space(s[i]) {
        lemma_word_end(s, i);
    }
}

/// How `s` splits on whitespace: its maximal runs of non-space characters,
/// in order.
pub open spec fn split_ws(s: Seq<char>) -> Seq<Seq<char>> {
    split_ws_from(s, 0)
}

/// There are never more words than characters.
pub proof fn lemma_split_count_bound(s: Seq<char>, i: int)
    requires
        0 <= i <= s.len(),
    ensures
        split_ws_from(s, i).len() <= s.len() - i,
    decreases s.len() - i,
{
    if i < s.len() {
        if is_space(s[i]) {
            lemma_split_count_bound(s, i + 1);
        } else {
            lemma_word_end(s, i);
            lemma_split_count_bound(s, word_end(s, i));
        }
    }
}

/// Total character count of a sequence of words.
pub open spec fn letters_total(ws: Seq<Seq<char>>) -> int
    decreases ws.len(),
{
    if ws.len() == 0 {
        0
    } else {
        letters_total(ws.drop_last()) + ws.last().len()
    }
}

/// Word-letter totals are non-negative.
pub proof fn lemma_letters_nonneg(ws: Seq<Seq<char>>)
    ensures
        letters_total(ws) >= 0,
    decreases ws.len(),
{
    if ws.len() > 0 {
        lemma_letters_nonneg(ws.drop_last());
    }
}

/// Letter totals add up over concatenation.
pub proof fn lemma_letters_concat(a: Seq<Seq<char>>, b: Seq<Seq<char>>)
    ensures
        letters_total(a + b) == letters_total(a) + letters_total(b),
    decreases b.len(),
{
    if b.len() == 0 {
        assert(a + b =~= a);
    } else {
        lemma_letters_concat(a, b.drop_last());
        assert((a + b).drop_last() =~= a + b.drop_last());
        assert((a + b).last() == b.last());
    }
}

/// The words of `s` hold no more letters than `s` itself: splitting never
/// invents characters.
pub proof fn lemma_split_letters_bound(s: Seq<char>, i: int)
    requires
        0 <= i <= s.len(),
    ensures
        letters_total(split_ws_from(s, i)) <= s.len() - i,
    decreases s.len() - i,
{
    if i < s.len() {
        if is_space(s[i]) {
            lemma_split_letters_bound(s, i + 1);
        } else {
            lemma_word_end(s, i);
            let j = word_end(s, i);
            lemma_split_letters_bound(s, j);
            lemma_letters_concat(seq![s.subrange(i, j)], split_ws_from(s, j));
            assert(letters_total(seq![s.subrange(i, j)]) == j - i) by {
                let one = seq![s.subrange(i, j)];
                assert(one.len() == 1);
                assert(one.last() == s.subrange(i, j));
                assert(one.drop_last() =~= Seq::<Seq<char>>::empty());
                assert(letters_total(Seq::<Seq<char>>::empty()) == 0);
                assert(letters_total(one) == letters_total(one.drop_last()) + one.last().len());
            }
        }
    }
}

/// The views of a sequence of owned strings.
pub open spec fn string_views(q: Seq<String>) -> Seq<Seq<char>> {
    q.map_values(|w: String| w@)
}

pub proof fn lemma_string_views_push(q: Seq<String>, w: String)
    ensures
        string_views(q.push(w)) == string_views(q).push(w@),
{
    assert(string_views(q.push(w)) =~~= string_views(q).push(w@));
}

/// Splits a string on whitespace into its words, exactly as [`split_ws`]
/// describes.
pub fn split_whitespace(s: &str) -> (r: Vec<String>)
    ensures
        string_views(r@) == split_ws(s@),
        r@.len() == split_ws(s@).len(),
        forall|k: int| 0 <= k < r@.len() ==> r@[k]@ == split_ws(s@)[k],
{
    let n = s.unicode_len();
    let mut r: Vec<String> = Vec::new();
    proof {
        assert(string_views(r@) + split_ws_from(s@, 0) =~~= split_ws_from(s@, 0));
    }
    let mut i: usize = 0;
    while i < n
        invariant
            n == s@.len(),
            i <= n,
            string_views(r@) + split_ws_from(s@, i as int) == split_ws(s@),
        decreases n - i,
    {
        let c = s.get_char(i);
        if is_space_char(c) {
            proof {
                assert(split_ws_from(s@, i as int) == split_ws_from(s@, i + 1));
            }
            i = i + 1;
        } else {
            let ghost prev = r@;
            let mut j: usize = i + 1;
            while j < n && !is_space_char(s.get_char(j))
                invariant
                    n == s@.len(),
                    i < j <= n,
                    forall|k: int| i <= k < j ==> !is_space(s@[k]),
                decreases n - j,
            {
                j = j + 1;
            }
            proof {
                lemma_word_end_at(s@, i as int, j as int);
            }
            let w = s.substring_char(i, j).to_owned();
            r.push(w);
            proof {
                lemma_string_views_push(prev, r@.last());
                assert(split_ws_from(s@, i as int) == seq![s@.subrange(i as int, j as int)]
                    + split_ws_from(s@, j as int));
                assert(string_views(r@) + split_ws_from(s@, j as int) =~~= string_views(prev)
                    + split_ws_from(s@, i as int));
            }
            i = j;
        }
    }
    proof {
        assert(split_ws_from(s@, n as int) =~~= Seq::<Seq<char>>::empty());
        assert(string_views(r@) + split_ws_from(s@, n as int) =~~= string_views(r@));
        assert forall|k: int| 0 <= k < r@.len() implies r@[k]@ == split_ws(s@)[k] by {
            assert(string_views(r@)[k] == r@[k]@);
        }
    }
    r
}

} // verus!

verus! {

/// The first `/` at or after `i`, or the end of the sequence.
pub open spec fn slash_pos(s: Seq<char>, i: int) -> int
    decreases s.len() - i,
{
    if i < 0 || i >= s.len() || s[i] == '/' {
        i
    } else {
        slash_pos(s, i + 1)
    }
}

/// A scan that saw no `/` before `j` and a `/` (or the end) at `j` found
/// exactly the first slash position.
pub proof fn lemma_slash_pos_at(s: Seq<char>, i: int, j: int)
    requires
        0 <= i <= j <= s.len(),
        forall|k: int| i <= k < j ==> s[k] != '/',
        j == s.len() || s[j] == '/',
    ensures
        slash_pos(s, i) == j,
    decreases j - i,
{
    if i < j {
        lemma_slash_pos_at(s, i + 1, j);
    }
}

/// Leading whitespace removed.
pub open spec fn trim_front(s: Seq<char>) -> Seq<char>
    decreases s.len(),
{
    if s.len() > 0 && is_space(s[0]) {
        trim_front(s.drop_first())
    } else {
        s
    }
}

/// Trailing whitespace removed.
pub open spec fn trim_back(s: Seq<char>) -> Seq<char>
    decreases s.len(),
{
    if s.len() > 0 && is_space(s.last()) {
        trim_back(s.drop_last())
    } else {
        s
    }
}

/// Surrounding whitespace removed.
pub open spec fn trim_spec(s: Seq<char>) -> Seq<char> {
    trim_back(trim_front(s))
}

/// What cleaning a raw corpus spelling yields: the text before the first
/// `/` (a disambiguation suffix), with surrounding whitespace trimmed.
pub open spec fn clean_spec(s: Seq<char>) -> Seq<char> {
    trim_spec(s.subrange(0, slash_pos(s, 0)))
}

/// A scan that saw only whitespace before `a` and non-space at `a` (or the
/// end) identified the front trim point.
pub proof fn lemma_trim_front_at(s: Seq<char>, a: int)
    requires
        0 <= a <= s.len(),
        forall|k: int| 0 <= k < a ==> is_space(s[k]),
        a < s.len() ==> !is_space(s[a]),
    ensures
        trim_front(s) == s.subrange(a, s.len() as int),
    decreases a,
{
    if a == 0 {
        assert(s.subrange(0, s.len() as int) =~= s);
    } else {
        let t = s.drop_first();
        assert forall|k: int| 0 <= k < a - 1 implies is_space(t[k]) by {
            assert(t[k] == s[k + 1]);
        }
        lemma_trim_front_at(t, a - 1);
        assert(t.subrange(a - 1, t.len() as int) =~= s.subrange(a, s.len() as int));
    }
}

/// A scan that saw only whitespace from `b` on and non-space just before
/// `b` (or the start) identified the back trim point.
pub proof fn lemma_trim_back_at(s: Seq<char>, b: int)
    requires
        0 <= b <= s.len(),
        forall|k: int| b <= k < s.len() ==> is_space(s[k]),
        b > 0 ==> !is_space(s[b - 1]),
    ensures
        trim_back(s) == s.subrange(0, b),
    decreases s.len(),
{
    if b == s.len() {
        assert(s.subrange(0, s.len() as int) =~= s);
    } else {
        let t = s.drop_last();
        lemma_trim_back_at(t, b);
        assert(t.subrange(0, b) =~= s.subrange(0, b));
    }
}

/// Cleans a raw corpus spelling: the text before the first `/` suffix,
/// trimmed of surrounding whitespace; `None` when nothing is left.
pub fn clean_word(raw: &str) -> (r: Option<String>)
    ensures
        r is Some <==> clean_spec(raw@).len() > 0,
        r is Some ==> r->Some_0@ == clean_spec(raw@),
{
    let n = raw.unicode_len();
    let mut sp: usize = 0;
    while sp < n && raw.get_char(sp) != '/'
        invariant
            n == raw@.len(),
            sp <= n,
            forall|k: int| 0 <= k < sp ==> raw@[k] != '/',
        decreases n - sp,
    {
        sp = sp + 1;
    }
    proof {
        lemma_slash_pos_at(raw@, 0, sp as int);
    }
    let ghost u = raw@.subrange(0, sp as int);
    let mut a: usize = 0;
    while a < sp && is_space_char(raw.get_char(a))
        invariant
            n == raw@.len(),
            sp <= n,
            a <= sp,
            forall|k: int| 0 <= k < a ==> is_space(raw@[k]),
        decreases sp - a,
    {
        a = a + 1;
    }
    if a == sp {
        proof {
            assert(forall|k: int| 0 <= k < u.len() ==> u[k] == raw@[k]);
            lemma_trim_front_at(u, sp as int);
            assert(trim_front(u) =~= Seq::<char>::empty());
            assert(clean_spec(raw@).len() == 0);
        }
        return None;
    }
    let mut b: usize = sp;
    while b > a && is_space_char(raw.get_char(b - 1))
        invariant
            n == raw@.len(),
            sp <= n,
            a < sp,
            !is_space(raw@[a as int]),
            a < b <= sp,
            forall|k: int| b <= k < sp ==> is_space(raw@[k]),
        decreases b,
    {
        b = b - 1;
    }
    let out = raw.substring_char(a, b).to_owned();
    proof {
        assert(forall|k: int| 0 <= k < u.len() ==> u[k] == raw@[k]);
        lemma_trim_front_at(u, a as int);
        let tf = u.subrange(a as int, sp as int);
        assert(trim_front(u) == tf);
        assert forall|k: int| b - a <= k < tf.len() implies is_space(tf[k]) by {
            assert(tf[k] == raw@[a + k]);
        }
        assert(b - a > 0 ==> !is_space(tf[b - a - 1])) by {
            assert(tf[b - a - 1] == raw@[b - 1]);
        }
        lemma_trim_back_at(tf, b - a);
        assert(tf.subrange(0, b - a) =~= raw@.subrange(a as int, b as int));
        assert(clean_spec(raw@) == raw@.subrange(a as int, b as int));
        assert(out@ == clean_spec(raw@));
    }
    Some(out)
}

} // verus!

verus! {

/// The first slash lies between `i` and the end.
pub proof fn lemma_slash_pos_bounds(s: Seq<char>, i: int)
    requires
        0 <= i <= s.len(),
    ensures
        i <= slash_pos(s, i) <= s.len(),
    decreases s.len() - i,
{
    if i < s.len() && s[i] != '/' {
        lemma_slash_pos_bounds(s, i + 1);
    }
}

proof fn lemma_trim_front_len(s: Seq<char>)
    ensures
        trim_front(s).len() <= s.len(),
    decreases s.len(),
{
    if s.len() > 0 && is_space(s[0]) {
        lemma_trim_front_len(s.drop_first());
    }
}

proof fn lemma_trim_back_len(s: Seq<char>)
    ensures
        trim_back(s).len() <= s.len(),
    decreases s.len(),
{
    if s.len() > 0 && is_space(s.last()) {
        lemma_trim_back_len(s.drop_last());
    }
}

/// Cleaning never lengthens a spelling.
pub proof fn lemma_clean_len(s: Seq<char>)
    ensures
        clean_spec(s).len() <= s.len(),
{
    lemma_slash_pos_bounds(s, 0);
    let u = s.subrange(0, slash_pos(s, 0));
    lemma_trim_front_len(u);
    lemma_trim_back_len(trim_front(u));
}

} // verus!
