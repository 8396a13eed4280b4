//! The words-per-minute trial: a fixed-duration free-typing test over a
//! generated target text, scored for word and letter accuracy and
//! throughput when the clock runs out.
//!
//! As with the drill, the shell owns the clock: it calls
//! [`WpmTrial::tick_second`] between its sleeps and [`WpmTrial::try_finish`]
//! when time is up, and both re-check their precondition through a
//! generation counter so that a timer of an abandoned trial commits nothing.

use crate::corpus::FrequencyWord;
use crate::drill::next_gen;
use crate::rng::sample_below;
use crate::text::{
    clean_spec, clean_word, lemma_letters_concat, lemma_letters_nonneg, lemma_split_count_bound,
    lemma_split_letters_bound, letters_total, split_whitespace, split_ws, str_eq, string_views,
};
use vstd::prelude::*;

verus! {

/// Upper bound on the typed text the scorer accepts, so that all counters
/// fit their machine words.
pub const MAX_TYPED_CHARS: usize = 0x10000000;

/// Upper bound on a trial's duration (one day), so that the character
/// budget fits its machine word.
pub const MAX_TRIAL_SECONDS: u64 = 86400;

/// The life cycle of a trial.
#[derive(Clone, Copy, PartialEq, Eq, Structural, Debug)]
pub enum WpmState {
    Idle,
    Running,
    Finished,
}

/// The score of one finished trial.
#[derive(Clone, Copy, PartialEq, Eq, Structural, Debug)]
pub struct WpmResult {
    pub wpm: u64,
    pub correct_words: u64,
    pub incorrect_words: u64,
    pub correct_letters: u64,
    pub incorrect_letters: u64,
}

/// Whether the typed word at position `i` matches the target word there: a
/// target word must exist at the same position and be equal.
pub open spec fn word_hit(tws: Seq<Seq<char>>, yws: Seq<Seq<char>>, i: int) -> bool {
    i < tws.len() && yws[i] == tws[i]
}

/// How many typed words match their target word.
pub open spec fn correct_word_count(tws: Seq<Seq<char>>, yws: Seq<Seq<char>>) -> int
    decreases yws.len(),
{
    if yws.len() == 0 {
        0
    } else {
        correct_word_count(tws, yws.drop_last()) + if word_hit(tws, yws, yws.len() - 1) {
            1int
        } else {
            0int
        }
    }
}

/// How many typed words miss their target word (a mismatch, or a word typed
/// beyond the target's length).
pub open spec fn incorrect_word_count(tws: Seq<Seq<char>>, yws: Seq<Seq<char>>) -> int
    decreases yws.len(),
{
    if yws.len() == 0 {
        0
    } else {
        incorrect_word_count(tws, yws.drop_last()) + if word_hit(tws, yws, yws.len() - 1) {
            0int
        } else {
            1int
        }
    }
}

/// Characters of the matching typed words.
pub open spec fn correct_letter_count(tws: Seq<Seq<char>>, yws: Seq<Seq<char>>) -> int
    decreases yws.len(),
{
    if yws.len() == 0 {
        0
    } else {
        correct_letter_count(tws, yws.drop_last()) + if word_hit(tws, yws, yws.len() - 1) {
            yws.last().len() as int
        } else {
            0int
        }
    }
}

/// Characters of the missing typed words.
pub open spec fn incorrect_letter_count(tws: Seq<Seq<char>>, yws: Seq<Seq<char>>) -> int
    decreases yws.len(),
{
    if yws.len() == 0 {
        0
    } else {
        incorrect_letter_count(tws, yws.drop_last()) + if word_hit(tws, yws, yws.len() - 1) {
            0int
        } else {
            yws.last().len() as int
        }
    }
}

/// Every typed word is counted exactly once: correct and incorrect words
/// total the typed words, correct and incorrect letters total their
/// characters, and no count is negative.
pub proof fn lemma_counts_partition(tws: Seq<Seq<char>>, yws: Seq<Seq<char>>)
    ensures
        correct_word_count(tws, yws) + incorrect_word_count(tws, yws) == yws.len(),
        correct_letter_count(tws, yws) + incorrect_letter_count(tws, yws) == letters_total(yws),
        0 <= correct_word_count(tws, yws),
        0 <= incorrect_word_count(tws, yws),
        0 <= correct_letter_count(tws, yws),
        0 <= incorrect_letter_count(tws, yws),
    decreases yws.len(),
{
    if yws.len() > 0 {
        lemma_counts_partition(tws, yws.drop_last());
    }
}

/// The scoring divisor: a duration of zero is guarded to one second.
pub open spec fn effective_duration(d: u64) -> int {
    if d < 1 {
        1
    } else {
        d as int
    }
}

/// Division rounded to the nearest integer, halves rounding up.
pub open spec fn rounded_div(a: int, b: int) -> int
    recommends
        b > 0,
{
    (2 * a + b) / (2 * b)
}

/// Words per minute: the typed word count scaled to a minute, rounded to
/// the nearest integer.
pub open spec fn wpm_spec(typed_word_count: int, d: u64) -> int {
    rounded_div(typed_word_count * 60, effective_duration(d))
}

/// The full score of a trial as a function of the target text, the typed
/// text and the duration alone.
pub open spec fn wpm_result_spec(target: Seq<char>, typed: Seq<char>, d: u64) -> WpmResult {
    let tws = split_ws(target);
    let yws = split_ws(typed);
    WpmResult {
        wpm: wpm_spec(yws.len() as int, d) as u64,
        correct_words: correct_word_count(tws, yws) as u64,
        incorrect_words: incorrect_word_count(tws, yws) as u64,
        correct_letters: correct_letter_count(tws, yws) as u64,
        incorrect_letters: incorrect_letter_count(tws, yws) as u64,
    }
}

/// Scores a trial: both texts are split on whitespace; each typed word is
/// correct exactly when a target word exists at the same position and is
/// equal, and its characters count with it; the words-per-minute figure is
/// the typed word count scaled to a minute over the guarded duration,
/// rounded to the nearest integer. A pure function of its three arguments,
/// as [`wpm_result_spec`] states.
pub fn compute_wpm_result(target: &str, typed: &str, duration_secs: u64) -> (r: WpmResult)
    requires
        typed@.len() <= MAX_TYPED_CHARS,
    ensures
        r == wpm_result_spec(target@, typed@, duration_secs),
        r.correct_words + r.incorrect_words == split_ws(typed@).len(),
        r.correct_letters + r.incorrect_letters == letters_total(split_ws(typed@)),
{
    let tws = split_whitespace(target);
    let yws = split_whitespace(typed);
    let ghost tw = split_ws(target@);
    let ghost yw = split_ws(typed@);
    proof {
        lemma_split_count_bound(typed@, 0);
        lemma_split_letters_bound(typed@, 0);
        lemma_letters_nonneg(yw);
    }
    let mut cw: u64 = 0;
    let mut iw: u64 = 0;
    let mut cl: u64 = 0;
    let mut il: u64 = 0;
    let mut i: usize = 0;
    while i < yws.len()
        invariant
            string_views(tws@) == tw,
            string_views(yws@) == yw,
            tws@.len() == tw.len(),
            yws@.len() == yw.len(),
            forall|k: int| 0 <= k < tws@.len() ==> tws@[k]@ == tw[k],
            forall|k: int| 0 <= k < yws@.len() ==> yws@[k]@ == yw[k],
            yw.len() <= MAX_TYPED_CHARS,
            letters_total(yw) <= MAX_TYPED_CHARS,
            i <= yw.len(),
            cw == correct_word_count(tw, yw.subrange(0, i as int)),
            iw == incorrect_word_count(tw, yw.subrange(0, i as int)),
            cl == correct_letter_count(tw, yw.subrange(0, i as int)),
            il == incorrect_letter_count(tw, yw.subrange(0, i as int)),
            cw + iw == i,
            cl + il == letters_total(yw.subrange(0, i as int)),
            cl + il <= MAX_TYPED_CHARS,
        decreases yw.len() - i,
    {
        let wlen_usize = yws[i].as_str().unicode_len();
        let wlen: u64 = wlen_usize as u64;
        let hit: bool = if i < tws.len() {
            str_eq(yws[i].as_str(), tws[i].as_str())
        } else {
            false
        };
        proof {
            let sub = yw.subrange(0, i as int);
            let sub1 = yw.subrange(0, i + 1);
            assert(sub1.drop_last() =~= sub);
            assert(sub1.last() == yw[i as int]);
            assert(hit == word_hit(tw, sub1, i as int));
            assert(yw =~= sub1 + yw.subrange(i + 1, yw.len() as int));
            lemma_letters_concat(sub1, yw.subrange(i + 1, yw.len() as int));
            lemma_letters_nonneg(yw.subrange(i + 1, yw.len() as int));
            lemma_counts_partition(tw, sub1);
            assert(letters_total(sub1) == letters_total(sub) + wlen);
        }
        if hit {
            cw = cw + 1;
            cl = cl + wlen;
        } else {
            iw = iw + 1;
            il = il + wlen;
        }
        i = i + 1;
    }
    proof {
        assert(yw.subrange(0, yw.len() as int) =~= yw);
    }
    let n = yws.len();
    let d_eff: u64 = if duration_secs < 1 {
        1
    } else {
        duration_secs
    };
    let num: u128 = (n as u128) * 120 + (d_eff as u128);
    let den: u128 = 2 * (d_eff as u128);
    let w128: u128 = num / den;
    proof {
        let nn = n as int;
        let dd = d_eff as int;
        assert(120 * nn + dd <= (2 * dd) * (60 * nn + 1)) by (nonlinear_arith)
            requires
                dd >= 1,
                nn >= 0,
        ;
        vstd::arithmetic::div_mod::lemma_div_is_ordered(
            120 * nn + dd,
            (2 * dd) * (60 * nn + 1),
            2 * dd,
        );
        vstd::arithmetic::div_mod::lemma_div_multiples_vanish(60 * nn + 1, 2 * dd);
        assert(w128 as int == rounded_div(nn * 60, effective_duration(duration_secs)));
        assert(w128 <= 60 * nn + 1);
    }
    WpmResult {
        wpm: w128 as u64,
        correct_words: cw,
        incorrect_words: iw,
        correct_letters: cl,
        incorrect_letters: il,
    }
}

} // verus!

verus! {

/// Upper bound on a single corpus spelling accepted by the text builder,
/// so that one appended word cannot overflow the length bookkeeping.
pub const MAX_WORD_CHARS: usize = 0x10000;

/// The sampling pool of a corpus: every spelling cleaned by
/// [`clean_spec`], entries with nothing left dropped, in corpus order.
pub open spec fn cleaned_pool(corpus: Seq<FrequencyWord>) -> Seq<Seq<char>>
    decreases corpus.len(),
{
    if corpus.len() == 0 {
        Seq::empty()
    } else {
        let rest = cleaned_pool(corpus.drop_last());
        if clean_spec(corpus.last().word@).len() > 0 {
            rest.push(clean_spec(corpus.last().word@))
        } else {
            rest
        }
    }
}

/// Pool words are non-empty and no longer than the spellings they came
/// from.
pub proof fn lemma_pool_bounds(corpus: Seq<FrequencyWord>, bound: int)
    requires
        forall|i: int| 0 <= i < corpus.len() ==> (#[trigger] corpus[i].word)@.len() <= bound,
    ensures
        forall|k: int|
            0 <= k < cleaned_pool(corpus).len() ==> 0 < (#[trigger] cleaned_pool(corpus)[k]).len()
                <= bound,
    decreases corpus.len(),
{
    if corpus.len() > 0 {
        let pre = corpus.drop_last();
        assert(forall|i: int| 0 <= i < pre.len() ==> pre[i] == corpus[i]);
        lemma_pool_bounds(pre, bound);
        crate::text::lemma_clean_len(corpus.last().word@);
        let rest = cleaned_pool(pre);
        assert forall|k: int| 0 <= k < cleaned_pool(corpus).len() implies 0 < (
        #[trigger] cleaned_pool(corpus)[k]).len() <= bound by {
            if clean_spec(corpus.last().word@).len() > 0 {
                if k < rest.len() {
                    assert(cleaned_pool(corpus)[k] == rest[k]);
                } else {
                    assert(cleaned_pool(corpus)[k] == clean_spec(corpus.last().word@));
                }
            }
        }
    }
}

/// Cleans every corpus spelling into the sampling pool, dropping the ones
/// with nothing left, exactly as [`cleaned_pool`] describes.
fn build_pool(corpus: &Vec<FrequencyWord>) -> (r: Vec<String>)
    ensures
        string_views(r@) == cleaned_pool(corpus@),
{
    let mut r: Vec<String> = Vec::new();
    proof {
        assert(string_views(r@) =~~= cleaned_pool(corpus@.subrange(0, 0)));
    }
    let mut i: usize = 0;
    while i < corpus.len()
        invariant
            i <= corpus@.len(),
            string_views(r@) == cleaned_pool(corpus@.subrange(0, i as int)),
        decreases corpus@.len() - i,
    {
        let ghost prev = r@;
        match clean_word(corpus[i].word.as_str()) {
            Some(w) => {
                r.push(w);
                proof {
                    crate::text::lemma_string_views_push(prev, r@.last());
                }
            }
            None => {},
        }
        proof {
            let sub = corpus@.subrange(0, i as int);
            let sub1 = corpus@.subrange(0, i + 1);
            assert(sub1.drop_last() =~= sub);
            assert(sub1.last() == corpus@[i as int]);
            assert(string_views(r@) =~~= cleaned_pool(sub1));
        }
        i = i + 1;
    }
    proof {
        assert(corpus@.subrange(0, corpus@.len() as int) =~= corpus@);
    }
    r
}

/// Words joined by single spaces, in order, with no leading or trailing
/// space.
pub open spec fn join_spaces(ws: Seq<Seq<char>>) -> Seq<char>
    decreases ws.len(),
{
    if ws.len() == 0 {
        Seq::empty()
    } else if ws.len() == 1 {
        ws[0]
    } else {
        join_spaces(ws.drop_last()) + seq![' '] + ws.last()
    }
}

proof fn lemma_join_push(ws: Seq<Seq<char>>, w: Seq<char>)
    ensures
        ws.len() == 0 ==> join_spaces(ws.push(w)) == w,
        ws.len() > 0 ==> join_spaces(ws.push(w)) == join_spaces(ws) + seq![' '] + w,
{
    let p = ws.push(w);
    assert(p.last() == w);
    if ws.len() == 0 {
        assert(p.len() == 1);
        assert(p[0] == w);
    } else {
        assert(p.drop_last() =~= ws);
    }
}

/// What a generated target text looks like: empty exactly when the pool is
/// empty; otherwise some sequence of pool words joined by single spaces,
/// long enough for the budget.
pub open spec fn built_text_ok(text: Seq<char>, pool: Seq<Seq<char>>, budget: int) -> bool {
    if pool.len() == 0 {
        text.len() == 0
    } else {
        text.len() >= budget && exists|ws: Seq<Seq<char>>|
            #[trigger] join_spaces(ws) == text && forall|k: int|
                0 <= k < ws.len() ==> pool.contains(ws[k])
    }
}

/// The character budget of a trial: enough for the duration at a fast pace
/// (200 words per minute of 5 characters each), never less than the
/// display grid (36 words of 5 characters) nor the floor of 500.
pub open spec fn budget_spec(duration_secs: u64) -> int {
    let duration_chars = (duration_secs as int) * 1000 / 60;
    let with_grid = if duration_chars >= 180 {
        duration_chars
    } else {
        180
    };
    if with_grid >= 500 {
        with_grid
    } else {
        500
    }
}

/// Runtime computation of [`budget_spec`].
pub fn char_budget(duration_secs: u64) -> (r: usize)
    requires
        duration_secs <= MAX_TRIAL_SECONDS,
    ensures
        r == budget_spec(duration_secs),
        500 <= r <= MAX_TYPED_CHARS,
{
    let dc: u64 = duration_secs * 1000 / 60;
    let a: u64 = if dc >= 180 {
        dc
    } else {
        180
    };
    let b: u64 = if a >= 500 {
        a
    } else {
        500
    };
    b as usize
}

/// Generates a trial's target text: repeatedly draws a random pool word
/// (a corpus spelling with its `/` suffix and surrounding whitespace
/// removed; spellings with nothing left never appear) and appends it with
/// single-space separation, until the text reaches `min_chars` characters.
/// An empty pool yields the empty text.
pub fn build_wpm_text(words: &Vec<FrequencyWord>, min_chars: usize) -> (r: String)
    requires
        min_chars <= MAX_TYPED_CHARS,
        forall|i: int|
            0 <= i < words@.len() ==> (#[trigger] words@[i].word)@.len() <= MAX_WORD_CHARS as int,
    ensures
        built_text_ok(r@, cleaned_pool(words@), min_chars as int),
{
    let pool = build_pool(words);
    proof {
        lemma_pool_bounds(words@, MAX_WORD_CHARS as int);
        assert forall|k: int| 0 <= k < pool@.len() implies 0 < (#[trigger] pool@[k])@.len()
            <= MAX_WORD_CHARS as int by {
            assert(pool@[k]@ == cleaned_pool(words@)[k]);
        }
    }
    if pool.len() == 0 {
        return String::new();
    }
    let mut out = String::new();
    let mut total: usize = 0;
    let ghost mut ws: Seq<Seq<char>> = Seq::empty();
    while total < min_chars
        invariant
            string_views(pool@) == cleaned_pool(words@),
            pool@.len() > 0,
            forall|k: int|
                0 <= k < pool@.len() ==> 0 < (#[trigger] pool@[k])@.len() <= MAX_WORD_CHARS as int,
            min_chars <= MAX_TYPED_CHARS,
            out@ == join_spaces(ws),
            total == out@.len(),
            (ws.len() == 0) <==> (total == 0),
            forall|k: int| 0 <= k < ws.len() ==> cleaned_pool(words@).contains(#[trigger] ws[k]),
            total <= MAX_TYPED_CHARS + MAX_WORD_CHARS + 1,
        decreases (if total < min_chars {
            min_chars - total
        } else {
            0
        }),
    {
        let idx = sample_below(pool.len());
        let wlen = pool[idx].as_str().unicode_len();
        let ghost wv = pool@[idx as int]@;
        proof {
            assert(cleaned_pool(words@)[idx as int] == wv);
            assert(cleaned_pool(words@).contains(wv));
        }
        if total > 0 {
            out.append(" ");
            out.append(pool[idx].as_str());
            proof {
                reveal_strlit(" ");
                assert(" "@ =~= seq![' ']);
                lemma_join_push(ws, wv);
                assert(out@ =~= join_spaces(ws.push(wv)));
                ws = ws.push(wv);
            }
            total = total + 1 + wlen;
        } else {
            out.append(pool[idx].as_str());
            proof {
                lemma_join_push(ws, wv);
                assert(out@ =~= join_spaces(ws.push(wv)));
                ws = ws.push(wv);
            }
            total = total + wlen;
        }
    }
    proof {
        assert(built_text_ok(out@, cleaned_pool(words@), min_chars as int));
    }
    out
}

} // verus!

verus! {

/// One words-per-minute trial session.
///
/// `generation` grows with every start or reset; a tick timer captures it
/// when the trial starts, and a stale timer whose trial was restarted or
/// abandoned commits nothing.
pub struct WpmTrial {
    pub target_text: String,
    pub typed_text: String,
    pub duration_seconds: u64,
    pub remaining_seconds: u64,
    pub state: WpmState,
    pub result: Option<WpmResult>,
    pub generation: u64,
}

impl WpmTrial {
    /// The session invariant: a positive bounded duration, a clock inside
    /// it, bounded typed input, and a result only once finished.
    pub open spec fn wf(self) -> bool {
        &&& 1 <= self.duration_seconds <= MAX_TRIAL_SECONDS
        &&& self.remaining_seconds <= self.duration_seconds
        &&& self.typed_text@.len() <= MAX_TYPED_CHARS
        &&& (self.result is Some ==> self.state is Finished)
    }

    /// A fresh idle trial of the given duration.
    pub fn new(duration_secs: u64) -> (r: WpmTrial)
        requires
            1 <= duration_secs <= MAX_TRIAL_SECONDS,
        ensures
            r.wf(),
            r.state is Idle,
            r.target_text@.len() == 0,
            r.typed_text@.len() == 0,
            r.duration_seconds == duration_secs,
            r.remaining_seconds == duration_secs,
            r.result is None,
            r.generation == 0,
    {
        WpmTrial {
            target_text: String::new(),
            typed_text: String::new(),
            duration_seconds: duration_secs,
            remaining_seconds: duration_secs,
            state: WpmState::Idle,
            result: None,
            generation: 0,
        }
    }

    fn bump_generation(&mut self)
        ensures
            final(self).generation == next_gen(old(self).generation),
            final(self).target_text == old(self).target_text,
            final(self).typed_text == old(self).typed_text,
            final(self).duration_seconds == old(self).duration_seconds,
            final(self).remaining_seconds == old(self).remaining_seconds,
            final(self).state == old(self).state,
            final(self).result == old(self).result,
    {
        if self.generation == u64::MAX {
            self.generation = 0;
        } else {
            self.generation = self.generation + 1;
        }
    }

    /// Starts (or restarts) the trial as an explicit user action: a fresh
    /// random target text sized by [`budget_spec`] from the active set,
    /// cleared input, a full clock, no result, and any old timer
    /// invalidated.
    pub fn start(&mut self, corpus: &Vec<FrequencyWord>)
        requires
            old(self).wf(),
            forall|i: int|
                0 <= i < corpus@.len() ==> (#[trigger] corpus@[i].word)@.len()
                    <= MAX_WORD_CHARS as int,
        ensures
            final(self).wf(),
            final(self).state is Running,
            final(self).typed_text@.len() == 0,
            final(self).duration_seconds == old(self).duration_seconds,
            final(self).remaining_seconds == old(self).duration_seconds,
            final(self).result is None,
            final(self).generation == next_gen(old(self).generation),
            built_text_ok(
                final(self).target_text@,
                cleaned_pool(corpus@),
                budget_spec(old(self).duration_seconds),
            ),
    {
        let budget = char_budget(self.duration_seconds);
        self.target_text = build_wpm_text(corpus, budget);
        self.typed_text = String::new();
        self.remaining_seconds = self.duration_seconds;
        self.state = WpmState::Running;
        self.result = None;
        self.bump_generation();
    }

    /// Replaces the typed text verbatim; no validation happens while the
    /// trial runs, and the clock and timers are untouched.
    pub fn on_keystroke(&mut self, new_typed: String)
        requires
            old(self).wf(),
            new_typed@.len() <= MAX_TYPED_CHARS,
        ensures
            final(self).wf(),
            final(self).typed_text == new_typed,
            final(self).target_text == old(self).target_text,
            final(self).duration_seconds == old(self).duration_seconds,
            final(self).remaining_seconds == old(self).remaining_seconds,
            final(self).state == old(self).state,
            final(self).result == old(self).result,
            final(self).generation == old(self).generation,
    {
        self.typed_text = new_typed;
    }

    /// One second of a tick timer that captured `gen` at start: the clock
    /// counts down only while that generation is current, the trial still
    /// runs and time remains; otherwise nothing changes, and the return
    /// value says whether the tick was applied.
    pub fn tick_second(&mut self, gen: u64) -> (applied: bool)
        requires
            old(self).wf(),
        ensures
            final(self).wf(),
            applied == (gen == old(self).generation && old(self).state is Running && old(self).remaining_seconds > 0),
            applied ==> final(self).remaining_seconds == old(self).remaining_seconds - 1
                && final(self).target_text == old(self).target_text && final(self).typed_text
                == old(self).typed_text && final(self).duration_seconds == old(self).duration_seconds && final(self).state == old(self).state && final(self).result == old(self).result && final(self).generation == old(self).generation,
            !applied ==> *final(self) == *old(self),
    {
        if gen != self.generation {
            return false;
        }
        if !(matches!(self.state, WpmState::Running)) {
            return false;
        }
        if self.remaining_seconds == 0 {
            return false;
        }
        self.remaining_seconds = self.remaining_seconds - 1;
        true
    }

    /// Whether the clock has run out on a running trial.
    pub fn finish_due(&self) -> (r: bool)
        ensures
            r == (self.state is Running && self.remaining_seconds == 0),
    {
        matches!(self.state, WpmState::Running) && self.remaining_seconds == 0
    }

    /// The terminal commit of the tick timer: when its generation is still
    /// current and the clock has run out, the texts are scored by
    /// [`wpm_result_spec`] and the trial finishes. A stale timer — the
    /// trial was restarted or reset meanwhile — commits nothing.
    pub fn try_finish(&mut self, gen: u64) -> (applied: bool)
        requires
            old(self).wf(),
        ensures
            final(self).wf(),
            applied == (gen == old(self).generation && old(self).state is Running && old(self).remaining_seconds == 0),
            applied ==> final(self).state is Finished && final(self).result == Some(
                wpm_result_spec(
                    old(self).target_text@,
                    old(self).typed_text@,
                    old(self).duration_seconds,
                ),
            ) && final(self).target_text == old(self).target_text && final(self).typed_text == old(self).typed_text && final(self).duration_seconds == old(self).duration_seconds && final(self).remaining_seconds == old(self).remaining_seconds && final(self).generation == old(self).generation,
            !applied ==> *final(self) == *old(self),
    {
        if gen != self.generation {
            return false;
        }
        if !self.finish_due() {
            return false;
        }
        let res = compute_wpm_result(
            self.target_text.as_str(),
            self.typed_text.as_str(),
            self.duration_seconds,
        );
        self.result = Some(res);
        self.state = WpmState::Finished;
        true
    }

    /// Changes the trial length from the settings surface. As with every
    /// settings change, anything in flight is abandoned: the trial returns
    /// to idle with a full clock of the new duration, cleared input, no
    /// result, and old timers invalidated.
    pub fn set_duration(&mut self, duration_secs: u64)
        requires
            old(self).wf(),
            1 <= duration_secs <= MAX_TRIAL_SECONDS,
        ensures
            final(self).wf(),
            final(self).state is Idle,
            final(self).duration_seconds == duration_secs,
            final(self).remaining_seconds == duration_secs,
            final(self).typed_text@.len() == 0,
            final(self).result is None,
            final(self).target_text == old(self).target_text,
            final(self).generation == next_gen(old(self).generation),
    {
        self.duration_seconds = duration_secs;
        self.typed_text = String::new();
        self.remaining_seconds = duration_secs;
        self.state = WpmState::Idle;
        self.result = None;
        self.bump_generation();
    }

    /// Abandons the trial (leaving the test surface): input cleared, clock
    /// refilled, result dropped, timers invalidated. The target text stays
    /// until the next start replaces it.
    pub fn reset(&mut self)
        requires
            old(self).wf(),
        ensures
            final(self).wf(),
            final(self).state is Idle,
            final(self).typed_text@.len() == 0,
            final(self).target_text == old(self).target_text,
            final(self).duration_seconds == old(self).duration_seconds,
            final(self).remaining_seconds == old(self).duration_seconds,
            final(self).result is None,
            final(self).generation == next_gen(old(self).generation),
    {
        self.typed_text = String::new();
        self.remaining_seconds = self.duration_seconds;
        self.state = WpmState::Idle;
        self.result = None;
        self.bump_generation();
    }
}

/// Bounds of the words-per-minute figure for a bounded word count.
proof fn lemma_wpm_bounds(n: int, d: u64)
    requires
        0 <= n,
    ensures
        0 <= wpm_spec(n, d) <= 60 * n + 1,
{
    let dd = effective_duration(d);
    assert(120 * n + dd <= (2 * dd) * (60 * n + 1)) by (nonlinear_arith)
        requires
            dd >= 1,
            n >= 0,
    ;
    vstd::arithmetic::div_mod::lemma_div_is_ordered(120 * n + dd, (2 * dd) * (60 * n + 1), 2 * dd);
    vstd::arithmetic::div_mod::lemma_div_multiples_vanish(60 * n + 1, 2 * dd);
    assert(0 <= 2 * (n * 60) + dd);
    vstd::arithmetic::div_mod::lemma_div_pos_is_pos(2 * (n * 60) + dd, 2 * dd);
}

/// The score is a total accounting of the typed text: correct and
/// incorrect words partition the typed words, correct and incorrect
/// letters partition their characters, and the words-per-minute figure is
/// non-negative — for every target, every bounded typed text and every
/// duration.
pub proof fn lemma_result_partitions(target: Seq<char>, typed: Seq<char>, d: u64)
    requires
        typed.len() <= MAX_TYPED_CHARS,
    ensures
        wpm_result_spec(target, typed, d).correct_words + wpm_result_spec(
            target,
            typed,
            d,
        ).incorrect_words == split_ws(typed).len(),
        wpm_result_spec(target, typed, d).correct_letters + wpm_result_spec(
            target,
            typed,
            d,
        ).incorrect_letters == letters_total(split_ws(typed)),
        wpm_result_spec(target, typed, d).wpm >= 0,
{
    let tws = split_ws(target);
    let yws = split_ws(typed);
    lemma_split_count_bound(typed, 0);
    lemma_split_letters_bound(typed, 0);
    lemma_counts_partition(tws, yws);
    lemma_wpm_bounds(yws.len() as int, d);
}

} // verus!
