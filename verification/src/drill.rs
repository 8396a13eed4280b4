//! The drill state machine: one word at a time, a typed buffer validated
//! per keystroke, and a cancellable auto-advance countdown.
//!
//! The surrounding shell owns the clock. It arms nothing itself: a keystroke
//! that makes the buffer match the target arms the countdown here, and the
//! shell then calls [`DrillState::countdown_step`] between its sleeps and
//! [`DrillState::try_advance`] at the end. Both re-check their precondition
//! through a generation counter, so a stale timer whose world has moved on
//! commits nothing.

use crate::filter::{BoundedOrder, TestMode};
use crate::rng::sample_below;
use crate::text::str_eq;
use vstd::prelude::*;

verus! {

/// Number of countdown steps the auto-advance delay is divided into. The
/// remaining fraction published after `k` steps are left is `k / 20`.
pub const COUNTDOWN_STEPS: u32 = 20;

/// Classification of one target-word position against the typed buffer.
#[derive(Clone, Copy, PartialEq, Eq, Structural, Debug)]
pub enum CharClass {
    Correct,
    Incorrect,
    Pending,
}

/// What [`char_class`] returns for position `i` of the target word.
pub open spec fn char_class_spec(target: Seq<char>, typed: Seq<char>, i: int) -> CharClass {
    if i < typed.len() {
        if typed[i] == target[i] {
            CharClass::Correct
        } else {
            CharClass::Incorrect
        }
    } else {
        CharClass::Pending
    }
}

/// Per-character feedback for position `i` of the target word: correct when
/// typed and equal, incorrect when typed and different, pending when not yet
/// typed. Characters typed beyond the target's length classify no target
/// position and are counted as incorrect only by the trial scoring.
pub fn char_class(target: &str, typed: &str, i: usize) -> (r: CharClass)
    requires
        i < target@.len(),
    ensures
        r == char_class_spec(target@, typed@, i as int),
{
    let typed_len = typed.unicode_len();
    if i < typed_len {
        if typed.get_char(i) == target.get_char(i) {
            CharClass::Correct
        } else {
            CharClass::Incorrect
        }
    } else {
        CharClass::Pending
    }
}

/// The match condition that arms the countdown: a non-empty typed buffer
/// whose character sequence equals the target word's.
pub open spec fn is_match(typed: Seq<char>, target: Seq<char>) -> bool {
    typed.len() > 0 && typed == target
}

/// Runtime test for [`is_match`].
pub fn matches_target(typed: &str, target: &str) -> (r: bool)
    ensures
        r == is_match(typed@, target@),
{
    !typed.is_empty() && str_eq(typed, target)
}

/// The generation counter after one bump; it always differs from `g`.
pub open spec fn next_gen(g: u64) -> u64 {
    if g == u64::MAX {
        0
    } else {
        (g + 1) as u64
    }
}

/// Picks the next word index for the drill.
///
/// Sequential order steps to the next index, wrapping at the end of the set.
/// Random order draws uniformly below `set_size` and, when the draw lands on
/// the current index in a set of more than one word, deterministically steps
/// one further instead of re-drawing. Bounded mode delegates to one of the
/// two per `order`. The result never equals `current_index` when the set has
/// more than one word.
pub fn select_next_index(
    mode: TestMode,
    order: BoundedOrder,
    current_index: usize,
    set_size: usize,
) -> (r: usize)
    requires
        0 < set_size,
        current_index < set_size,
    ensures
        r < set_size,
        set_size > 1 ==> r != current_index,
        (mode is Sequential || (mode is Bounded && order is Sequential)) ==> r == (current_index
            + 1) % (set_size as int),
{
    let sequential: bool = match mode {
        TestMode::Sequential => true,
        TestMode::Random => false,
        TestMode::Bounded => match order {
            BoundedOrder::Sequential => true,
            BoundedOrder::Random => false,
        },
    };
    if sequential {
        if current_index + 1 < set_size {
            proof {
                vstd::arithmetic::div_mod::lemma_small_mod((current_index + 1) as nat, set_size as nat);
            }
            current_index + 1
        } else {
            proof {
                vstd::arithmetic::div_mod::lemma_mod_self_0(set_size as int);
            }
            0
        }
    } else {
        let sample = sample_below(set_size);
        resolve_random_index(sample, current_index, set_size)
    }
}

/// Resolves a uniform draw into the next index: the draw itself, unless it
/// repeats the current index in a set of more than one word, in which case
/// the next index after it (wrapping) is used instead of re-drawing.
pub fn resolve_random_index(sample: usize, current_index: usize, set_size: usize) -> (r: usize)
    requires
        0 < set_size,
        sample < set_size,
        current_index < set_size,
    ensures
        r < set_size,
        set_size > 1 ==> r != current_index,
        (set_size > 1 && sample == current_index) ==> r == (sample + 1) % (set_size as int),
        sample != current_index ==> r == sample,
{
    if set_size > 1 && sample == current_index {
        if sample + 1 < set_size {
            proof {
                vstd::arithmetic::div_mod::lemma_small_mod((sample + 1) as nat, set_size as nat);
            }
            sample + 1
        } else {
            proof {
                vstd::arithmetic::div_mod::lemma_mod_self_0(set_size as int);
            }
            0
        }
    } else {
        sample
    }
}

/// The state of one drill session.
///
/// `steps_left` is the auto-advance countdown: `None` while idle,
/// `Some(k)` during a countdown with `k` of [`COUNTDOWN_STEPS`] steps left
/// (the published progress fraction is `k / 20`). `generation` grows with
/// every change that invalidates an in-flight countdown; a timer captures it
/// when the countdown is armed and commits nothing once it moved on.
pub struct DrillState {
    pub current_index: usize,
    pub typed_buffer: String,
    pub steps_left: Option<u32>,
    pub generation: u64,
}

/// How one keystroke transforms the drill state: a buffer equal to the
/// current one changes nothing; a new buffer replaces the old, arms a full
/// countdown exactly when it matches the target, and invalidates any
/// countdown in flight.
pub open spec fn keystroke_rel(
    pre: DrillState,
    post: DrillState,
    buffer: Seq<char>,
    target: Seq<char>,
) -> bool {
    if pre.typed_buffer@ == buffer {
        post == pre
    } else {
        post.typed_buffer@ == buffer && post.current_index == pre.current_index && post.steps_left
            == (if is_match(buffer, target) {
            Some(COUNTDOWN_STEPS)
        } else {
            None::<u32>
        }) && post.generation == next_gen(pre.generation)
    }
}

impl DrillState {
    /// Countdown bookkeeping never exceeds the full step count.
    pub open spec fn wf(self) -> bool {
        self.steps_left is Some ==> self.steps_left->Some_0 <= COUNTDOWN_STEPS
    }

    /// A fresh session: first word, empty buffer, no countdown.
    pub fn new() -> (r: DrillState)
        ensures
            r.wf(),
            r.current_index == 0,
            r.typed_buffer@.len() == 0,
            r.steps_left is None,
            r.generation == 0,
    {
        DrillState {
            current_index: 0,
            typed_buffer: String::new(),
            steps_left: None,
            generation: 0,
        }
    }

    /// Reset on any filter, mode or language change: back to the first word,
    /// empty buffer, countdown cancelled, and in-flight timers invalidated.
    pub fn reset(&mut self)
        ensures
            final(self).wf(),
            final(self).current_index == 0,
            final(self).typed_buffer@.len() == 0,
            final(self).steps_left is None,
            final(self).generation == next_gen(old(self).generation),
    {
        self.current_index = 0;
        self.typed_buffer = String::new();
        self.steps_left = None;
        self.bump_generation();
    }

    fn bump_generation(&mut self)
        ensures
            final(self).generation == next_gen(old(self).generation),
            final(self).current_index == old(self).current_index,
            final(self).typed_buffer == old(self).typed_buffer,
            final(self).steps_left == old(self).steps_left,
    {
        if self.generation == u64::MAX {
            self.generation = 0;
        } else {
            self.generation = self.generation + 1;
        }
    }

    /// Clamp rule: when the active set shrinks, the index is pulled back to
    /// the last entry; an empty set suspends drilling and leaves the index
    /// alone (no current word exists to show).
    pub fn clamp_to(&mut self, set_size: usize)
        ensures
            set_size > 0 ==> final(self).current_index == (if old(self).current_index < set_size {
                old(self).current_index
            } else {
                (set_size - 1) as usize
            }),
            set_size == 0 ==> final(self).current_index == old(self).current_index,
            set_size > 0 ==> final(self).current_index < set_size,
            final(self).typed_buffer == old(self).typed_buffer,
            final(self).steps_left == old(self).steps_left,
            final(self).generation == old(self).generation,
    {
        if set_size > 0 && self.current_index >= set_size {
            self.current_index = set_size - 1;
        }
    }

    /// Replaces the typed buffer and recomputes the match state, as
    /// [`keystroke_rel`] describes: arming a full countdown on a match,
    /// cancelling any countdown otherwise. A keystroke that leaves the
    /// buffer as it was changes nothing. The current index is not touched
    /// (clamping is a separate concern).
    pub fn on_keystroke(&mut self, new_buffer: String, target: &str)
        requires
            old(self).wf(),
        ensures
            final(self).wf(),
            keystroke_rel(*old(self), *final(self), new_buffer@, target@),
    {
        if str_eq(self.typed_buffer.as_str(), new_buffer.as_str()) {
            return ;
        }
        let matched = matches_target(new_buffer.as_str(), target);
        self.typed_buffer = new_buffer;
        self.steps_left = if matched {
            Some(COUNTDOWN_STEPS)
        } else {
            None
        };
        self.bump_generation();
    }

    /// One countdown step of a timer that captured `gen` when the countdown
    /// was armed. It counts down only while that generation is still
    /// current and steps remain; a stale or idle call changes nothing, and
    /// the return value says whether the step was applied.
    pub fn countdown_step(&mut self, gen: u64) -> (applied: bool)
        requires
            old(self).wf(),
        ensures
            final(self).wf(),
            applied == (gen == old(self).generation && old(self).steps_left is Some
                && old(self).steps_left->Some_0 > 0),
            applied ==> final(self).steps_left == Some(
                (old(self).steps_left->Some_0 - 1) as u32,
            ) && final(self).current_index == old(self).current_index && final(self).typed_buffer
                == old(self).typed_buffer && final(self).generation == old(self).generation,
            !applied ==> *final(self) == *old(self),
    {
        if gen != self.generation {
            return false;
        }
        match self.steps_left {
            Some(k) => {
                if k > 0 {
                    self.steps_left = Some(k - 1);
                    true
                } else {
                    false
                }
            }
            None => false,
        }
    }

    /// Whether the countdown has run out and the advance is due.
    pub fn advance_due(&self) -> (r: bool)
        ensures
            r == (self.steps_left == Some(0u32)),
    {
        match self.steps_left {
            Some(k) => k == 0,
            None => false,
        }
    }

    /// The terminal commit of a countdown timer that captured `gen`: if that
    /// generation is still current and the countdown has run out, it picks
    /// the next word with [`select_next_index`], clears the buffer and the
    /// countdown, and invalidates other timers. A stale timer, or one whose
    /// countdown was cancelled, commits nothing — the word never changes
    /// behind an edited buffer.
    pub fn try_advance(
        &mut self,
        gen: u64,
        mode: TestMode,
        order: BoundedOrder,
        set_size: usize,
    ) -> (applied: bool)
        requires
            old(self).wf(),
            0 < set_size,
            old(self).current_index < set_size,
        ensures
            final(self).wf(),
            applied == (gen == old(self).generation && old(self).steps_left == Some(0u32)),
            applied ==> final(self).typed_buffer@.len() == 0 && final(self).steps_left is None
                && final(self).generation == next_gen(old(self).generation)
                && final(self).current_index < set_size,
            applied && set_size > 1 ==> final(self).current_index != old(self).current_index,
            applied && (mode is Sequential || (mode is Bounded && order is Sequential))
                ==> final(self).current_index == (old(self).current_index + 1) % (set_size as int),
            !applied ==> *final(self) == *old(self),
    {
        if gen != self.generation {
            return false;
        }
        if !self.advance_due() {
            return false;
        }
        let next = select_next_index(mode, order, self.current_index, set_size);
        self.current_index = next;
        self.typed_buffer = String::new();
        self.steps_left = None;
        self.bump_generation();
        true
    }
}

/// Feeding the drill the same buffer twice is idempotent: whatever the
/// first keystroke produced, the second changes nothing.
pub proof fn lemma_keystroke_idempotent(
    s0: DrillState,
    s1: DrillState,
    s2: DrillState,
    buffer: Seq<char>,
    target: Seq<char>,
)
    requires
        keystroke_rel(s0, s1, buffer, target),
        keystroke_rel(s1, s2, buffer, target),
    ensures
        s2 == s1,
{
}

} // verus!
