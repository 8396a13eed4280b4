use langsprint::drill::{
    char_class, matches_target, resolve_random_index, select_next_index, CharClass, DrillState,
    COUNTDOWN_STEPS,
};
use langsprint::filter::{BoundedOrder, TestMode};

#[test]
fn sequential_advance_wraps_around() {
    let next = select_next_index(TestMode::Sequential, BoundedOrder::Random, 1, 3);
    assert_eq!(next, 2);
    let next = select_next_index(TestMode::Sequential, BoundedOrder::Random, 2, 3);
    assert_eq!(next, 0);
}

#[test]
fn bounded_sequential_advance_behaves_like_sequential() {
    let next = select_next_index(TestMode::Bounded, BoundedOrder::Sequential, 0, 2);
    assert_eq!(next, 1);
}

#[test]
fn random_advance_never_repeats_the_current_word() {
    for _ in 0..200 {
        let next = select_next_index(TestMode::Random, BoundedOrder::Random, 2, 5);
        assert!(next < 5);
        assert_ne!(next, 2);
    }
    for _ in 0..200 {
        let next = select_next_index(TestMode::Bounded, BoundedOrder::Random, 0, 2);
        assert_eq!(next, 1);
    }
}

#[test]
fn random_advance_on_single_word_stays_put() {
    let next = select_next_index(TestMode::Random, BoundedOrder::Random, 0, 1);
    assert_eq!(next, 0);
}

#[test]
fn repeated_sample_resolves_to_the_next_index() {
    assert_eq!(resolve_random_index(1, 1, 3), 2);
    assert_eq!(resolve_random_index(2, 2, 3), 0);
    assert_eq!(resolve_random_index(0, 1, 3), 0);
    assert_eq!(resolve_random_index(0, 0, 1), 0);
}

#[test]
fn matching_keystroke_arms_the_countdown() {
    let mut st = DrillState::new();
    st.on_keystroke("და".to_string(), "და");
    assert_eq!(st.steps_left, Some(COUNTDOWN_STEPS));
    assert_eq!(st.typed_buffer, "და");
    assert_eq!(st.current_index, 0);
}

#[test]
fn mismatching_keystroke_stays_idle() {
    let mut st = DrillState::new();
    st.on_keystroke("დ".to_string(), "და");
    assert_eq!(st.steps_left, None);
    st.on_keystroke(String::new(), "");
    assert_eq!(st.steps_left, None, "an empty buffer never matches");
}

#[test]
fn repeated_keystroke_changes_nothing() {
    let mut st = DrillState::new();
    st.on_keystroke("და".to_string(), "და");
    let gen = st.generation;
    let steps = st.steps_left;
    st.on_keystroke("და".to_string(), "და");
    assert_eq!(st.generation, gen);
    assert_eq!(st.steps_left, steps);
    assert_eq!(st.typed_buffer, "და");
}

#[test]
fn single_word_drill_advances_back_to_itself() {
    // One-word corpus, sequential mode: after the typed buffer matches and
    // the countdown elapses, the index stays at 0 and the buffer clears.
    let mut st = DrillState::new();
    st.on_keystroke("და".to_string(), "და");
    let gen = st.generation;
    for _ in 0..COUNTDOWN_STEPS {
        assert!(st.countdown_step(gen));
    }
    assert!(st.advance_due());
    assert!(st.try_advance(gen, TestMode::Sequential, BoundedOrder::Random, 1));
    assert_eq!(st.current_index, 0);
    assert_eq!(st.typed_buffer, "");
    assert_eq!(st.steps_left, None);
}

#[test]
fn edit_away_mid_countdown_cancels_the_advance() {
    // The typed buffer is edited away from the match while the countdown
    // runs: progress must clear and no index change may ever commit.
    let mut st = DrillState::new();
    st.on_keystroke("და".to_string(), "და");
    let gen = st.generation;
    assert!(st.countdown_step(gen));
    assert!(st.countdown_step(gen));
    st.on_keystroke("დ".to_string(), "და");
    assert_eq!(st.steps_left, None);
    // The stale timer keeps running its loop: every step and the final
    // commit are refused, even after the full delay has passed.
    for _ in 0..COUNTDOWN_STEPS {
        assert!(!st.countdown_step(gen));
    }
    assert!(!st.try_advance(gen, TestMode::Sequential, BoundedOrder::Random, 3));
    assert_eq!(st.current_index, 0);
    assert_eq!(st.typed_buffer, "დ");
}

#[test]
fn reset_clears_word_buffer_and_countdown() {
    let mut st = DrillState::new();
    st.current_index = 2;
    st.on_keystroke("kai".to_string(), "kai");
    st.reset();
    assert_eq!(st.current_index, 0);
    assert_eq!(st.typed_buffer, "");
    assert_eq!(st.steps_left, None);
}

#[test]
fn shrunken_set_clamps_the_index() {
    let mut st = DrillState::new();
    st.current_index = 7;
    st.clamp_to(3);
    assert_eq!(st.current_index, 2);
    st.clamp_to(0);
    assert_eq!(st.current_index, 2, "an empty set suspends drilling, the index is left alone");
    st.clamp_to(10);
    assert_eq!(st.current_index, 2);
}

#[test]
fn match_requires_exact_codepoints() {
    assert!(matches_target("და", "და"));
    assert!(!matches_target("და ", "და"));
    assert!(!matches_target("", ""));
    assert!(!matches_target("da", "და"));
}

#[test]
fn per_character_feedback_classifies_each_position() {
    assert_eq!(char_class("წიგნი", "წიხ", 0), CharClass::Correct);
    assert_eq!(char_class("წიგნი", "წიხ", 2), CharClass::Incorrect);
    assert_eq!(char_class("წიგნი", "წიხ", 3), CharClass::Pending);
}
