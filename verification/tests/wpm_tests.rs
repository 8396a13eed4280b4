use langsprint::corpus::FrequencyWord;
use langsprint::text::clean_word;
use langsprint::wpm::{
    build_wpm_text, char_budget, compute_wpm_result, WpmState, WpmTrial,
};

fn entry(rank: u32, word: &str) -> FrequencyWord {
    FrequencyWord {
        rank,
        word: word.to_string(),
        en: String::new(),
        cb: None,
        pos: None,
        example: None,
    }
}

#[test]
fn score_counts_words_letters_and_speed() {
    // One minute, two typed words, one right and one wrong.
    let res = compute_wpm_result("a b c", "a x", 60);
    assert_eq!(res.correct_words, 1);
    assert_eq!(res.incorrect_words, 1);
    assert_eq!(res.correct_letters, 1);
    assert_eq!(res.incorrect_letters, 1);
    assert_eq!(res.wpm, 2);
}

#[test]
fn score_is_a_pure_function_of_its_inputs() {
    let a = compute_wpm_result("კატა ძაღლი სახლი", "კატა ძაღლი", 30);
    let b = compute_wpm_result("კატა ძაღლი სახლი", "კატა ძაღლი", 30);
    assert_eq!(a, b);
}

#[test]
fn words_typed_beyond_the_target_count_as_incorrect() {
    let res = compute_wpm_result("a", "a b c", 60);
    assert_eq!(res.correct_words, 1);
    assert_eq!(res.incorrect_words, 2);
    assert_eq!(res.incorrect_letters, 2);
}

#[test]
fn zero_duration_is_guarded_to_one_second() {
    let res = compute_wpm_result("a b", "a b", 0);
    assert_eq!(res.wpm, 120);
}

#[test]
fn speed_rounds_to_the_nearest_whole_word() {
    // 7 words in 120 s -> 3.5 wpm, rounded up to 4.
    let res = compute_wpm_result("a b c d e f g", "a b c d e f g", 120);
    assert_eq!(res.wpm, 4);
    // 1 word in 90 s -> 0.67 wpm, rounded to 1.
    let res = compute_wpm_result("a", "a", 90);
    assert_eq!(res.wpm, 1);
    // 1 word in 180 s -> 0.33 wpm, rounded to 0.
    let res = compute_wpm_result("a", "a", 180);
    assert_eq!(res.wpm, 0);
}

#[test]
fn empty_typed_text_scores_zero() {
    let res = compute_wpm_result("a b c", "", 60);
    assert_eq!(res.wpm, 0);
    assert_eq!(res.correct_words, 0);
    assert_eq!(res.incorrect_words, 0);
    assert_eq!(res.correct_letters, 0);
    assert_eq!(res.incorrect_letters, 0);
}

#[test]
fn cleaning_strips_suffix_and_whitespace() {
    assert_eq!(clean_word("და/conj"), Some("და".to_string()));
    assert_eq!(clean_word("  კი  "), Some("კი".to_string()));
    assert_eq!(clean_word(" arc / bow "), Some("arc".to_string()));
    assert_eq!(clean_word("/conj"), None);
    assert_eq!(clean_word("   "), None);
    assert_eq!(clean_word(""), None);
}

#[test]
fn generated_text_reaches_the_budget_from_cleaned_words() {
    let corpus = vec![entry(1, "და/conj"), entry(2, "არა"), entry(3, " / ")];
    let text = build_wpm_text(&corpus, 50);
    assert!(text.chars().count() >= 50);
    for word in text.split_whitespace() {
        assert!(word == "და" || word == "არა", "unexpected word {word:?}");
    }
    assert!(!text.starts_with(' '));
    assert!(!text.ends_with(' '));
}

#[test]
fn generated_text_is_empty_without_usable_words() {
    assert_eq!(build_wpm_text(&Vec::new(), 100), "");
    let unusable = vec![entry(1, "/x"), entry(2, "   ")];
    assert_eq!(build_wpm_text(&unusable, 100), "");
}

#[test]
fn budget_grows_with_duration_and_never_underfills() {
    assert_eq!(char_budget(60), 1000);
    assert_eq!(char_budget(120), 2000);
    // Short trials still fill the display grid and the safety floor.
    assert_eq!(char_budget(1), 500);
    assert_eq!(char_budget(30), 500);
}

#[test]
fn trial_runs_through_its_life_cycle() {
    let corpus = vec![entry(1, "და"), entry(2, "არა")];
    let mut trial = WpmTrial::new(2);
    assert_eq!(trial.state, WpmState::Idle);
    trial.start(&corpus);
    assert_eq!(trial.state, WpmState::Running);
    assert_eq!(trial.remaining_seconds, 2);
    assert!(trial.typed_text.is_empty());
    assert!(trial.result.is_none());
    let gen = trial.generation;
    trial.on_keystroke("და".to_string());
    assert!(trial.tick_second(gen));
    assert!(trial.tick_second(gen));
    assert!(!trial.tick_second(gen), "the clock stops at zero");
    assert!(trial.finish_due());
    assert!(trial.try_finish(gen));
    assert_eq!(trial.state, WpmState::Finished);
    let expected = compute_wpm_result(&trial.target_text, "და", 2);
    assert_eq!(trial.result, Some(expected));
}

#[test]
fn restart_invalidates_the_old_timer() {
    let corpus = vec![entry(1, "და")];
    let mut trial = WpmTrial::new(5);
    trial.start(&corpus);
    let stale = trial.generation;
    trial.start(&corpus);
    assert!(!trial.tick_second(stale), "a tick of the abandoned run commits nothing");
    assert!(!trial.try_finish(stale));
    assert_eq!(trial.remaining_seconds, 5);
    assert_eq!(trial.state, WpmState::Running);
}

#[test]
fn reset_returns_to_idle_and_drops_the_result() {
    let corpus = vec![entry(1, "და")];
    let mut trial = WpmTrial::new(1);
    trial.start(&corpus);
    let gen = trial.generation;
    assert!(trial.tick_second(gen));
    assert!(trial.try_finish(gen));
    assert!(trial.result.is_some());
    trial.reset();
    assert_eq!(trial.state, WpmState::Idle);
    assert!(trial.result.is_none());
    assert_eq!(trial.remaining_seconds, 1);
    assert!(trial.typed_text.is_empty());
}

#[test]
fn typing_does_not_disturb_the_clock() {
    let corpus = vec![entry(1, "და")];
    let mut trial = WpmTrial::new(3);
    trial.start(&corpus);
    let gen = trial.generation;
    trial.on_keystroke("x".to_string());
    trial.on_keystroke("xy".to_string());
    assert_eq!(trial.generation, gen);
    assert_eq!(trial.remaining_seconds, 3);
    assert_eq!(trial.typed_text, "xy");
}

#[test]
fn changing_the_duration_abandons_the_run() {
    let corpus = vec![entry(1, "და")];
    let mut trial = WpmTrial::new(60);
    trial.start(&corpus);
    let stale = trial.generation;
    trial.set_duration(30);
    assert_eq!(trial.state, WpmState::Idle);
    assert_eq!(trial.duration_seconds, 30);
    assert_eq!(trial.remaining_seconds, 30);
    assert!(trial.result.is_none());
    assert!(!trial.tick_second(stale));
}
