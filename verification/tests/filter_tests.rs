use langsprint::corpus::{distinct_pos, max_rank, FrequencyWord};
use langsprint::filter::{
    compute_active_set, BoundedOrder, FilterConfig, TestMode,
};

fn entry(rank: u32, word: &str, pos: Option<&str>) -> FrequencyWord {
    FrequencyWord {
        rank,
        word: word.to_string(),
        en: String::new(),
        cb: None,
        pos: pos.map(|p| p.to_string()),
        example: None,
    }
}

fn corpus_three() -> Vec<FrequencyWord> {
    vec![
        entry(1, "და", Some("conj")),
        entry(2, "არა", Some("adv")),
        entry(3, "კი", None),
    ]
}

#[test]
fn empty_pos_filter_keeps_everything_in_order() {
    let corpus = corpus_three();
    let cfg = FilterConfig::new();
    let active = compute_active_set(&corpus, &cfg);
    assert_eq!(active.len(), 3);
    assert_eq!(active[0].word, "და");
    assert_eq!(active[1].word, "არა");
    assert_eq!(active[2].word, "კი");
}

#[test]
fn pos_filter_keeps_selected_tags_only() {
    let corpus = corpus_three();
    let mut cfg = FilterConfig::new();
    cfg.active_pos = vec!["conj".to_string()];
    let active = compute_active_set(&corpus, &cfg);
    assert_eq!(active.len(), 1);
    assert_eq!(active[0].word, "და");
}

#[test]
fn untagged_entry_survives_only_when_all_tags_selected() {
    let corpus = corpus_three();
    let mut cfg = FilterConfig::new();
    cfg.active_pos = vec!["conj".to_string(), "adv".to_string()];
    let active = compute_active_set(&corpus, &cfg);
    assert_eq!(active.len(), 3);
    cfg.active_pos = vec!["adv".to_string()];
    let active = compute_active_set(&corpus, &cfg);
    assert_eq!(active.len(), 1);
    assert_eq!(active[0].word, "არა");
}

#[test]
fn bounded_mode_applies_rank_window() {
    let corpus = corpus_three();
    let mut cfg = FilterConfig::new();
    cfg.mode = TestMode::Bounded;
    cfg.rank_min = 2;
    cfg.rank_max = 3;
    let active = compute_active_set(&corpus, &cfg);
    assert_eq!(active.len(), 2);
    assert_eq!(active[0].rank, 2);
    assert_eq!(active[1].rank, 3);
}

#[test]
fn non_bounded_mode_ignores_rank_window() {
    let corpus = corpus_three();
    let mut cfg = FilterConfig::new();
    cfg.mode = TestMode::Sequential;
    cfg.rank_min = 2;
    cfg.rank_max = 2;
    let active = compute_active_set(&corpus, &cfg);
    assert_eq!(active.len(), 3);
}

#[test]
fn empty_result_is_allowed() {
    let corpus = corpus_three();
    let mut cfg = FilterConfig::new();
    cfg.active_pos = vec!["noun".to_string()];
    let active = compute_active_set(&corpus, &cfg);
    assert_eq!(active.len(), 0);
}

#[test]
fn crossed_rank_request_is_normalized_up() {
    let mut cfg = FilterConfig::new();
    cfg.set_ranks(5, 2);
    assert_eq!(cfg.rank_min, 5);
    assert_eq!(cfg.rank_max, 5);
}

#[test]
fn crossed_window_filters_by_normalized_max() {
    let corpus = vec![
        entry(4, "a", None),
        entry(5, "b", None),
        entry(6, "c", None),
    ];
    let mut cfg = FilterConfig::new();
    cfg.mode = TestMode::Bounded;
    cfg.rank_min = 5;
    cfg.rank_max = 2;
    let active = compute_active_set(&corpus, &cfg);
    assert_eq!(active.len(), 1);
    assert_eq!(active[0].rank, 5);
}

#[test]
fn min_edit_drags_max_up() {
    let mut cfg = FilterConfig::new();
    cfg.rank_min = 1;
    cfg.rank_max = 10;
    cfg.set_rank_min(20, 100);
    assert_eq!(cfg.rank_min, 20);
    assert_eq!(cfg.rank_max, 20);
}

#[test]
fn max_edit_clamps_up_to_min() {
    let mut cfg = FilterConfig::new();
    cfg.rank_min = 10;
    cfg.rank_max = 20;
    cfg.set_rank_max(3, 100);
    assert_eq!(cfg.rank_min, 10);
    assert_eq!(cfg.rank_max, 10);
}

#[test]
fn rank_edits_clamp_to_available_ranks() {
    let mut cfg = FilterConfig::new();
    cfg.set_rank_min(500, 250);
    assert_eq!(cfg.rank_min, 250);
    cfg.set_rank_max(0, 250);
    assert_eq!(cfg.rank_max, 250);
    assert!(cfg.rank_min <= cfg.rank_max);
}

#[test]
fn mode_identifiers_round_trip() {
    assert_eq!(TestMode::from_str(TestMode::Sequential.as_str()), Some(TestMode::Sequential));
    assert_eq!(TestMode::from_str(TestMode::Random.as_str()), Some(TestMode::Random));
    assert_eq!(TestMode::from_str(TestMode::Bounded.as_str()), Some(TestMode::Bounded));
    assert_eq!(
        BoundedOrder::from_str(BoundedOrder::Sequential.as_str()),
        Some(BoundedOrder::Sequential)
    );
    assert_eq!(
        BoundedOrder::from_str(BoundedOrder::Random.as_str()),
        Some(BoundedOrder::Random)
    );
}

#[test]
fn unknown_mode_identifier_is_an_error() {
    assert_eq!(TestMode::from_str("shuffle"), None);
    assert_eq!(TestMode::from_str(""), None);
    assert_eq!(BoundedOrder::from_str("random"), None);
}

#[test]
fn distinct_pos_lists_each_tag_once() {
    let corpus = vec![
        entry(1, "a", Some("noun")),
        entry(2, "b", Some("verb")),
        entry(3, "c", Some("noun")),
        entry(4, "d", None),
    ];
    let tags = distinct_pos(&corpus);
    assert_eq!(tags, vec!["noun".to_string(), "verb".to_string()]);
}

#[test]
fn max_rank_of_empty_corpus_is_one() {
    assert_eq!(max_rank(&Vec::new()), 1);
    assert_eq!(max_rank(&corpus_three()), 3);
}

#[test]
fn toggle_off_from_all_enabled_materializes_the_rest() {
    let all = vec!["noun".to_string(), "verb".to_string(), "adv".to_string()];
    let mut cfg = FilterConfig::new();
    assert!(cfg.active_pos.is_empty());
    cfg.toggle_pos("verb", &all, false);
    assert_eq!(cfg.active_pos, vec!["noun".to_string(), "adv".to_string()]);
}

#[test]
fn toggle_on_adds_missing_tag_once() {
    let all = vec!["noun".to_string(), "verb".to_string()];
    let mut cfg = FilterConfig::new();
    cfg.active_pos = vec!["noun".to_string()];
    cfg.toggle_pos("verb", &all, true);
    assert_eq!(cfg.active_pos, vec!["noun".to_string(), "verb".to_string()]);
    cfg.toggle_pos("verb", &all, true);
    assert_eq!(cfg.active_pos, vec!["noun".to_string(), "verb".to_string()]);
}
