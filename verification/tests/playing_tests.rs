use langsprint::playing::PlayingSet;

#[test]
fn overlapping_triggers_of_one_sound_are_ignored() {
    let mut set = PlayingSet::new();
    assert!(!set.is_playing("georgian/a.wav"));
    assert!(set.try_begin("georgian/a.wav"));
    assert!(set.is_playing("georgian/a.wav"));
    assert!(!set.try_begin("georgian/a.wav"), "the overlapping trigger is refused");
    assert!(set.try_begin("georgian/b.wav"), "a different sound still starts");
}

#[test]
fn finished_sounds_can_be_replayed() {
    let mut set = PlayingSet::new();
    assert!(set.try_begin("a.wav"));
    set.cleanup_id("a.wav");
    assert!(!set.is_playing("a.wav"));
    assert!(set.try_begin("a.wav"));
}

#[test]
fn path_cleanup_behaves_like_id_cleanup() {
    let mut set = PlayingSet::new();
    assert!(set.try_begin("/sounds/a.wav"));
    assert!(set.try_begin("/sounds/b.wav"));
    set.cleanup_playing_file("/sounds/a.wav");
    assert!(!set.is_playing("/sounds/a.wav"));
    assert!(set.is_playing("/sounds/b.wav"));
}

#[test]
fn cleanup_of_an_unknown_sound_changes_nothing() {
    let mut set = PlayingSet::new();
    assert!(set.try_begin("a.wav"));
    set.cleanup_id("b.wav");
    assert!(set.is_playing("a.wav"));
}
