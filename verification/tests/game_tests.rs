use wordle::CharState;
use wordle::WordleError;
use wordle::WordleState;

#[test]
fn five_losing_guesses_end_the_game_without_a_win() {
    let mut state = WordleState::new("CRANE");
    for turn in 0..5usize {
        assert_eq!(state.get_turn(), Some(turn));
        assert!(!state.game_over());
        assert_eq!(state.set_guess("SPOIL"), Ok(()));
    }
    assert_eq!(state.get_turn(), None);
    assert!(state.game_over());
    assert_eq!(state.won(), Ok(false));
}

#[test]
fn guessing_the_secret_on_turn_one_wins_immediately() {
    let mut state = WordleState::new("CRANE");
    assert_eq!(state.set_guess("CRANE"), Ok(()));
    assert!(state.game_over());
    assert_eq!(state.won(), Ok(true));
    assert_eq!(state.get_turn(), Some(1));
    let snap = state.snapshot();
    assert!(snap[0].0.is_some() && snap[0].1.is_some());
    for entry in snap.iter().skip(1) {
        assert!(entry.0.is_none() && entry.1.is_none());
    }
}

#[test]
fn submitting_after_a_win_fails_and_preserves_state() {
    let mut state = WordleState::new("CRANE");
    assert_eq!(state.set_guess("CRANE"), Ok(()));
    let before = state.snapshot();
    assert_eq!(state.set_guess("SLATE"), Err(WordleError::GameOver));
    assert_eq!(state.snapshot(), before);
}

#[test]
fn submitting_on_a_full_board_fails_and_preserves_state() {
    let mut state = WordleState::new("CRANE");
    for _ in 0..5 {
        assert_eq!(state.set_guess("SPOIL"), Ok(()));
    }
    let before = state.snapshot();
    assert_eq!(state.set_guess("SLATE"), Err(WordleError::GameOver));
    assert_eq!(state.snapshot(), before);
}

#[test]
fn snapshot_always_has_one_entry_per_turn_slot() {
    let mut state = WordleState::new("CRANE");
    assert_eq!(state.snapshot().len(), 5);
    assert_eq!(state.set_guess("SLATE"), Ok(()));
    assert_eq!(state.snapshot().len(), 5);
    for _ in 0..4 {
        assert_eq!(state.set_guess("SPOIL"), Ok(()));
    }
    assert_eq!(state.snapshot().len(), 5);
}

#[test]
fn snapshot_carries_guesses_and_outcomes_in_order() {
    let mut state = WordleState::new("CRANE");
    assert_eq!(state.set_guess("SLATE"), Ok(()));
    let snap = state.snapshot();
    assert_eq!(snap[0].0, Some(vec!['S', 'L', 'A', 'T', 'E']));
    assert_eq!(
        snap[0].1,
        Some(vec![
            CharState::EXCLUDES,
            CharState::EXCLUDES,
            CharState::POSITIONED,
            CharState::EXCLUDES,
            CharState::POSITIONED,
        ])
    );
    assert_eq!(snap[1], (None, None));
}

#[test]
fn asking_for_a_win_before_any_guess_is_an_error() {
    let state = WordleState::new("CRANE");
    assert_eq!(state.won(), Err(WordleError::NoGuessesYet));
    assert!(!state.game_over());
}

#[test]
fn the_turn_cursor_advances_one_slot_at_a_time() {
    let mut state = WordleState::new("CRANE");
    for turn in 0..5usize {
        assert_eq!(state.get_turn(), Some(turn));
        assert_eq!(state.set_guess("SPOIL"), Ok(()));
    }
    assert_eq!(state.get_turn(), None);
}

#[test]
fn recalculating_cached_outcomes_changes_nothing() {
    let mut state = WordleState::new("CRANE");
    assert_eq!(state.set_guess("SLATE"), Ok(()));
    assert_eq!(state.set_guess("LLAMA"), Ok(()));
    let before = state.snapshot();
    state.calculate_guess_states(false);
    assert_eq!(state.snapshot(), before);
    state.calculate_guess_states(true);
    assert_eq!(state.snapshot(), before);
}

#[test]
fn short_words_are_padded_with_blanks_on_both_sides_of_the_board() {
    let mut state = WordleState::new("AB");
    assert_eq!(state.set_guess("AB"), Ok(()));
    assert_eq!(state.won(), Ok(true));
}

#[test]
fn long_words_are_truncated_to_five_letters() {
    let mut state = WordleState::new("CRANES");
    assert_eq!(state.set_guess("CRANED"), Ok(()));
    assert_eq!(state.won(), Ok(true));
}
