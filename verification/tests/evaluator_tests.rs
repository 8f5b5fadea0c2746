use wordle::evaluate;
use wordle::str_to_five_char;
use wordle::str_unique_by_characters;
use wordle::CharState;

fn outcomes(guess: &str, secret: &str) -> Vec<CharState> {
    let g = str_to_five_char(guess);
    let s = str_to_five_char(secret);
    evaluate(&g, &s)
}

fn count_matched(guess: &str, row: &[CharState], letter: char) -> usize {
    guess
        .chars()
        .zip(row.iter())
        .filter(|(c, state)| *c == letter && **state != CharState::EXCLUDES)
        .count()
}

#[test]
fn exact_guess_is_all_positioned() {
    let row = outcomes("CRANE", "CRANE");
    assert_eq!(row, vec![CharState::POSITIONED; 5]);
}

#[test]
fn disjoint_guess_is_all_excluded() {
    let row = outcomes("ABCDE", "FGHIJ");
    assert_eq!(row, vec![CharState::EXCLUDES; 5]);
}

#[test]
fn duplicate_letters_follow_the_two_pass_rule() {
    // Secret ALLOW holds two L's: the guess LLAMA is credited with exactly
    // two L matches, the exact position first, then the leftmost leftover.
    let row = outcomes("LLAMA", "ALLOW");
    assert_eq!(
        row,
        vec![
            CharState::CONTAINS,
            CharState::POSITIONED,
            CharState::CONTAINS,
            CharState::EXCLUDES,
            CharState::EXCLUDES,
        ]
    );
    assert_eq!(count_matched("LLAMA", &row, 'L'), 2);
    assert_eq!(count_matched("LLAMA", &row, 'A'), 1);
}

#[test]
fn repeated_guess_letter_never_overcounts() {
    // EBCDE holds two E's; a guess of five E's is credited with exactly two.
    let row = outcomes("EEEEE", "EBCDE");
    assert_eq!(
        row,
        vec![
            CharState::POSITIONED,
            CharState::EXCLUDES,
            CharState::EXCLUDES,
            CharState::EXCLUDES,
            CharState::POSITIONED,
        ]
    );
    assert_eq!(count_matched("EEEEE", &row, 'E'), 2);
}

#[test]
fn leftover_letters_are_consumed_left_to_right() {
    let row = outcomes("SPEED", "ERASE");
    assert_eq!(
        row,
        vec![
            CharState::CONTAINS,
            CharState::EXCLUDES,
            CharState::CONTAINS,
            CharState::CONTAINS,
            CharState::EXCLUDES,
        ]
    );
    assert_eq!(count_matched("SPEED", &row, 'E'), 2);
}

#[test]
fn str_to_five_char_pads_short_words() {
    assert_eq!(str_to_five_char("AB"), vec!['A', 'B', ' ', ' ', ' ']);
    assert_eq!(str_to_five_char(""), vec![' '; 5]);
}

#[test]
fn str_to_five_char_truncates_long_words() {
    assert_eq!(str_to_five_char("ABCDEFG"), vec!['A', 'B', 'C', 'D', 'E']);
    assert_eq!(str_to_five_char("CRANE"), vec!['C', 'R', 'A', 'N', 'E']);
}

#[test]
fn str_unique_by_characters_detects_repeats() {
    assert!(str_unique_by_characters("ABCDE"));
    assert!(str_unique_by_characters(""));
    assert!(str_unique_by_characters("A"));
    assert!(!str_unique_by_characters("HELLO"));
    assert!(!str_unique_by_characters("AA"));
}
