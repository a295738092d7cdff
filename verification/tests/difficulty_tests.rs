use sudoku_grid::difficulty::Difficulty;

#[test]
fn levels_match_the_service_numbering() {
    assert_eq!(Difficulty::Easy.level(), 1);
    assert_eq!(Difficulty::Medium.level(), 2);
    assert_eq!(Difficulty::Hard.level(), 3);
    assert_eq!(Difficulty::Evil.level(), 4);
}

#[test]
fn default_difficulty_is_evil() {
    assert_eq!(Difficulty::default(), Difficulty::Evil);
}

#[test]
fn names_are_capitalized_words() {
    assert_eq!(Difficulty::Easy.name(), "Easy");
    assert_eq!(Difficulty::Medium.name(), "Medium");
    assert_eq!(Difficulty::Hard.name(), "Hard");
    assert_eq!(Difficulty::Evil.name(), "Evil");
}
