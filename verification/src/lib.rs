//! A word-guessing puzzle engine: a pure evaluator that classifies each
//! letter of a five-letter guess against a secret word, and a turn-based
//! game state that records up to five guesses with their cached outcomes.

pub mod evaluator;
pub mod game;
pub mod utils;

pub use evaluator::evaluate;
pub use evaluator::CharState;
pub use game::WordleError;
pub use game::WordleState;
pub use utils::str_to_five_char;
pub use utils::str_unique_by_characters;
