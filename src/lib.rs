pub mod cards;
pub mod hands;
pub mod model;
pub mod score;

pub use cards::{Card, Suit, Value};
pub use hands::{is_pair, is_three_of_a_kind, same_value, HandError, Pokerhand};
pub use score::{
    FlushScore, FullHouseScore, HandCategory, HandScore, HighCardScore, PairScore, QuadsScore,
    StraightScore, TripsScore, TwoPairScore,
};
