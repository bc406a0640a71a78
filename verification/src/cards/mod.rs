pub mod card;
pub mod dealer;
pub mod hand;
pub mod rank;
pub mod shoe;
pub mod suit;
pub mod wager;

pub use card::Card;
pub use rank::Rank;
pub use suit::Suit;
