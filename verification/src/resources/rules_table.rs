//! The rules of a common single-deck table.

use crate::strategy::rules::Rules;
use vstd::prelude::*;
use vstd::string::StringExecFns;

verus! {

/// The rules of a common single-deck table: the dealer draws on a soft
/// 17, a natural pays three to two, and three quarters of the deck are
/// dealt before it is shuffled.
pub fn rules_table() -> (rules: Rules)
    ensures
        rules.playbook@ == "single-deck"@,
        rules.hit_soft_17,
        !rules.surrender,
        rules.double_any_two_cards,
        !rules.double_after_split,
        !rules.resplit_aces,
        !rules.hit_split_aces,
        rules.blackjack_bets == 2,
        rules.blackjack_pays == 3,
        rules.penetration == 750,
{
    Rules {
        playbook: String::from_str("single-deck"),
        hit_soft_17: true,
        surrender: false,
        double_any_two_cards: true,
        double_after_split: false,
        resplit_aces: false,
        hit_split_aces: false,
        blackjack_bets: 2,
        blackjack_pays: 3,
        penetration: 750,
    }
}

} // verus!
