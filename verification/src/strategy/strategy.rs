//! The strategy: decision codes and what they decide, the card count,
//! and the five charts that say when to double, split and stand.

use crate::arguments::arguments::Arguments;
use crate::cards::card::Card;
use crate::cards::rank::Rank;
use crate::constants::constants::{TRUE_COUNT_BET, TRUE_COUNT_MULTIPLIER};
use crate::cards::hand::{hand_total, lemma_live_totals, soft_aces};
use crate::errors::StrikerError;
use crate::strategy::chart::{state_insert, Chart, ChartState};
use crate::utilities::utilities::{
    decimal, digits_value, is_digits, lemma_digits_value_grows, lowercase, to_decimal,
    to_lowercase, uppercase,
};
use crate::constants::constants::{DECKS_SINGLE_DECK, NUMBER_OF_CARDS_IN_DECK, STRATEGY_MIMIC};
use vstd::arithmetic::div_mod::{
    lemma_fundamental_div_mod, lemma_fundamental_div_mod_converse, lemma_mod_pos_bound,
};
use vstd::prelude::*;
use vstd::string::{StrSliceExecFns, StringExecFns};

verus! {

/// The text of a number without its sign.
pub open spec fn unsigned_part(text: Seq<char>) -> Seq<char> {
    if text.len() > 0 && (text[0] == '-' || text[0] == '+') {
        text.skip(1)
    } else {
        text
    }
}

/// The whole number that the text denotes: an optional sign and then
/// decimal digits only, with a value in the range of `isize`.
pub open spec fn parse_int(text: Seq<char>) -> Option<int> {
    let magnitude = digits_value(unsigned_part(text)) as int;
    let value = if text.len() > 0 && text[0] == '-' {
        -magnitude
    } else {
        magnitude
    };
    if is_digits(unsigned_part(text)) && isize::MIN <= value <= isize::MAX {
        Some(value)
    } else {
        None
    }
}

/// What a decision code in lower case decides at a true count.
///
/// `yes` and `y` say yes and `no` and `n` say no, whatever the count. An
/// `r` before a whole number says yes while the count is at most that
/// number; a whole number alone says yes once the count has reached it.
/// Anything else leaves the decision to `default`.
pub open spec fn resolve(code: Seq<char>, true_count: int, default: bool) -> bool {
    if code == seq!['y', 'e', 's'] || code == seq!['y'] {
        true
    } else if code == seq!['n', 'o'] || code == seq!['n'] {
        false
    } else if code.len() > 0 && code[0] == 'r' {
        match parse_int(code.skip(1)) {
            Some(limit) => true_count <= limit,
            None => default,
        }
    } else {
        match parse_int(code) {
            Some(limit) => true_count >= limit,
            None => default,
        }
    }
}

/// Yes and no are said whatever the true count and whatever the default.
pub proof fn lemma_yes_and_no_ignore_the_count(true_count: int, default: bool)
    ensures
        resolve(seq!['y', 'e', 's'], true_count, default),
        resolve(seq!['y'], true_count, default),
        !resolve(seq!['n', 'o'], true_count, default),
        !resolve(seq!['n'], true_count, default),
{
    assert(seq!['n', 'o'] != seq!['y', 'e', 's']);
    assert(seq!['n', 'o'][0] != seq!['y'][0]);
    assert(seq!['n'][0] != seq!['y'][0]);
    assert(seq!['n'] != seq!['y', 'e', 's']);
}

/// A threshold says yes from its count upwards, and a reversed threshold
/// up to its count, whatever the default.
pub proof fn lemma_thresholds(digits: Seq<char>, true_count: int, default: bool)
    requires
        is_digits(digits),
        digits_value(digits) <= isize::MAX,
    ensures
        resolve(digits, true_count, default) == (true_count >= digits_value(digits)),
        resolve(seq!['r'] + digits, true_count, default) == (true_count <= digits_value(digits)),
{
    let reversed = seq!['r'] + digits;
    assert(reversed.skip(1) =~= digits);
    assert(reversed[0] == 'r');
    assert('0' <= digits[0] <= '9');
    assert(unsigned_part(digits) == digits);
    assert(digits != seq!['y', 'e', 's'] && digits != seq!['y'] && digits != seq!['n', 'o']
        && digits != seq!['n']) by {
        assert(seq!['y', 'e', 's'][0] == 'y' && seq!['y'][0] == 'y' && seq!['n', 'o'][0] == 'n'
            && seq!['n'][0] == 'n');
    }
    assert(reversed != seq!['y', 'e', 's'] && reversed != seq!['y'] && reversed != seq!['n', 'o']
        && reversed != seq!['n']) by {
        assert(seq!['y', 'e', 's'][0] == 'y' && seq!['y'][0] == 'y' && seq!['n', 'o'][0] == 'n'
            && seq!['n'][0] == 'n');
    }
}

/// Reads a whole number: an optional sign and then decimal digits only.
pub fn parse_isize(text: &str) -> (number: Option<isize>)
    ensures
        number.is_some() == parse_int(text@).is_some(),
        number.is_some() ==> number.unwrap() == parse_int(text@).unwrap(),
{
    let n: usize = text.unicode_len();
    if n == 0 {
        return None;
    }
    let first = text.get_char(0);
    let negative = first == '-';
    let start: usize = if first == '-' || first == '+' {
        1
    } else {
        0
    };
    let ghost body = unsigned_part(text@);
    assert(body =~= text@.skip(start as int));
    if start >= n {
        return None;
    }
    let limit: u128 = (isize::MAX as u128) + 1;
    let mut value: u128 = 0;
    let mut i: usize = start;
    while i < n
        invariant
            start <= i <= n,
            n == text@.len(),
            body == text@.skip(start as int),
            body == unsigned_part(text@),
            limit == isize::MAX + 1,
            value == digits_value(body.take(i - start)),
            value <= limit,
            forall|j: int| 0 <= j < i - start ==> '0' <= #[trigger] body[j] <= '9',
        decreases n - i,
    {
        let c = text.get_char(i);
        if c < '0' || c > '9' {
            assert(body[i - start] == c);
            return None;
        }
        let digit: u128 = (c as u32 - '0' as u32) as u128;
        proof {
            assert(body.take(i - start + 1).drop_last() =~= body.take(i - start));
            assert(body.take(i - start + 1).last() == c);
        }
        value = value * 10 + digit;
        if value > limit {
            proof {
                lemma_digits_value_grows(body, i - start + 1);
            }
            return None;
        }
        i = i + 1;
    }
    assert(body.take(n - start) =~= body);
    if negative {
        if value == limit {
            Some(isize::MIN)
        } else {
            Some(-(value as isize))
        }
    } else {
        if value == limit {
            None
        } else {
            Some(value as isize)
        }
    }
}

/// What a decision code in lower case decides at a true count.
pub fn resolve_code(code: &str, true_count: isize, default: bool) -> (decision: bool)
    ensures
        decision == resolve(code@, true_count as int, default),
{
    let n: usize = code.unicode_len();
    if n == 0 {
        assert(parse_int(code@).is_none());
        return default;
    }
    let first = code.get_char(0);
    if first == 'y' {
        if n == 1 {
            assert(code@ =~= seq!['y']);
            return true;
        }
        if n == 3 && code.get_char(1) == 'e' && code.get_char(2) == 's' {
            assert(code@ =~= seq!['y', 'e', 's']);
            return true;
        }
    }
    if first == 'n' {
        if n == 1 {
            assert(code@ =~= seq!['n']);
            return false;
        }
        if n == 2 && code.get_char(1) == 'o' {
            assert(code@ =~= seq!['n', 'o']);
            return false;
        }
    }
    assert(code@ != seq!['y', 'e', 's'] && code@ != seq!['y'] && code@ != seq!['n', 'o'] && code@
        != seq!['n']) by {
        if code@ == seq!['y', 'e', 's'] {
            assert(code@[1] == 'e' && code@[2] == 's');
        }
        if code@ == seq!['n', 'o'] {
            assert(code@[1] == 'o');
        }
    }
    if first == 'r' {
        let rest = code.substring_char(1, n);
        assert(rest@ =~= code@.skip(1));
        match parse_isize(rest) {
            Some(limit) => true_count <= limit,
            None => default,
        }
    } else {
        match parse_isize(code) {
            Some(limit) => true_count >= limit,
            None => default,
        }
    }
}


/// The number of slots of the weight vector and of the histogram of seen
/// cards that enter into the running count: one for each card value from
/// 0 to 11, of which 2 to 11 occur.
pub const COUNTED_SLOTS: usize = 12;

/// The sum of `weights[i] * seen[i]` over the first `n` slots.
pub open spec fn weighted_sum(weights: Seq<isize>, seen: Seq<usize>, n: int) -> int
    decreases n,
{
    if n <= 0 {
        0
    } else {
        weighted_sum(weights, seen, n - 1) + weights[n - 1] * seen[n - 1]
    }
}

/// The running count: every card seen, weighted by its value's weight.
pub open spec fn running_count(weights: Seq<isize>, seen: Seq<usize>) -> int {
    weighted_sum(weights, seen, COUNTED_SLOTS as int)
}

/// The value lies in the range of `isize`.
pub open spec fn in_isize(value: int) -> bool {
    isize::MIN <= value <= isize::MAX
}

/// The running count over the first `n` slots can be summed up slot by
/// slot without a count, a product or a sum leaving the range of `isize`.
pub open spec fn weighted_sum_fits(weights: Seq<isize>, seen: Seq<usize>, n: int) -> bool
    decreases n,
{
    n <= 0 || {
        &&& weighted_sum_fits(weights, seen, n - 1)
        &&& seen[n - 1] <= isize::MAX
        &&& in_isize(weights[n - 1] * seen[n - 1])
        &&& in_isize(weighted_sum(weights, seen, n))
    }
}

/// The running count can be computed in `isize`.
pub open spec fn running_count_fits(weights: Seq<isize>, seen: Seq<usize>) -> bool {
    weighted_sum_fits(weights, seen, COUNTED_SLOTS as int)
}

/// The number of cards in the histogram.
pub open spec fn cards_seen(seen: Seq<usize>) -> nat
    decreases seen.len(),
{
    if seen.len() == 0 {
        0
    } else {
        cards_seen(seen.drop_last()) + seen.last() as nat
    }
}

/// The value brought into the range of `isize`.
pub open spec fn clamp_isize(value: int) -> int {
    if value < isize::MIN {
        isize::MIN as int
    } else if value > isize::MAX {
        isize::MAX as int
    } else {
        value
    }
}

/// The true count: the running count per half deck that is still unseen,
/// rounded down, and zero once no card is unseen. (With a positive
/// divisor, `/` on `int` rounds down.)
pub open spec fn true_count(number_of_cards: nat, seen: Seq<usize>, running: int) -> int {
    let unseen = number_of_cards - cards_seen(seen);
    if unseen > 0 {
        clamp_isize((running * TRUE_COUNT_MULTIPLIER as int) / unseen)
    } else {
        0
    }
}

/// The bet that a true count asks for: the betting unit for each point
/// of a positive count.
pub open spec fn bet_for(count: int) -> int {
    if count > 0 {
        count * TRUE_COUNT_BET as int
    } else {
        0
    }
}

proof fn lemma_cards_seen_grows(seen: Seq<usize>, i: int)
    requires
        0 <= i <= seen.len(),
    ensures
        cards_seen(seen.take(i)) <= cards_seen(seen),
    decreases seen.len() - i,
{
    if i < seen.len() {
        lemma_cards_seen_grows(seen, i + 1);
        assert(seen.take(i + 1).drop_last() =~= seen.take(i));
    } else {
        assert(seen.take(i) =~= seen);
    }
}

/// The histogram `later` counts in each slot at most `draws` more than
/// `seen` counts.
pub open spec fn within(seen: Seq<usize>, later: Seq<usize>, draws: int) -> bool {
    &&& later.len() == seen.len()
    &&& forall|i: int| 0 <= i < seen.len() ==> #[trigger] later[i] <= seen[i] + draws
}

/// One row of a decision table as it is supplied: the key and the codes
/// for the dealer's up-cards from the two upwards.
#[derive(Debug, Clone)]
pub struct TableRow {
    pub key: String,
    pub values: Vec<String>,
}

/// A strategy as it is supplied.
#[derive(Debug, Clone)]
pub struct StrategyDefinition {
    pub playbook: String,
    /// The counting weights of the card values from 2 to 11.
    pub counts: Vec<isize>,
    pub insurance: String,
    pub soft_double: Vec<TableRow>,
    pub hard_double: Vec<TableRow>,
    pub pair_split: Vec<TableRow>,
    pub soft_stand: Vec<TableRow>,
    pub hard_stand: Vec<TableRow>,
}

/// What inserting the first `done` codes of a row makes of a chart: the
/// code at position `i` goes into the column of the up-card value `2 + i`.
pub open spec fn load_row(state: ChartState, row: TableRow, done: int) -> Option<ChartState>
    decreases done,
{
    if done <= 0 {
        Some(state)
    } else {
        match load_row(state, row, done - 1) {
            Some(before) => state_insert(before, row.key@, 2 + (done - 1), row.values@[done - 1]@),
            None => None,
        }
    }
}

/// What inserting all codes of the first `done` rows makes of a chart,
/// or `None` where one of the inserts is refused.
pub open spec fn load_rows(state: ChartState, rows: Seq<TableRow>, done: int) -> Option<ChartState>
    decreases done,
{
    if done <= 0 {
        Some(state)
    } else {
        match load_rows(state, rows, done - 1) {
            Some(before) => load_row(before, rows[done - 1], rows[done - 1].values@.len() as int),
            None => None,
        }
    }
}

/// Inserts every code of every row of `table` into `chart`. It stops at
/// the first insert that the chart refuses.
pub fn strategy_load_table(
    table: &Vec<TableRow>,
    chart: &mut Chart,
) -> (done: Result<(), StrikerError>)
    requires
        old(chart).wf(),
    ensures
        final(chart).wf(),
        final(chart).name == old(chart).name,
        match load_rows(old(chart).state(), table@, table@.len() as int) {
            Some(state) => done.is_ok() && final(chart).state() == state,
            None => done == Err::<(), StrikerError>(StrikerError::Configuration),
        },
{
    let mut r: usize = 0;
    while r < table.len()
        invariant
            r <= table@.len(),
            chart.wf(),
            chart.name == old(chart).name,
            load_rows(old(chart).state(), table@, r as int) == Some(chart.state()),
        decreases table@.len() - r,
    {
        let row = &table[r];
        let ghost start = chart.state();
        let mut i: usize = 0;
        while i < row.values.len()
            invariant
                r < table@.len(),
                *row == table@[r as int],
                i <= row.values@.len(),
                chart.wf(),
                chart.name == old(chart).name,
                load_row(start, *row, i as int) == Some(chart.state()),
                load_rows(old(chart).state(), table@, r as int) == Some(start),
            decreases row.values@.len() - i,
        {
            if i >= usize::MAX - 2 {
                proof {
                    lemma_load_row_refused(start, *row, i as int + 1, row.values@.len() as int);
                }
                return Err(StrikerError::Configuration);
            }
            match chart.insert(row.key.as_str(), 2 + i, row.values[i].as_str()) {
                Ok(()) => {},
                Err(e) => {
                    proof {
                        lemma_load_row_refused(start, *row, i as int + 1, row.values@.len() as int);
                        lemma_load_rows_refused(
                            old(chart).state(),
                            table@,
                            r as int + 1,
                            table@.len() as int,
                        );
                    }
                    return Err(e);
                },
            }
            i = i + 1;
        }
        r = r + 1;
    }
    Ok(())
}

/// Once an insert of a row is refused, the row as a whole is.
proof fn lemma_load_row_refused(state: ChartState, row: TableRow, done: int, all: int)
    requires
        done <= all,
        load_row(state, row, done).is_none(),
    ensures
        load_row(state, row, all).is_none(),
    decreases all - done,
{
    if done < all {
        lemma_load_row_refused(state, row, done, all - 1);
    }
}

/// Once a row is refused, the table as a whole is.
proof fn lemma_load_rows_refused(state: ChartState, rows: Seq<TableRow>, done: int, all: int)
    requires
        done <= all,
        load_rows(state, rows, done).is_none(),
    ensures
        load_rows(state, rows, all).is_none(),
    decreases all - done,
{
    if done < all {
        lemma_load_rows_refused(state, rows, done, all - 1);
    }
}


/// Once the running count has left the range, it has for good.
proof fn lemma_weighted_sum_fits_not(weights: Seq<isize>, seen: Seq<usize>, n: int, all: int)
    requires
        n <= all,
        !weighted_sum_fits(weights, seen, n),
    ensures
        !weighted_sum_fits(weights, seen, all),
    decreases all - n,
{
    if n < all {
        lemma_weighted_sum_fits_not(weights, seen, n, all - 1);
    }
}

/// Rounding a negative quotient down is rounding its magnitude up.
proof fn lemma_floor_of_negative(magnitude: int, divisor: int)
    requires
        magnitude >= 0,
        divisor > 0,
    ensures
        (-magnitude) / divisor == -((magnitude + divisor - 1) / divisor),
{
    let x = magnitude + divisor - 1;
    let q = x / divisor;
    lemma_fundamental_div_mod(x, divisor);
    lemma_mod_pos_bound(x, divisor);
    let r = divisor - 1 - (x % divisor);
    assert(-magnitude == (-q) * divisor + r) by (nonlinear_arith)
        requires
            x == divisor * q + (x % divisor),
            x == magnitude + divisor - 1,
            r == divisor - 1 - (x % divisor),
    ;
    lemma_fundamental_div_mod_converse(-magnitude, divisor, -q, r);
}

/// A playing strategy: five decision charts, the rule for insurance and
/// the weights for counting cards.
#[derive(Debug, Clone)]
pub struct Strategy {
    pub playbook: String,
    /// The counting weight of each card value; the slots 0 and 1 stand
    /// for no card.
    pub counts: Vec<isize>,
    /// The decision code for taking insurance.
    pub insurance: String,
    pub soft_double: Chart,
    pub hard_double: Chart,
    pub pair_split: Chart,
    pub soft_stand: Chart,
    pub hard_stand: Chart,
    /// The number of cards in the shoe that is played.
    pub number_of_cards: usize,
}

impl Strategy {
    /// There is a weight for every counted slot, and the charts are well
    /// formed.
    pub open spec fn wf(&self) -> bool {
        &&& self.counts@.len() >= COUNTED_SLOTS
        &&& self.soft_double.wf()
        &&& self.hard_double.wf()
        &&& self.pair_split.wf()
        &&& self.soft_stand.wf()
        &&& self.hard_stand.wf()
    }

    /// Whether the strategy is well formed.
    pub fn is_wf(&self) -> (good: bool)
        ensures
            good == self.wf(),
    {
        self.counts.len() >= COUNTED_SLOTS && self.soft_double.is_wf() && self.hard_double.is_wf()
            && self.pair_split.is_wf() && self.soft_stand.is_wf() && self.hard_stand.is_wf()
    }

    /// The charts hold a row for every hand that play can reach: the
    /// charts for hard hands for every total from 4 to 21, those for soft
    /// hands for every total from 12 to 21, and the chart for pairs for
    /// every rank.
    pub open spec fn spec_complete(&self) -> bool {
        &&& forall|total: nat|
            4 <= total <= 21 ==> self.hard_stand@.dom().contains(
                uppercase(#[trigger] decimal(total)),
            ) && self.hard_double@.dom().contains(uppercase(decimal(total)))
        &&& forall|total: nat|
            12 <= total <= 21 ==> self.soft_stand@.dom().contains(
                uppercase(#[trigger] decimal(total)),
            ) && self.soft_double@.dom().contains(uppercase(decimal(total)))
        &&& forall|rank: Rank| self.pair_split@.dom().contains(uppercase(#[trigger] rank.spec_key()))
    }

    /// The running count can be computed at every histogram that holds at
    /// most `draws` cards more in each slot than `seen`, or fewer.
    pub open spec fn spec_counts_fit(&self, seen: Seq<usize>, draws: int) -> bool {
        forall|later: Seq<usize>|
            within(seen, later, draws) ==> #[trigger] running_count_fits(self.counts@, later)
    }

    /// A complete strategy decides whether to stand on every hand of two
    /// cards or more that is not busted, where the running count can be
    /// computed, and fails with an overflow where it cannot.
    pub proof fn lemma_stand_decides(&self, seen: Seq<usize>, cards: Seq<Card>, up: Card)
        requires
            self.spec_complete(),
            cards.len() >= 2,
            hand_total(cards) <= 21,
        ensures
            running_count_fits(self.counts@, seen) ==> self.spec_stand(
                seen,
                hand_total(cards) as usize,
                soft_aces(cards) > 0,
                up,
            ).is_ok(),
            !running_count_fits(self.counts@, seen) ==> self.spec_stand(
                seen,
                hand_total(cards) as usize,
                soft_aces(cards) > 0,
                up,
            ) == Err::<bool, StrikerError>(StrikerError::Overflow),
    {
        lemma_live_totals(cards);
        let total = hand_total(cards);
        assert(decimal(total) == decimal(total));
    }

    /// A complete strategy decides whether to double down on every hand
    /// of two cards, and whether to split every pair, where the running
    /// count can be computed, and fails with an overflow where it cannot.
    pub proof fn lemma_first_move_decides(&self, seen: Seq<usize>, cards: Seq<Card>, up: Card)
        requires
            self.spec_complete(),
            cards.len() == 2,
        ensures
            running_count_fits(self.counts@, seen) ==> self.spec_double(
                seen,
                hand_total(cards) as usize,
                soft_aces(cards) > 0,
                up,
            ).is_ok() && self.spec_split(seen, cards[0], up).is_ok(),
            !running_count_fits(self.counts@, seen) ==> self.spec_double(
                seen,
                hand_total(cards) as usize,
                soft_aces(cards) > 0,
                up,
            ) == Err::<bool, StrikerError>(StrikerError::Overflow) && self.spec_split(
                seen,
                cards[0],
                up,
            ) == Err::<bool, StrikerError>(StrikerError::Overflow),
    {
        lemma_live_totals(cards);
        let total = hand_total(cards);
        assert(decimal(total) == decimal(total));
        assert(cards[0].rank.spec_key() == cards[0].rank.spec_key());
    }

    /// The true count at a histogram of seen cards.
    pub open spec fn spec_true_count(&self, seen: Seq<usize>) -> int {
        true_count(self.number_of_cards as nat, seen, running_count(self.counts@, seen))
    }

    /// The decision that `chart` gives for the row `key` and the dealer's
    /// up-card at the true count of `seen`. A chart without that row is an
    /// error, and so is a running count that leaves the machine range.
    pub open spec fn spec_decide(
        &self,
        chart: Chart,
        key: Seq<char>,
        up: Card,
        seen: Seq<usize>,
        default: bool,
    ) -> Result<bool, StrikerError> {
        if !chart@.dom().contains(uppercase(key)) {
            Err(StrikerError::Lookup)
        } else if !running_count_fits(self.counts@, seen) {
            Err(StrikerError::Overflow)
        } else {
            Ok(
                resolve(
                    lowercase(chart@[uppercase(key)][up.rank.spec_value() as int]),
                    self.spec_true_count(seen),
                    default,
                ),
            )
        }
    }

    /// Whether to double down on a hand of `total`. A code that decides
    /// nothing means no.
    pub open spec fn spec_double(
        &self,
        seen: Seq<usize>,
        total: usize,
        soft: bool,
        up: Card,
    ) -> Result<bool, StrikerError> {
        self.spec_decide(
            if soft {
                self.soft_double
            } else {
                self.hard_double
            },
            decimal(total as nat),
            up,
            seen,
            false,
        )
    }

    /// Whether to split a pair of the rank of `pair`. A code that decides
    /// nothing means no.
    pub open spec fn spec_split(
        &self,
        seen: Seq<usize>,
        pair: Card,
        up: Card,
    ) -> Result<bool, StrikerError> {
        self.spec_decide(self.pair_split, pair.rank.spec_key(), up, seen, false)
    }

    /// Whether to stand on a hand of `total`. A code that decides nothing
    /// means yes, so that no hand is hit without end.
    pub open spec fn spec_stand(
        &self,
        seen: Seq<usize>,
        total: usize,
        soft: bool,
        up: Card,
    ) -> Result<bool, StrikerError> {
        self.spec_decide(
            if soft {
                self.soft_stand
            } else {
                self.hard_stand
            },
            decimal(total as nat),
            up,
            seen,
            true,
        )
    }

    /// Whether to take insurance. A code that decides nothing means no.
    pub open spec fn spec_insurance(&self, seen: Seq<usize>) -> Result<bool, StrikerError> {
        if !running_count_fits(self.counts@, seen) {
            Err(StrikerError::Overflow)
        } else {
            Ok(resolve(lowercase(self.insurance@), self.spec_true_count(seen), false))
        }
    }

    /// The bet to place.
    pub open spec fn spec_bet(&self, seen: Seq<usize>) -> Result<usize, StrikerError> {
        if !running_count_fits(self.counts@, seen) {
            Err(StrikerError::Overflow)
        } else {
            Ok(bet_for(self.spec_true_count(seen)) as usize)
        }
    }

    /// The strategy that mimics the dealer on a single deck: empty charts,
    /// no insurance, and every weight zero.
    pub fn new() -> (strategy: Strategy)
        ensures
            strategy.wf(),
            strategy.playbook@ == DECKS_SINGLE_DECK@ + "-"@ + STRATEGY_MIMIC@,
            strategy.counts@ == Seq::new(COUNTED_SLOTS as nat, |i: int| 0isize),
            strategy.insurance@ == "N"@,
            strategy.soft_double@ == Map::<Seq<char>, Seq<Seq<char>>>::empty(),
            strategy.hard_double@ == Map::<Seq<char>, Seq<Seq<char>>>::empty(),
            strategy.pair_split@ == Map::<Seq<char>, Seq<Seq<char>>>::empty(),
            strategy.soft_stand@ == Map::<Seq<char>, Seq<Seq<char>>>::empty(),
            strategy.hard_stand@ == Map::<Seq<char>, Seq<Seq<char>>>::empty(),
            strategy.number_of_cards == NUMBER_OF_CARDS_IN_DECK,
    {
        let mut counts: Vec<isize> = Vec::new();
        let mut i: usize = 0;
        while i < COUNTED_SLOTS
            invariant
                i <= COUNTED_SLOTS,
                counts@ == Seq::new(i as nat, |j: int| 0isize),
            decreases COUNTED_SLOTS - i,
        {
            counts.push(0);
            assert(counts@ =~= Seq::new((i + 1) as nat, |j: int| 0isize));
            i = i + 1;
        }
        Strategy {
            playbook: String::from_str(DECKS_SINGLE_DECK).concat("-").concat(STRATEGY_MIMIC),
            counts,
            insurance: String::from_str("N"),
            soft_double: Chart::new("Soft Double"),
            hard_double: Chart::new("Hard Double"),
            pair_split: Chart::new("Pair Split"),
            soft_stand: Chart::new("Soft Stand"),
            hard_stand: Chart::new("Hard Stand"),
            number_of_cards: NUMBER_OF_CARDS_IN_DECK,
        }
    }

    /// Whether a definition can be loaded into this strategy: it has a
    /// weight for each of the ten card values, and no chart refuses an
    /// insert.
    pub open spec fn spec_loads(&self, definition: StrategyDefinition) -> bool {
        &&& definition.counts@.len() + 2 >= COUNTED_SLOTS
        &&& load_rows(self.soft_double.state(), definition.soft_double@,
            definition.soft_double@.len() as int).is_some()
        &&& load_rows(self.hard_double.state(), definition.hard_double@,
            definition.hard_double@.len() as int).is_some()
        &&& load_rows(self.pair_split.state(), definition.pair_split@,
            definition.pair_split@.len() as int).is_some()
        &&& load_rows(self.soft_stand.state(), definition.soft_stand@,
            definition.soft_stand@.len() as int).is_some()
        &&& load_rows(self.hard_stand.state(), definition.hard_stand@,
            definition.hard_stand@.len() as int).is_some()
    }

    /// The strategy holds what the definition says, on top of what the
    /// charts of `before` held.
    pub open spec fn spec_loaded(&self, before: Strategy, definition: StrategyDefinition) -> bool {
        &&& self.playbook@ == definition.playbook@
        &&& self.insurance@ == definition.insurance@
        &&& self.counts@ == seq![0isize, 0isize] + definition.counts@
        &&& Some(self.soft_double.state())
            == load_rows(before.soft_double.state(), definition.soft_double@,
            definition.soft_double@.len() as int)
        &&& Some(self.hard_double.state())
            == load_rows(before.hard_double.state(), definition.hard_double@,
            definition.hard_double@.len() as int)
        &&& Some(self.pair_split.state())
            == load_rows(before.pair_split.state(), definition.pair_split@,
            definition.pair_split@.len() as int)
        &&& Some(self.soft_stand.state())
            == load_rows(before.soft_stand.state(), definition.soft_stand@,
            definition.soft_stand@.len() as int)
        &&& Some(self.hard_stand.state())
            == load_rows(before.hard_stand.state(), definition.hard_stand@,
            definition.hard_stand@.len() as int)
    }

    /// Whether a strategy of this name plays by charts. Only the one that
    /// mimics the dealer does not.
    pub open spec fn spec_uses_charts(name: Seq<char>) -> bool {
        lowercase(name) != STRATEGY_MIMIC@
    }

    /// Whether a strategy of this name plays by charts, so that a
    /// definition has to be supplied for it.
    pub fn uses_charts(name: &str) -> (charts: bool)
        ensures
            charts == Strategy::spec_uses_charts(name@),
    {
        let lower = to_lowercase(name);
        let mimic = String::from_str(STRATEGY_MIMIC);
        !(lower == mimic)
    }

    /// Prepares the strategy for a run: the size of the shoe is that of
    /// the decks asked for, and a strategy that plays by charts is loaded
    /// from `definition`. Where such a strategy comes without a
    /// definition, or with one that cannot be loaded, the data is
    /// refused.
    pub fn init(
        &mut self,
        arguments: &Arguments,
        definition: Option<&StrategyDefinition>,
    ) -> (done: Result<(), StrikerError>)
        requires
            old(self).wf(),
            arguments.number_of_decks * NUMBER_OF_CARDS_IN_DECK <= usize::MAX,
        ensures
            final(self).wf(),
            final(self).number_of_cards == arguments.number_of_decks * NUMBER_OF_CARDS_IN_DECK,
            done.is_err() ==> done == Err::<(), StrikerError>(StrikerError::Configuration),
            !Strategy::spec_uses_charts(arguments.strategy@) ==> done.is_ok() && *final(self) == (
            Strategy { number_of_cards: final(self).number_of_cards, ..*old(self) }),
            Strategy::spec_uses_charts(arguments.strategy@) ==> done.is_ok() == (
            definition.is_some() && old(self).spec_loads(*definition.unwrap())),
            Strategy::spec_uses_charts(arguments.strategy@) && done.is_ok()
                ==> final(self).spec_loaded(
                *old(self),
                *definition.unwrap(),
            ),
    {
        self.number_of_cards = arguments.number_of_decks * NUMBER_OF_CARDS_IN_DECK;
        if Strategy::uses_charts(arguments.strategy.as_str()) {
            match definition {
                Some(data) => self.load(data),
                None => Err(StrikerError::Configuration),
            }
        } else {
            Ok(())
        }
    }

    /// Takes over the playbook, the insurance rule, the weights and the
    /// five charts of a definition. The weights are moved up by two slots,
    /// so that each stands at the index of its card value.
    pub fn load(&mut self, definition: &StrategyDefinition) -> (done: Result<(), StrikerError>)
        requires
            old(self).wf(),
        ensures
            final(self).wf(),
            final(self).number_of_cards == old(self).number_of_cards,
            done.is_ok() == old(self).spec_loads(*definition),
            done.is_err() ==> done == Err::<(), StrikerError>(StrikerError::Configuration),
            done.is_ok() ==> final(self).spec_loaded(*old(self), *definition),
    {
        if definition.counts.len() < COUNTED_SLOTS - 2 {
            return Err(StrikerError::Configuration);
        }
        self.playbook = definition.playbook.clone();
        self.insurance = definition.insurance.clone();
        let mut counts: Vec<isize> = Vec::new();
        counts.push(0);
        counts.push(0);
        let mut i: usize = 0;
        while i < definition.counts.len()
            invariant
                i <= definition.counts@.len(),
                counts@ == seq![0isize, 0isize] + definition.counts@.take(i as int),
            decreases definition.counts@.len() - i,
        {
            counts.push(definition.counts[i]);
            assert(counts@ =~= seq![0isize, 0isize] + definition.counts@.take(i + 1));
            i = i + 1;
        }
        assert(definition.counts@.take(i as int) =~= definition.counts@);
        self.counts = counts;
        match strategy_load_table(&definition.soft_double, &mut self.soft_double) {
            Err(e) => {
                return Err(e);
            },
            Ok(()) => {},
        }
        match strategy_load_table(&definition.hard_double, &mut self.hard_double) {
            Err(e) => {
                return Err(e);
            },
            Ok(()) => {},
        }
        match strategy_load_table(&definition.pair_split, &mut self.pair_split) {
            Err(e) => {
                return Err(e);
            },
            Ok(()) => {},
        }
        match strategy_load_table(&definition.soft_stand, &mut self.soft_stand) {
            Err(e) => {
                return Err(e);
            },
            Ok(()) => {},
        }
        strategy_load_table(&definition.hard_stand, &mut self.hard_stand)
    }

    /// The running count of the cards seen.
    pub fn get_running_count(&self, seen_cards: &[usize]) -> (count: Result<isize, StrikerError>)
        requires
            self.wf(),
            seen_cards@.len() >= COUNTED_SLOTS,
        ensures
            running_count_fits(self.counts@, seen_cards@) ==> count == Ok::<isize, StrikerError>(
                running_count(self.counts@, seen_cards@) as isize,
            ),
            !running_count_fits(self.counts@, seen_cards@)
                ==> count == Err::<isize, StrikerError>(StrikerError::Overflow),
    {
        let mut sum: isize = 0;
        let mut i: usize = 0;
        while i < COUNTED_SLOTS
            invariant
                i <= COUNTED_SLOTS,
                self.counts@.len() >= COUNTED_SLOTS,
                seen_cards@.len() >= COUNTED_SLOTS,
                weighted_sum_fits(self.counts@, seen_cards@, i as int),
                sum == weighted_sum(self.counts@, seen_cards@, i as int),
            decreases COUNTED_SLOTS - i,
        {
            let seen: usize = seen_cards[i];
            if seen > isize::MAX as usize {
                proof {
                    lemma_weighted_sum_fits_not(
                        self.counts@,
                        seen_cards@,
                        i as int + 1,
                        COUNTED_SLOTS as int,
                    );
                }
                return Err(StrikerError::Overflow);
            }
            let next = match self.counts[i].checked_mul(seen as isize) {
                Some(product) => sum.checked_add(product),
                None => None,
            };
            match next {
                Some(value) => {
                    sum = value;
                },
                None => {
                    proof {
                        lemma_weighted_sum_fits_not(
                            self.counts@,
                            seen_cards@,
                            i as int + 1,
                            COUNTED_SLOTS as int,
                        );
                    }
                    return Err(StrikerError::Overflow);
                },
            }
            i = i + 1;
        }
        Ok(sum)
    }

    /// The true count that belongs to a running count.
    pub fn get_true_count(&self, seen_cards: &[usize], running_count: isize) -> (count: isize)
        ensures
            count == true_count(self.number_of_cards as nat, seen_cards@, running_count as int),
    {
        if self.number_of_cards == 0 {
            return 0;
        }
        let mut seen_total: usize = 0;
        let mut i: usize = 0;
        while i < seen_cards.len()
            invariant
                i <= seen_cards@.len(),
                seen_total == cards_seen(seen_cards@.take(i as int)),
                seen_total < self.number_of_cards,
            decreases seen_cards@.len() - i,
        {
            proof {
                assert(seen_cards@.take(i + 1).drop_last() =~= seen_cards@.take(i as int));
            }
            if seen_cards[i] >= self.number_of_cards - seen_total {
                proof {
                    lemma_cards_seen_grows(seen_cards@, i + 1);
                }
                return 0;
            }
            seen_total = seen_total + seen_cards[i];
            i = i + 1;
        }
        assert(seen_cards@.take(i as int) =~= seen_cards@);
        let unseen: u128 = (self.number_of_cards - seen_total) as u128;
        let top: u128 = isize::MAX as u128;
        if running_count >= 0 {
            let scaled: u128 = (running_count as u128) * (TRUE_COUNT_MULTIPLIER as u128);
            let quotient: u128 = scaled / unseen;
            if quotient > top {
                isize::MAX
            } else {
                quotient as isize
            }
        } else {
            let magnitude: u128 = (-(running_count as i128)) as u128;
            let scaled: u128 = magnitude * (TRUE_COUNT_MULTIPLIER as u128);
            let quotient: u128 = (scaled + unseen - 1) / unseen;
            proof {
                lemma_floor_of_negative(scaled as int, unseen as int);
                assert(-(scaled as int) == running_count * TRUE_COUNT_MULTIPLIER as int);
            }
            if quotient > top {
                isize::MIN
            } else {
                -(quotient as isize)
            }
        }
    }

    /// The bet to place at the true count of the cards seen.
    pub fn get_bet(&self, seen_cards: &[usize]) -> (bet: Result<usize, StrikerError>)
        requires
            self.wf(),
            seen_cards@.len() >= COUNTED_SLOTS,
        ensures
            bet == self.spec_bet(seen_cards@),
    {
        match self.get_running_count(seen_cards) {
            Ok(running) => {
                let count: isize = self.get_true_count(seen_cards, running);
                if count > 0 {
                    Ok((count as usize) * TRUE_COUNT_BET)
                } else {
                    Ok(0)
                }
            },
            Err(e) => Err(e),
        }
    }

    /// Whether to take insurance at the true count of the cards seen.
    pub fn get_insurance(&self, seen_cards: &[usize]) -> (take: Result<bool, StrikerError>)
        requires
            self.wf(),
            seen_cards@.len() >= COUNTED_SLOTS,
        ensures
            take == self.spec_insurance(seen_cards@),
    {
        match self.get_running_count(seen_cards) {
            Ok(running) => Ok(
                self.process_value(
                    self.insurance.as_str(),
                    self.get_true_count(seen_cards, running),
                    false,
                ),
            ),
            Err(e) => Err(e),
        }
    }

    /// Whether to double down on a hand of `total` against `up`.
    pub fn get_double(
        &self,
        seen_cards: &[usize],
        total: usize,
        soft: bool,
        up: &Card,
    ) -> (double: Result<bool, StrikerError>)
        requires
            self.wf(),
            seen_cards@.len() >= COUNTED_SLOTS,
        ensures
            double == self.spec_double(seen_cards@, total, soft, *up),
    {
        let key = to_decimal(total as u64);
        if soft {
            self.decide(&self.soft_double, key.as_str(), up, seen_cards, false)
        } else {
            self.decide(&self.hard_double, key.as_str(), up, seen_cards, false)
        }
    }

    /// Whether to split a pair of the rank of `pair` against `up`.
    pub fn get_split(
        &self,
        seen_cards: &[usize],
        pair: &Card,
        up: &Card,
    ) -> (split: Result<bool, StrikerError>)
        requires
            self.wf(),
            seen_cards@.len() >= COUNTED_SLOTS,
        ensures
            split == self.spec_split(seen_cards@, *pair, *up),
    {
        self.decide(&self.pair_split, pair.rank.key(), up, seen_cards, false)
    }

    /// Whether to stand on a hand of `total` against `up`.
    pub fn get_stand(
        &self,
        seen_cards: &[usize],
        total: usize,
        soft: bool,
        up: &Card,
    ) -> (stand: Result<bool, StrikerError>)
        requires
            self.wf(),
            seen_cards@.len() >= COUNTED_SLOTS,
        ensures
            stand == self.spec_stand(seen_cards@, total, soft, *up),
    {
        let key = to_decimal(total as u64);
        if soft {
            self.decide(&self.soft_stand, key.as_str(), up, seen_cards, true)
        } else {
            self.decide(&self.hard_stand, key.as_str(), up, seen_cards, true)
        }
    }

    /// What a decision code decides at a true count, whatever its case.
    pub fn process_value(&self, value: &str, true_count: isize, default: bool) -> (decision: bool)
        ensures
            decision == resolve(lowercase(value@), true_count as int, default),
    {
        let lower = to_lowercase(value);
        resolve_code(lower.as_str(), true_count, default)
    }

    fn decide(
        &self,
        chart: &Chart,
        key: &str,
        up: &Card,
        seen_cards: &[usize],
        default: bool,
    ) -> (decision: Result<bool, StrikerError>)
        requires
            self.wf(),
            chart.wf(),
            seen_cards@.len() >= COUNTED_SLOTS,
        ensures
            decision == self.spec_decide(*chart, key@, *up, seen_cards@, default),
    {
        match chart.get_value_by_key(key, up.rank.value()) {
            Err(e) => Err(e),
            Ok(value) => match self.get_running_count(seen_cards) {
                Err(e) => Err(e),
                Ok(running) => Ok(
                    self.process_value(value, self.get_true_count(seen_cards, running), default),
                ),
            },
        }
    }
}

} // verus!
