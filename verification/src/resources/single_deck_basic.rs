//! Basic strategy for a single deck.

use crate::strategy::strategy::{StrategyDefinition, TableRow};
use vstd::prelude::*;
use vstd::string::{StrSliceExecFns, StringExecFns};

verus! {

/// The codes of a row written as one word, one letter for each up-card,
/// taken apart.
pub open spec fn letters(codes: Seq<char>) -> Seq<Seq<char>> {
    Seq::new(codes.len(), |i: int| seq![codes[i]])
}

/// The texts of the codes of a row.
pub open spec fn row_codes(row: TableRow) -> Seq<Seq<char>> {
    Seq::new(row.values@.len(), |i: int| row.values@[i]@)
}

/// A row with the codes that `codes` spells, one letter for each up-card
/// from the two to the ace.
pub fn row(key: &str, codes: &str) -> (row: TableRow)
    ensures
        row.key@ == key@,
        row_codes(row) == letters(codes@),
{
    let n: usize = codes.unicode_len();
    let mut values: Vec<String> = Vec::new();
    let mut i: usize = 0;
    while i < n
        invariant
            i <= n,
            n == codes@.len(),
            values@.len() == i,
            forall|j: int| 0 <= j < i ==> (#[trigger] values@[j])@ == seq![codes@[j]],
        decreases n - i,
    {
        let code = String::from_str(codes.substring_char(i, i + 1));
        assert(code@ =~= seq![codes@[i as int]]);
        values.push(code);
        i = i + 1;
    }
    let row = TableRow { key: String::from_str(key), values };
    assert(row_codes(row) =~= letters(codes@));
    row
}

/// When to double down on a soft total.
fn soft_double() -> (table: Vec<TableRow>)
    ensures
        table@.len() == 10,
{
    let mut table: Vec<TableRow> = Vec::new();
    table.push(row("12", "NNNNNNNNNN"));
    table.push(row("13", "NNYYYNNNNN"));
    table.push(row("14", "NNYYYNNNNN"));
    table.push(row("15", "NNYYYNNNNN"));
    table.push(row("16", "NNYYYNNNNN"));
    table.push(row("17", "YYYYYNNNNN"));
    table.push(row("18", "NYYYYNNNNN"));
    table.push(row("19", "NNNNYNNNNN"));
    table.push(row("20", "NNNNNNNNNN"));
    table.push(row("21", "NNNNNNNNNN"));
    table
}

/// When to double down on a hard total.
fn hard_double() -> (table: Vec<TableRow>)
    ensures
        table@.len() == 18,
{
    let mut table: Vec<TableRow> = Vec::new();
    table.push(row("4", "NNNNNNNNNN"));
    table.push(row("5", "NNNNNNNNNN"));
    table.push(row("6", "NNNNNNNNNN"));
    table.push(row("7", "NNNNNNNNNN"));
    table.push(row("8", "NNNYYNNNNN"));
    table.push(row("9", "YYYYYNNNNN"));
    table.push(row("10", "YYYYYYYYNN"));
    table.push(row("11", "YYYYYYYYYY"));
    table.push(row("12", "NNNNNNNNNN"));
    table.push(row("13", "NNNNNNNNNN"));
    table.push(row("14", "NNNNNNNNNN"));
    table.push(row("15", "NNNNNNNNNN"));
    table.push(row("16", "NNNNNNNNNN"));
    table.push(row("17", "NNNNNNNNNN"));
    table.push(row("18", "NNNNNNNNNN"));
    table.push(row("19", "NNNNNNNNNN"));
    table.push(row("20", "NNNNNNNNNN"));
    table.push(row("21", "NNNNNNNNNN"));
    table
}

/// When to split a pair.
fn pair_split() -> (table: Vec<TableRow>)
    ensures
        table@.len() == 10,
{
    let mut table: Vec<TableRow> = Vec::new();
    table.push(row("2", "NYYYYYNNNN"));
    table.push(row("3", "NNYYYYNNNN"));
    table.push(row("4", "NNNNNNNNNN"));
    table.push(row("5", "NNNNNNNNNN"));
    table.push(row("6", "YYYYYNNNNN"));
    table.push(row("7", "YYYYYYNNNN"));
    table.push(row("8", "YYYYYYYYYY"));
    table.push(row("9", "YYYYYNYYNN"));
    table.push(row("X", "NNNNNNNNNN"));
    table.push(row("A", "YYYYYYYYYY"));
    table
}

/// When to stand on a soft total.
fn soft_stand() -> (table: Vec<TableRow>)
    ensures
        table@.len() == 10,
{
    let mut table: Vec<TableRow> = Vec::new();
    table.push(row("12", "NNNNNNNNNN"));
    table.push(row("13", "NNNNNNNNNN"));
    table.push(row("14", "NNNNNNNNNN"));
    table.push(row("15", "NNNNNNNNNN"));
    table.push(row("16", "NNNNNNNNNN"));
    table.push(row("17", "NNNNNNNNNN"));
    table.push(row("18", "YYYYYYYNNN"));
    table.push(row("19", "YYYYYYYYYY"));
    table.push(row("20", "YYYYYYYYYY"));
    table.push(row("21", "YYYYYYYYYY"));
    table
}

/// When to stand on a hard total.
fn hard_stand() -> (table: Vec<TableRow>)
    ensures
        table@.len() == 18,
{
    let mut table: Vec<TableRow> = Vec::new();
    table.push(row("4", "NNNNNNNNNN"));
    table.push(row("5", "NNNNNNNNNN"));
    table.push(row("6", "NNNNNNNNNN"));
    table.push(row("7", "NNNNNNNNNN"));
    table.push(row("8", "NNNNNNNNNN"));
    table.push(row("9", "NNNNNNNNNN"));
    table.push(row("10", "NNNNNNNNNN"));
    table.push(row("11", "NNNNNNNNNN"));
    table.push(row("12", "NNYYYNNNNN"));
    table.push(row("13", "YYYYYNNNNN"));
    table.push(row("14", "YYYYYNNNNN"));
    table.push(row("15", "YYYYYNNNNN"));
    table.push(row("16", "YYYYYNNNNN"));
    table.push(row("17", "YYYYYYYYYY"));
    table.push(row("18", "YYYYYYYYYY"));
    table.push(row("19", "YYYYYYYYYY"));
    table.push(row("20", "YYYYYYYYYY"));
    table.push(row("21", "YYYYYYYYYY"));
    table
}

/// Basic strategy for a single deck, without counting: every weight is
/// zero and insurance is never taken.
pub fn single_deck_basic() -> (definition: StrategyDefinition)
    ensures
        definition.playbook@ == "single-deck-basic"@,
        definition.insurance@ == "N"@,
        definition.counts@ == Seq::new(10, |i: int| 0isize),
        definition.soft_double@.len() == 10,
        definition.hard_double@.len() == 18,
        definition.pair_split@.len() == 10,
        definition.soft_stand@.len() == 10,
        definition.hard_stand@.len() == 18,
{
    let mut counts: Vec<isize> = Vec::new();
    let mut i: usize = 0;
    while i < 10
        invariant
            i <= 10,
            counts@ == Seq::new(i as nat, |j: int| 0isize),
        decreases 10 - i,
    {
        counts.push(0);
        assert(counts@ =~= Seq::new((i + 1) as nat, |j: int| 0isize));
        i = i + 1;
    }
    StrategyDefinition {
        playbook: String::from_str("single-deck-basic"),
        counts,
        insurance: String::from_str("N"),
        soft_double: soft_double(),
        hard_double: hard_double(),
        pair_split: pair_split(),
        soft_stand: soft_stand(),
        hard_stand: hard_stand(),
    }
}

} // verus!
