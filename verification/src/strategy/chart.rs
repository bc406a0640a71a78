//! A decision chart: decision codes by row key and dealer's up-card.

use crate::errors::StrikerError;
use crate::utilities::utilities::{to_uppercase, uppercase};
use vstd::prelude::*;
use vstd::string::StringExecFns;

verus! {

/// The number of rows a chart can hold.
pub const TABLE_SIZE: usize = 21;

/// The number of columns of a row. A column is addressed by the value of
/// the dealer's up-card, 2 to 11; the columns 0 and 1 are never read.
pub const NUM_COLUMNS: usize = 12;

/// The key of a row that was never used.
pub open spec fn blank_key() -> Seq<char> {
    "--"@
}

/// The entry of a cell that was never filled.
pub open spec fn blank_entry() -> Seq<char> {
    "---"@
}

/// The entries of a row none of whose cells was filled.
pub open spec fn blank_values() -> Seq<Seq<char>> {
    Seq::new(NUM_COLUMNS as nat, |i: int| blank_entry())
}

/// One row of a chart: a key and one decision code per column.
#[derive(Debug, Clone)]
pub struct ChartRow {
    pub key: String,
    pub value: Vec<String>,
}

impl ChartRow {
    /// The row's entries as texts.
    pub open spec fn spec_values(&self) -> Seq<Seq<char>> {
        Seq::new(self.value@.len(), |i: int| self.value@[i]@)
    }

    pub open spec fn wf(&self) -> bool {
        self.value@.len() == NUM_COLUMNS
    }

    /// A row that was never used.
    pub fn new() -> (row: ChartRow)
        ensures
            row.wf(),
            row.key@ == blank_key(),
            row.spec_values() == blank_values(),
    {
        let mut value: Vec<String> = Vec::new();
        let mut i: usize = 0;
        while i < NUM_COLUMNS
            invariant
                i <= NUM_COLUMNS,
                value@.len() == i,
                forall|j: int| 0 <= j < i ==> (#[trigger] value@[j])@ == blank_entry(),
            decreases NUM_COLUMNS - i,
        {
            value.push(String::from_str("---"));
            i = i + 1;
        }
        let row = ChartRow { key: String::from_str("--"), value };
        assert(row.spec_values() =~= blank_values());
        row
    }
}

/// The index of the first of the first `used` rows whose key is `key`.
pub open spec fn find_row(rows: Seq<ChartRow>, used: int, key: Seq<char>) -> Option<int>
    decreases used,
{
    if used <= 0 {
        None
    } else {
        match find_row(rows, used - 1, key) {
            Some(i) => Some(i),
            None => if rows[used - 1].key@ == key {
                Some(used - 1)
            } else {
                None
            },
        }
    }
}

/// A row that `find_row` finds is one of the rows searched, carries the
/// key, and is the first to do so.
pub proof fn lemma_find_row_found(rows: Seq<ChartRow>, used: int, key: Seq<char>)
    ensures
        match find_row(rows, used, key) {
            Some(i) => 0 <= i < used && rows[i].key@ == key && forall|j: int|
                0 <= j < i ==> (#[trigger] rows[j]).key@ != key,
            None => forall|j: int| 0 <= j < used ==> (#[trigger] rows[j]).key@ != key,
        },
    decreases used,
{
    if used > 0 {
        lemma_find_row_found(rows, used - 1, key);
    }
}

/// What `find_row` finds depends on the keys of the rows searched alone.
pub proof fn lemma_find_row_same_keys(
    rows: Seq<ChartRow>,
    other: Seq<ChartRow>,
    used: int,
    key: Seq<char>,
)
    requires
        forall|j: int| 0 <= j < used ==> (#[trigger] rows[j]).key@ == (#[trigger] other[j]).key@,
    ensures
        find_row(rows, used, key) == find_row(other, used, key),
    decreases used,
{
    if used > 0 {
        lemma_find_row_same_keys(rows, other, used - 1, key);
    }
}

/// What a chart holds, as far as inserting and looking up go: the entries
/// of each row by its key, and the number of rows in use.
pub struct ChartState {
    pub table: Map<Seq<char>, Seq<Seq<char>>>,
    pub used: nat,
}

/// The entries that the row of `key` holds once `entry` is written into
/// column `up`: those it held, or blank ones for a new key, with that one
/// cell replaced.
pub open spec fn row_with(
    table: Map<Seq<char>, Seq<Seq<char>>>,
    key: Seq<char>,
    up: int,
    entry: Seq<char>,
) -> Seq<Seq<char>> {
    if table.dom().contains(key) {
        table[key].update(up, entry)
    } else {
        blank_values().update(up, entry)
    }
}

/// What writing `entry` into the cell of row `key` and column `up` makes
/// of a chart, key and entry taken as they are. The write is refused, and
/// the result is `None`, where the column does not exist or where the key
/// is new and no row is free.
pub open spec fn state_put(
    state: ChartState,
    key: Seq<char>,
    up: int,
    entry: Seq<char>,
) -> Option<ChartState> {
    if up < 0 || up >= NUM_COLUMNS {
        None
    } else if state.table.dom().contains(key) {
        Some(
            ChartState {
                table: state.table.insert(key, row_with(state.table, key, up, entry)),
                used: state.used,
            },
        )
    } else if state.used >= TABLE_SIZE {
        None
    } else {
        Some(
            ChartState {
                table: state.table.insert(key, row_with(state.table, key, up, entry)),
                used: state.used + 1,
            },
        )
    }
}

/// What an insert of `value` under `key` into column `up` makes of a
/// chart: key and value are written in upper case.
pub open spec fn state_insert(
    state: ChartState,
    key: Seq<char>,
    up: int,
    value: Seq<char>,
) -> Option<ChartState> {
    state_put(state, uppercase(key), up, uppercase(value))
}

/// A decision table: rows found by key, columns by the dealer's up-card.
#[derive(Debug, Clone)]
pub struct Chart {
    pub rows: Vec<ChartRow>,
    pub name: String,
    pub next_row: usize,
}

impl View for Chart {
    type V = Map<Seq<char>, Seq<Seq<char>>>;

    /// The table as a map from each key that was inserted to the entries
    /// of its row.
    open spec fn view(&self) -> Map<Seq<char>, Seq<Seq<char>>> {
        Map::new(
            |key: Seq<char>| find_row(self.rows@, self.next_row as int, key).is_some(),
            |key: Seq<char>|
                self.rows@[find_row(self.rows@, self.next_row as int, key).unwrap()].spec_values(),
        )
    }
}

impl Chart {
    /// The chart has all its rows, each with all its columns, and the rows
    /// that are not in use are blank.
    pub open spec fn wf(&self) -> bool {
        &&& self.rows@.len() == TABLE_SIZE
        &&& self.next_row <= TABLE_SIZE
        &&& forall|i: int| 0 <= i < self.rows@.len() ==> (#[trigger] self.rows@[i]).wf()
        &&& forall|i: int|
            self.next_row <= i < self.rows@.len() ==> (#[trigger] self.rows@[i]).spec_values()
                == blank_values()
    }

    pub open spec fn state(&self) -> ChartState {
        ChartState { table: self@, used: self.next_row as nat }
    }

    /// Whether the chart is well formed.
    pub fn is_wf(&self) -> (good: bool)
        ensures
            good == self.wf(),
    {
        if self.rows.len() != TABLE_SIZE || self.next_row > TABLE_SIZE {
            return false;
        }
        let mut i: usize = 0;
        while i < TABLE_SIZE
            invariant
                i <= TABLE_SIZE,
                self.rows@.len() == TABLE_SIZE,
                self.next_row <= TABLE_SIZE,
                forall|j: int| 0 <= j < i ==> (#[trigger] self.rows@[j]).wf(),
                forall|j: int|
                    self.next_row <= j < i ==> (#[trigger] self.rows@[j]).spec_values()
                        == blank_values(),
            decreases TABLE_SIZE - i,
        {
            let row = &self.rows[i];
            if row.value.len() != NUM_COLUMNS {
                return false;
            }
            if i >= self.next_row {
                let blank = String::from_str("---");
                let mut c: usize = 0;
                while c < NUM_COLUMNS
                    invariant
                        c <= NUM_COLUMNS,
                        row.value@.len() == NUM_COLUMNS,
                        blank@ == blank_entry(),
                        *row == self.rows@[i as int],
                        i < self.rows@.len(),
                        self.next_row <= i,
                        forall|k: int| 0 <= k < c ==> (#[trigger] row.value@[k])@ == blank_entry(),
                    decreases NUM_COLUMNS - c,
                {
                    if !(row.value[c] == blank) {
                        assert(row.spec_values()[c as int] != blank_values()[c as int]);
                        return false;
                    }
                    c = c + 1;
                }
                assert(row.spec_values() =~= blank_values());
            }
            i = i + 1;
        }
        true
    }

    /// An empty chart.
    pub fn new(name: &str) -> (chart: Chart)
        ensures
            chart.wf(),
            chart.name@ == name@,
            chart.next_row == 0,
            chart@ == Map::<Seq<char>, Seq<Seq<char>>>::empty(),
    {
        let mut rows: Vec<ChartRow> = Vec::new();
        let mut i: usize = 0;
        while i < TABLE_SIZE
            invariant
                i <= TABLE_SIZE,
                rows@.len() == i,
                forall|j: int| 0 <= j < i ==> (#[trigger] rows@[j]).wf(),
                forall|j: int| 0 <= j < i ==> (#[trigger] rows@[j]).spec_values() == blank_values(),
            decreases TABLE_SIZE - i,
        {
            rows.push(ChartRow::new());
            i = i + 1;
        }
        let chart = Chart { rows, name: String::from_str(name), next_row: 0 };
        assert(chart@ =~= Map::<Seq<char>, Seq<Seq<char>>>::empty());
        chart
    }

    /// Writes `value` into the cell of row `key` and column `up`, both
    /// texts in upper case. A key that is new takes the next free row.
    /// The last insert into a cell is the one that stays.
    pub fn insert(&mut self, key: &str, up: usize, value: &str) -> (done: Result<(), StrikerError>)
        requires
            old(self).wf(),
        ensures
            final(self).wf(),
            final(self).name == old(self).name,
            match state_insert(old(self).state(), key@, up as int, value@) {
                Some(state) => done.is_ok() && final(self).state() == state,
                None => done == Err::<(), StrikerError>(StrikerError::Configuration) && *final(self)
                    == *old(self),
            },
    {
        self.put(to_uppercase(key), up, to_uppercase(value))
    }

    /// Writes `entry` into the cell of row `key` and column `up`, key and
    /// entry as they are. A key that is new takes the next free row. The
    /// last write into a cell is the one that stays.
    pub fn put(&mut self, key: String, up: usize, entry: String) -> (done: Result<(), StrikerError>)
        requires
            old(self).wf(),
        ensures
            final(self).wf(),
            final(self).name == old(self).name,
            match state_put(old(self).state(), key@, up as int, entry@) {
                Some(state) => done.is_ok() && final(self).state() == state,
                None => done == Err::<(), StrikerError>(StrikerError::Configuration) && *final(self)
                    == *old(self),
            },
    {
        if up >= NUM_COLUMNS {
            return Err(StrikerError::Configuration);
        }
        let ghost k = key@;
        let ghost e = entry@;
        let found = self.get_row_index(&key);
        let index: usize = match found {
            Some(i) => i,
            None => {
                if self.next_row >= TABLE_SIZE {
                    return Err(StrikerError::Configuration);
                }
                let i: usize = self.next_row;
                self.next_row = self.next_row + 1;
                self.rows[i].key = key;
                i
            },
        };
        self.rows[index].value[up] = entry;
        proof {
            let before = *old(self);
            let after = *self;
            lemma_find_row_found(before.rows@, before.next_row as int, k);
            assert(after.rows@[index as int].spec_values() =~= row_with(before@, k, up as int, e));
            assert forall|other: Seq<char>|
                find_row(after.rows@, after.next_row as int, other) == if other == k {
                    Some(index as int)
                } else {
                    find_row(before.rows@, before.next_row as int, other)
                } by {
                lemma_find_row_same_keys(before.rows@, after.rows@, before.next_row as int, other);
                lemma_find_row_found(before.rows@, before.next_row as int, other);
            }
            assert forall|other: Seq<char>| other != k && before@.dom().contains(other) implies (
            #[trigger] after@[other]) == before@[other] by {
                lemma_find_row_found(before.rows@, before.next_row as int, other);
                let j = find_row(before.rows@, before.next_row as int, other).unwrap();
                assert(after.rows@[j].spec_values() =~= before.rows@[j].spec_values());
            }
            assert(after@ =~= before@.insert(k, row_with(before@, k, up as int, e)));
            assert forall|i: int| after.next_row <= i < after.rows@.len() implies (
            #[trigger] after.rows@[i]).spec_values() == blank_values() by {
                assert(after.rows@[i].spec_values() =~= before.rows@[i].spec_values());
            }
        }
        Ok(())
    }

    /// The entry of row `key`, compared in upper case, in column `up`.
    /// A key that was never inserted is an error: the chart has no default.
    pub fn get_value_by_key(&self, key: &str, up: usize) -> (entry: Result<&str, StrikerError>)
        requires
            self.wf(),
            up < NUM_COLUMNS,
        ensures
            entry.is_ok() == self@.dom().contains(uppercase(key@)),
            entry.is_ok() ==> entry.unwrap()@ == self@[uppercase(key@)][up as int],
            entry.is_err() ==> entry == Err::<&str, StrikerError>(StrikerError::Lookup),
    {
        let key_upper = to_uppercase(key);
        self.entry(&key_upper, up)
    }

    /// The entry of the row whose key is `key` as it is, in column `up`.
    /// A key that no row carries is an error: the chart has no default.
    pub fn entry(&self, key: &String, up: usize) -> (entry: Result<&str, StrikerError>)
        requires
            self.wf(),
            up < NUM_COLUMNS,
        ensures
            entry.is_ok() == self@.dom().contains(key@),
            entry.is_ok() ==> entry.unwrap()@ == self@[key@][up as int],
            entry.is_err() ==> entry == Err::<&str, StrikerError>(StrikerError::Lookup),
    {
        match self.get_row_index(key) {
            Some(i) => Ok(self.rows[i].value[up].as_str()),
            None => Err(StrikerError::Lookup),
        }
    }

    /// The index of the first row in use whose key is `key` as it is.
    fn get_row_index(&self, key: &String) -> (found: Option<usize>)
        requires
            self.wf(),
        ensures
            match found {
                Some(i) => find_row(self.rows@, self.next_row as int, key@) == Some(i as int) && i
                    < self.next_row,
                None => find_row(self.rows@, self.next_row as int, key@).is_none(),
            },
    {
        let mut i: usize = 0;
        while i < self.next_row
            invariant
                self.wf(),
                i <= self.next_row,
                find_row(self.rows@, i as int, key@).is_none(),
            decreases self.next_row - i,
        {
            if self.rows[i].key == *key {
                proof {
                    lemma_find_row_grows(self.rows@, i as int + 1, self.next_row as int, key@);
                }
                return Some(i);
            }
            i = i + 1;
        }
        None
    }
}

/// A row found among the first `used` rows is also the one found among
/// more of them.
pub proof fn lemma_find_row_grows(rows: Seq<ChartRow>, used: int, more: int, key: Seq<char>)
    requires
        used <= more,
        find_row(rows, used, key).is_some(),
    ensures
        find_row(rows, more, key) == find_row(rows, used, key),
    decreases more - used,
{
    if used < more {
        lemma_find_row_grows(rows, used, more - 1, key);
    }
}

} // verus!
