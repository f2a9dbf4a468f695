use vstd::prelude::*;
use crate::country::CountryCode;

verus! {

/// One counter row: a country and the number of requests seen from it.
#[derive(Clone, Copy, Debug, PartialEq, Eq, Structural)]
pub struct CountRow {
    pub country: CountryCode,
    pub count: u64,
}

/// Why the counter table could not be changed or restored.
#[derive(Clone, Copy, Debug, PartialEq, Eq, Structural)]
pub enum StoreError {
    /// The country's count is already the largest a `u64` holds.
    CountOverflow,
    /// Stored bytes do not form a valid table.
    Corrupt,
}

/// Each row names a valid country, and no country has two rows.
pub open spec fn rows_wf(rows: Seq<CountRow>) -> bool {
    &&& forall|i: int| 0 <= i < rows.len() ==> (#[trigger] rows[i]).country.wf()
    &&& forall|i: int, j: int|
        0 <= i < rows.len() && 0 <= j < rows.len() && i != j ==> (#[trigger] rows[i]).country
            != (#[trigger] rows[j]).country
}

pub open spec fn has_row(rows: Seq<CountRow>, c: CountryCode) -> bool {
    exists|i: int| 0 <= i < rows.len() && (#[trigger] rows[i]).country == c
}

/// The position of the row of `c`, where `has_row(rows, c)`.
pub open spec fn row_pos(rows: Seq<CountRow>, c: CountryCode) -> int {
    choose|i: int| 0 <= i < rows.len() && (#[trigger] rows[i]).country == c
}

/// The count recorded for `c`; a country without a row has count 0.
pub open spec fn count_of(rows: Seq<CountRow>, c: CountryCode) -> nat {
    if has_row(rows, c) {
        rows[row_pos(rows, c)].count as nat
    } else {
        0
    }
}

/// The rows after one increment of `c`: its row gains one, or a row with
/// count 1 is appended. A count at `u64::MAX` is left as it is.
pub open spec fn increment_spec(rows: Seq<CountRow>, c: CountryCode) -> Seq<CountRow> {
    if has_row(rows, c) {
        let i = row_pos(rows, c);
        if rows[i].count == u64::MAX {
            rows
        } else {
            rows.update(i, CountRow { country: c, count: (rows[i].count + 1) as u64 })
        }
    } else {
        rows.push(CountRow { country: c, count: 1 })
    }
}

/// Whether incrementing `c` would overflow its count.
pub open spec fn saturated(rows: Seq<CountRow>, c: CountryCode) -> bool {
    has_row(rows, c) && rows[row_pos(rows, c)].count == u64::MAX
}

/// The rows after incrementing each country of `codes` in turn.
pub open spec fn apply_increments(rows: Seq<CountRow>, codes: Seq<CountryCode>) -> Seq<CountRow>
    decreases codes.len(),
{
    if codes.len() == 0 {
        rows
    } else {
        increment_spec(apply_increments(rows, codes.drop_last()), codes.last())
    }
}

/// How many times `c` occurs in `codes`.
pub open spec fn occurrences(codes: Seq<CountryCode>, c: CountryCode) -> nat
    decreases codes.len(),
{
    if codes.len() == 0 {
        0
    } else {
        occurrences(codes.drop_last(), c) + if codes.last() == c {
            1nat
        } else {
            0nat
        }
    }
}

/// The row found for a country is the only one it has.
pub proof fn lemma_row_pos(rows: Seq<CountRow>, c: CountryCode, i: int)
    requires
        rows_wf(rows),
        0 <= i < rows.len(),
        rows[i].country == c,
    ensures
        has_row(rows, c),
        row_pos(rows, c) == i,
{
    assert(has_row(rows, c));
    let k = row_pos(rows, c);
    if k != i {
        assert(rows[k].country != rows[i].country);
    }
}

/// One increment keeps the table well formed, adds one to the count of
/// its country unless that count is saturated, and leaves every other
/// country's count as it was.
pub proof fn lemma_increment_counts(rows: Seq<CountRow>, c: CountryCode, d: CountryCode)
    requires
        rows_wf(rows),
        c.wf(),
    ensures
        rows_wf(increment_spec(rows, c)),
        count_of(increment_spec(rows, c), d) == if d == c && !saturated(rows, c) {
            count_of(rows, d) + 1
        } else {
            count_of(rows, d)
        },
{
    let r2 = increment_spec(rows, c);
    if has_row(rows, c) {
        let i = row_pos(rows, c);
        if rows[i].count != u64::MAX {
            assert(r2[i].country == c);
            lemma_row_pos(r2, c, i);
            if d != c && has_row(rows, d) {
                let j = row_pos(rows, d);
                lemma_row_pos(r2, d, j);
            } else if d != c {
                if has_row(r2, d) {
                    let j = row_pos(r2, d);
                    assert(rows[j].country == d);
                }
            }
        }
    } else {
        let n = rows.len() as int;
        assert(r2[n].country == c);
        lemma_row_pos(r2, c, n);
        if d != c && has_row(rows, d) {
            let j = row_pos(rows, d);
            lemma_row_pos(r2, d, j);
        } else if d != c {
            if has_row(r2, d) {
                let j = row_pos(r2, d);
                assert(rows[j].country == d);
            }
        }
    }
}

/// Increments are never lost: after a run of increments, a country's count
/// has grown by exactly the number of increments that named it, provided
/// its count had room for all of them.
pub proof fn lemma_increments_accumulate(
    rows: Seq<CountRow>,
    codes: Seq<CountryCode>,
    c: CountryCode,
)
    requires
        rows_wf(rows),
        forall|i: int| 0 <= i < codes.len() ==> (#[trigger] codes[i]).wf(),
        count_of(rows, c) + codes.len() <= u64::MAX,
    ensures
        rows_wf(apply_increments(rows, codes)),
        count_of(apply_increments(rows, codes), c) == count_of(rows, c) + occurrences(codes, c),
        occurrences(codes, c) <= codes.len(),
    decreases codes.len(),
{
    if codes.len() > 0 {
        let init = codes.drop_last();
        assert forall|i: int| 0 <= i < init.len() implies (#[trigger] init[i]).wf() by {
            assert(init[i] == codes[i]);
        }
        lemma_increments_accumulate(rows, init, c);
        let mid = apply_increments(rows, init);
        let d = codes.last();
        assert(d == codes[codes.len() - 1]);
        lemma_increment_counts(mid, d, c);
        if d == c {
            assert(saturated(mid, c) ==> count_of(mid, c) == u64::MAX);
        }
    }
}

/// A table of request counts keyed by country, in the order in which each
/// country was first counted.
pub struct CounterTable {
    rows: Vec<CountRow>,
}

impl CounterTable {
    pub closed spec fn view(&self) -> Seq<CountRow> {
        self.rows@
    }

    pub open spec fn wf(&self) -> bool {
        rows_wf(self@)
    }

    /// An empty table.
    pub fn new() -> (r: CounterTable)
        ensures
            r@ == Seq::<CountRow>::empty(),
            r.wf(),
    {
        CounterTable { rows: Vec::new() }
    }

    /// A table holding the given rows; `Corrupt` where a row names an
    /// invalid country or two rows name the same one.
    pub fn from_rows(rows: Vec<CountRow>) -> (r: Result<CounterTable, StoreError>)
        ensures
            r is Ok <==> rows_wf(rows@),
            r matches Ok(t) ==> t@ == rows@,
            r matches Err(e) ==> e == StoreError::Corrupt,
    {
        let mut i: usize = 0;
        while i < rows.len()
            invariant
                i <= rows.len(),
                forall|k: int| 0 <= k < i ==> (#[trigger] rows@[k]).country.wf(),
                forall|k: int, l: int|
                    0 <= k < i && 0 <= l < i && k != l ==> (#[trigger] rows@[k]).country
                        != (#[trigger] rows@[l]).country,
            decreases rows.len() - i,
        {
            let c = rows[i].country;
            if !(65 <= c.first && c.first <= 90 && 65 <= c.second && c.second <= 90) {
                assert(!rows@[i as int].country.wf());
                return Err(StoreError::Corrupt);
            }
            let mut j: usize = 0;
            while j < i
                invariant
                    j <= i < rows.len(),
                    c == rows@[i as int].country,
                    forall|l: int| 0 <= l < j ==> (#[trigger] rows@[l]).country != c,
                decreases i - j,
            {
                if rows[j].country == c {
                    assert(rows@[j as int].country == rows@[i as int].country);
                    return Err(StoreError::Corrupt);
                }
                j = j + 1;
            }
            i = i + 1;
        }
        Ok(CounterTable { rows })
    }

    /// The count of a country; 0 where it has none.
    pub fn count(&self, c: CountryCode) -> (r: u64)
        requires
            self.wf(),
        ensures
            r as nat == count_of(self@, c),
    {
        let mut i: usize = 0;
        while i < self.rows.len()
            invariant
                i <= self.rows.len(),
                rows_wf(self.rows@),
                forall|k: int| 0 <= k < i ==> (#[trigger] self.rows@[k]).country != c,
            decreases self.rows.len() - i,
        {
            if self.rows[i].country == c {
                proof {
                    lemma_row_pos(self.rows@, c, i as int);
                }
                return self.rows[i].count;
            }
            i = i + 1;
        }
        0
    }

    /// Adds one to the count of `c`, creating its row at count 1 where it has
    /// none. Fails with `CountOverflow`, changing nothing, where the count is
    /// already `u64::MAX`.
    pub fn increment(&mut self, c: CountryCode) -> (r: Result<(), StoreError>)
        requires
            old(self).wf(),
            c.wf(),
        ensures
            final(self)@ == increment_spec(old(self)@, c),
            final(self).wf(),
            r is Err <==> saturated(old(self)@, c),
            r matches Err(e) ==> e == StoreError::CountOverflow,
    {
        proof {
            lemma_increment_counts(self@, c, c);
        }
        let mut i: usize = 0;
        while i < self.rows.len()
            invariant
                i <= self.rows.len(),
                self.rows@ == old(self).rows@,
                rows_wf(self.rows@),
                forall|k: int| 0 <= k < i ==> (#[trigger] self.rows@[k]).country != c,
            decreases self.rows.len() - i,
        {
            if self.rows[i].country == c {
                proof {
                    lemma_row_pos(self.rows@, c, i as int);
                }
                let n = self.rows[i].count;
                if n == u64::MAX {
                    return Err(StoreError::CountOverflow);
                }
                self.rows.set(i, CountRow { country: c, count: n + 1 });
                return Ok(());
            }
            i = i + 1;
        }
        self.rows.push(CountRow { country: c, count: 1 });
        Ok(())
    }

    /// Increments each country of `codes` in turn; a saturated count stays
    /// as it is.
    pub fn increment_all(&mut self, codes: &Vec<CountryCode>)
        requires
            old(self).wf(),
            forall|i: int| 0 <= i < codes@.len() ==> (#[trigger] codes@[i]).wf(),
        ensures
            final(self)@ == apply_increments(old(self)@, codes@),
            final(self).wf(),
    {
        let mut i: usize = 0;
        while i < codes.len()
            invariant
                i <= codes.len(),
                forall|k: int| 0 <= k < codes@.len() ==> (#[trigger] codes@[k]).wf(),
                self.wf(),
                self@ == apply_increments(old(self)@, codes@.subrange(0, i as int)),
            decreases codes.len() - i,
        {
            let ghost prefix = codes@.subrange(0, i as int);
            let _ = self.increment(codes[i]);
            assert(codes@.subrange(0, i + 1).drop_last() =~= prefix);
            i = i + 1;
        }
        assert(codes@.subrange(0, i as int) =~= codes@);
    }

    /// Every row, in the table's order: a copy that later increments do not
    /// change.
    pub fn snapshot(&self) -> (r: Vec<CountRow>)
        ensures
            r@ == self@,
    {
        self.rows.clone()
    }
}

} // verus!
