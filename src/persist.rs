use vstd::prelude::*;
use crate::bytes::{get_u64_be, lemma_u64_round_trip, push_u64_be, read_u64_be, u64_be};
use crate::country::CountryCode;
use crate::store::{rows_wf, CountRow, CounterTable, StoreError};

verus! {

/// Bytes taken by one stored row: two letters and a big-endian count.
pub const ROW_BYTES: usize = 10;

/// The stored form of one row.
pub open spec fn row_bytes(r: CountRow) -> Seq<u8> {
    seq![r.country.first, r.country.second] + u64_be(r.count)
}

/// The stored form of a table: its rows' stored forms, one after another.
pub open spec fn encode_rows(rows: Seq<CountRow>) -> Seq<u8>
    decreases rows.len(),
{
    if rows.len() == 0 {
        Seq::empty()
    } else {
        encode_rows(rows.drop_last()) + row_bytes(rows.last())
    }
}

/// The row stored at offset `o`.
pub open spec fn row_at(b: Seq<u8>, o: int) -> CountRow {
    CountRow {
        country: CountryCode { first: b[o], second: b[o + 1] },
        count: read_u64_be(b, o + 2),
    }
}

/// The rows that stored bytes hold, where they are whole rows forming a
/// well-formed table.
pub open spec fn decode_spec(b: Seq<u8>) -> Option<Seq<CountRow>> {
    if b.len() % 10 == 0 {
        let rows = Seq::new(b.len() / 10, |i: int| row_at(b, 10 * i));
        if rows_wf(rows) {
            Some(rows)
        } else {
            None
        }
    } else {
        None
    }
}

proof fn lemma_encode_layout(rows: Seq<CountRow>)
    ensures
        encode_rows(rows).len() == 10 * rows.len(),
        forall|i: int, k: int|
            0 <= i < rows.len() && 0 <= k < 10 ==> encode_rows(rows)[10 * i + k] == #[trigger] row_bytes(
                rows[i],
            )[k],
    decreases rows.len(),
{
    if rows.len() > 0 {
        let init = rows.drop_last();
        lemma_encode_layout(init);
        let n = rows.len() - 1;
        assert forall|i: int, k: int|
            0 <= i < rows.len() && 0 <= k < 10 implies encode_rows(rows)[10 * i + k]
            == #[trigger] row_bytes(rows[i])[k] by {
            if i < n {
                assert(rows[i] == init[i]);
                assert(10 * i + k < 10 * n) by (nonlinear_arith)
                    requires
                        i < n,
                        0 <= k < 10,
                ;
            } else {
                assert(10 * i + k - 10 * n == k);
            }
        }
    }
}

/// Stored bytes read back give the table that was stored: a table written
/// out and opened again holds every count it had.
pub proof fn lemma_reopen_restores(rows: Seq<CountRow>)
    requires
        rows_wf(rows),
    ensures
        decode_spec(encode_rows(rows)) == Some(rows),
{
    let b = encode_rows(rows);
    lemma_encode_layout(rows);
    assert(b.len() / 10 == rows.len()) by (nonlinear_arith)
        requires
            b.len() == 10 * rows.len(),
    ;
    assert(b.len() % 10 == 0) by (nonlinear_arith)
        requires
            b.len() == 10 * rows.len(),
    ;
    let back = Seq::new(b.len() / 10, |i: int| row_at(b, 10 * i));
    assert forall|i: int| 0 <= i < rows.len() implies back[i] == rows[i] by {
        let x = rows[i].count;
        assert(row_bytes(rows[i])[0] == rows[i].country.first);
        assert(row_bytes(rows[i])[1] == rows[i].country.second);
        assert(row_bytes(rows[i])[2] == (x >> 56u64) as u8);
        assert(row_bytes(rows[i])[3] == (x >> 48u64) as u8);
        assert(row_bytes(rows[i])[4] == (x >> 40u64) as u8);
        assert(row_bytes(rows[i])[5] == (x >> 32u64) as u8);
        assert(row_bytes(rows[i])[6] == (x >> 24u64) as u8);
        assert(row_bytes(rows[i])[7] == (x >> 16u64) as u8);
        assert(row_bytes(rows[i])[8] == (x >> 8u64) as u8);
        assert(row_bytes(rows[i])[9] == x as u8);
        lemma_u64_round_trip(x);
    }
    assert(back =~= rows);
}

/// The stored form of the table.
pub fn encode(t: &CounterTable) -> (r: Vec<u8>)
    ensures
        r@ == encode_rows(t@),
{
    let rows = t.snapshot();
    let mut out: Vec<u8> = Vec::new();
    let mut i: usize = 0;
    while i < rows.len()
        invariant
            i <= rows.len(),
            rows@ == t@,
            out@ == encode_rows(rows@.subrange(0, i as int)),
        decreases rows.len() - i,
    {
        let r = rows[i];
        proof {
            assert(rows@.subrange(0, i + 1).drop_last() =~= rows@.subrange(0, i as int));
        }
        out.push(r.country.first);
        out.push(r.country.second);
        push_u64_be(&mut out, r.count);
        proof {
            assert(out@ =~= encode_rows(rows@.subrange(0, i + 1)));
        }
        i = i + 1;
    }
    assert(rows@.subrange(0, i as int) =~= rows@);
    out
}

/// Opens a table from its stored form; `Corrupt` unless the bytes are whole
/// rows of valid, distinct countries.
pub fn decode(b: &[u8]) -> (r: Result<CounterTable, StoreError>)
    ensures
        r is Ok <==> decode_spec(b@) is Some,
        r matches Ok(t) ==> decode_spec(b@) == Some(t@) && t.wf(),
        r matches Err(e) ==> e == StoreError::Corrupt,
{
    if b.len() % ROW_BYTES != 0 {
        return Err(StoreError::Corrupt);
    }
    let n = b.len() / ROW_BYTES;
    let ghost want = Seq::new(b@.len() / 10, |i: int| row_at(b@, 10 * i));
    let mut rows: Vec<CountRow> = Vec::new();
    let mut i: usize = 0;
    while i < n
        invariant
            n == b@.len() / 10,
            b@.len() % 10 == 0,
            b@.len() <= usize::MAX,
            i <= n,
            want == Seq::new(b@.len() / 10, |i: int| row_at(b@, 10 * i)),
            rows@ == want.subrange(0, i as int),
        decreases n - i,
    {
        assert(10 * i + 10 <= b@.len()) by (nonlinear_arith)
            requires
                i < n,
                n == b@.len() / 10,
                b@.len() % 10 == 0,
        ;
        let o: usize = 10 * i;
        let row = CountRow {
            country: CountryCode { first: b[o], second: b[o + 1] },
            count: get_u64_be(b, o + 2),
        };
        rows.push(row);
        proof {
            assert(rows@ =~= want.subrange(0, i + 1));
        }
        i = i + 1;
    }
    assert(rows@ =~= want);
    CounterTable::from_rows(rows)
}

} // verus!
