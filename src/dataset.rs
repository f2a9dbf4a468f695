use vstd::prelude::*;
use crate::addr::{IpAddress, V4_MAX};
use crate::bytes::{get_u64_be, read_u64_be};
use crate::country::CountryCode;
use crate::index::{ranges_wf, DatasetError, GeoRange, RangeIndex};

verus! {

/// Bytes taken by one range record: a family tag (4 or 6), the first and
/// the last address as 16 big-endian bytes each, and two country letters.
pub const RECORD_BYTES: usize = 35;

/// Family tag of an IPv4 record.
pub const TAG_V4: u8 = 4;

/// Family tag of an IPv6 record.
pub const TAG_V6: u8 = 6;

/// The integer that the sixteen bytes of `b` from `o` on spell, most
/// significant first.
pub open spec fn read_u128_be(b: Seq<u8>, o: int) -> u128 {
    ((read_u64_be(b, o) as u128) << 64u128) | (read_u64_be(b, o + 8) as u128)
}

/// The record at offset `o`: its family tag and its range.
pub open spec fn record_at(b: Seq<u8>, o: int) -> (u8, GeoRange) {
    (
        b[o],
        GeoRange {
            start: read_u128_be(b, o + 1),
            end: read_u128_be(b, o + 17),
            country: CountryCode { first: b[o + 33], second: b[o + 34] },
        },
    )
}

/// The records of a dataset whose length is a whole number of records.
pub open spec fn records(b: Seq<u8>) -> Seq<(u8, GeoRange)> {
    Seq::new(b.len() / 35, |i: int| record_at(b, 35 * i))
}

/// The ranges of the records with family tag `tag`, in dataset order.
pub open spec fn of_family(recs: Seq<(u8, GeoRange)>, tag: u8) -> Seq<GeoRange>
    decreases recs.len(),
{
    if recs.len() == 0 {
        Seq::empty()
    } else if recs.last().0 == tag {
        of_family(recs.drop_last(), tag).push(recs.last().1)
    } else {
        of_family(recs.drop_last(), tag)
    }
}

/// What a dataset holds: its IPv4 and IPv6 ranges, or why it is refused.
pub open spec fn dataset_spec(b: Seq<u8>) -> Result<(Seq<GeoRange>, Seq<GeoRange>), DatasetError> {
    let recs = records(b);
    if b.len() % 35 != 0 || exists|i: int|
        0 <= i < recs.len() && (#[trigger] recs[i]).0 != 4 && recs[i].0 != 6 {
        Err(DatasetError::Malformed)
    } else if ranges_wf(of_family(recs, 4), V4_MAX) && ranges_wf(of_family(recs, 6), u128::MAX) {
        Ok((of_family(recs, 4), of_family(recs, 6)))
    } else {
        Err(DatasetError::InvalidRanges)
    }
}

/// Reads sixteen bytes from `o` on, most significant first.
fn get_u128_be(b: &[u8], o: usize) -> (r: u128)
    requires
        o + 16 <= b@.len(),
    ensures
        r == read_u128_be(b@, o as int),
{
    assert(b@.len() == b.len());
    ((get_u64_be(b, o) as u128) << 64u128) | (get_u64_be(b, o + 8) as u128)
}

/// Loads a range index from a dataset: `Malformed` where the bytes are not
/// whole records of a known family, `InvalidRanges` where a family's
/// ranges are not valid, sorted and disjoint.
pub fn load(b: &[u8]) -> (r: Result<RangeIndex, DatasetError>)
    ensures
        match r {
            Ok(idx) => dataset_spec(b@) == Ok::<_, DatasetError>(idx@) && idx.wf(),
            Err(e) => dataset_spec(b@) == Err::<(Seq<GeoRange>, Seq<GeoRange>), _>(e),
        },
{
    if b.len() % RECORD_BYTES != 0 {
        return Err(DatasetError::Malformed);
    }
    let n = b.len() / RECORD_BYTES;
    let ghost recs = records(b@);
    let mut v4: Vec<GeoRange> = Vec::new();
    let mut v6: Vec<GeoRange> = Vec::new();
    let mut i: usize = 0;
    while i < n
        invariant
            n == b@.len() / 35,
            b@.len() % 35 == 0,
            b@.len() <= usize::MAX,
            i <= n,
            recs == records(b@),
            forall|k: int| 0 <= k < i ==> (#[trigger] recs[k]).0 == 4 || recs[k].0 == 6,
            v4@ == of_family(recs.subrange(0, i as int), 4),
            v6@ == of_family(recs.subrange(0, i as int), 6),
        decreases n - i,
    {
        assert(35 * i + 35 <= b@.len()) by (nonlinear_arith)
            requires
                i < n,
                n == b@.len() / 35,
                b@.len() % 35 == 0,
        ;
        let o: usize = 35 * i;
        let g = GeoRange {
            start: get_u128_be(b, o + 1),
            end: get_u128_be(b, o + 17),
            country: CountryCode { first: b[o + 33], second: b[o + 34] },
        };
        let tag = b[o];
        proof {
            assert(recs[i as int] == (tag, g));
            assert(recs.subrange(0, i + 1).drop_last() =~= recs.subrange(0, i as int));
        }
        if tag == TAG_V4 {
            v4.push(g);
        } else if tag == TAG_V6 {
            v6.push(g);
        } else {
            return Err(DatasetError::Malformed);
        }
        i = i + 1;
    }
    assert(recs.subrange(0, i as int) =~= recs);
    RangeIndex::new(v4, v6)
}

/// Loading the same dataset twice gives indexes that answer every lookup
/// alike.
pub proof fn lemma_reload_same(b: Seq<u8>, first: RangeIndex, second: RangeIndex, ip: IpAddress)
    requires
        dataset_spec(b) == Ok::<_, DatasetError>(first@),
        dataset_spec(b) == Ok::<_, DatasetError>(second@),
    ensures
        first.lookup_spec(ip) == second.lookup_spec(ip),
{
}

} // verus!
