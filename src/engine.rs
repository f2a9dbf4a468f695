use vstd::prelude::*;
use crate::addr::IpAddress;
use crate::country::CountryCode;
use crate::index::{find_country, lemma_find_country_at, GeoRange, RangeIndex};
use crate::store::{increment_spec, CountRow, CounterTable};

verus! {

/// A country that a well-formed list of ranges reports is a valid code.
proof fn lemma_found_country_wf(s: Seq<GeoRange>, max: u128, v: int)
    requires
        crate::index::ranges_wf(s, max),
    ensures
        find_country(s, v) matches Some(c) ==> c.wf(),
{
    if exists|i: int| 0 <= i < s.len() && (#[trigger] s[i]).covers(v) {
        let i = choose|i: int| 0 <= i < s.len() && (#[trigger] s[i]).covers(v);
        assert(s[i].valid(max));
    }
}

/// The rows after recording the outcome of one lookup: the found country is
/// counted once more, and a miss changes nothing.
pub open spec fn record_spec(rows: Seq<CountRow>, found: Option<CountryCode>) -> Seq<CountRow> {
    match found {
        Some(c) => increment_spec(rows, c),
        None => rows,
    }
}

/// Resolves addresses to countries and counts the requests from each
/// country. The index is fixed; only the counts change.
pub struct Engine {
    index: RangeIndex,
    table: CounterTable,
}

impl Engine {
    pub closed spec fn index(&self) -> RangeIndex {
        self.index
    }

    pub closed spec fn rows(&self) -> Seq<CountRow> {
        self.table@
    }

    pub open spec fn wf(&self) -> bool {
        self.index().wf() && crate::store::rows_wf(self.rows())
    }

    pub fn new(index: RangeIndex, table: CounterTable) -> (r: Engine)
        requires
            index.wf(),
            table.wf(),
        ensures
            r.index() == index,
            r.rows() == table@,
            r.wf(),
    {
        Engine { index, table }
    }

    /// The country of `ip`, without counting it.
    pub fn resolve(&self, ip: IpAddress) -> (r: Option<CountryCode>)
        requires
            self.wf(),
            ip.wf(),
        ensures
            r == self.index().lookup_spec(ip),
            r matches Some(c) ==> c.wf(),
    {
        proof {
            let n = ip.normal_spec();
            lemma_found_country_wf(
                self.index.family_ranges(n.family),
                RangeIndex::family_max(n.family),
                n.value as int,
            );
        }
        self.index.lookup(ip)
    }

    /// Resolves `ip` and, where a country is found, counts one request from
    /// it. A count that cannot grow is left as it is: the country is
    /// returned all the same.
    pub fn resolve_and_record(&mut self, ip: IpAddress) -> (r: Option<CountryCode>)
        requires
            old(self).wf(),
            ip.wf(),
        ensures
            r == old(self).index().lookup_spec(ip),
            r is Some <==> old(self).index().covered(ip),
            final(self).index() == old(self).index(),
            final(self).rows() == record_spec(old(self).rows(), r),
            final(self).wf(),
    {
        let found = self.resolve(ip);
        if let Some(c) = found {
            let _ = self.table.increment(c);
        }
        found
    }

    /// Every count row at this moment.
    pub fn snapshot_report(&self) -> (r: Vec<CountRow>)
        ensures
            r@ == self.rows(),
    {
        self.table.snapshot()
    }

    /// The counter table, for persisting it.
    pub fn table(&self) -> (r: &CounterTable)
        ensures
            r@ == self.rows(),
    {
        &self.table
    }
}

/// Every address of one range resolves to that range's country, at either
/// end and anywhere between.
pub proof fn lemma_span_resolves(idx: RangeIndex, i: int, ip1: IpAddress, ip2: IpAddress)
    requires
        idx.wf(),
        ip1.wf(),
        ip2.wf(),
        ip1.normal_spec().family == ip2.normal_spec().family,
        ip1.normal_spec().value <= ip2.normal_spec().value,
        0 <= i < idx.family_ranges(ip1.normal_spec().family).len(),
        idx.family_ranges(ip1.normal_spec().family)[i].start <= ip1.normal_spec().value,
        ip2.normal_spec().value <= idx.family_ranges(ip1.normal_spec().family)[i].end,
    ensures
        idx.lookup_spec(ip1) == Some(idx.family_ranges(ip1.normal_spec().family)[i].country),
        idx.lookup_spec(ip2) == Some(idx.family_ranges(ip1.normal_spec().family)[i].country),
{
    let f = ip1.normal_spec().family;
    let s = idx.family_ranges(f);
    let max = RangeIndex::family_max(f);
    lemma_find_country_at(s, max, i, ip1.normal_spec().value as int);
    lemma_find_country_at(s, max, i, ip2.normal_spec().value as int);
}

/// An address that no range covers resolves to nothing, and recording it
/// leaves every count as it was.
pub proof fn lemma_miss_counts_nothing(e: Engine, ip: IpAddress)
    requires
        e.wf(),
        ip.wf(),
        !e.index().covered(ip),
    ensures
        e.index().lookup_spec(ip) is None,
        record_spec(e.rows(), e.index().lookup_spec(ip)) == e.rows(),
{
}

} // verus!
