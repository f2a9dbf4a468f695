use vstd::prelude::*;
use crate::addr::{Family, IpAddress, V4_MAX};
use crate::country::CountryCode;

verus! {

/// A contiguous, inclusive span of addresses of one family, and the country
/// it belongs to.
#[derive(Clone, Copy, Debug, PartialEq, Eq, Structural)]
pub struct GeoRange {
    pub start: u128,
    pub end: u128,
    pub country: CountryCode,
}

/// Why a range dataset could not be loaded.
#[derive(Clone, Copy, Debug, PartialEq, Eq, Structural)]
pub enum DatasetError {
    /// The bytes do not form a sequence of whole, well-formed records.
    Malformed,
    /// A range is empty, leaves its family, or is not strictly after the one
    /// before it in the same family.
    InvalidRanges,
}

impl GeoRange {
    pub open spec fn covers(&self, v: int) -> bool {
        self.start <= v && v <= self.end
    }

    /// A range of a family whose largest value is `max`.
    pub open spec fn valid(&self, max: u128) -> bool {
        self.start <= self.end && self.end <= max && self.country.wf()
    }
}

/// Every range is valid, and each one lies strictly after its predecessor.
pub open spec fn ranges_wf(s: Seq<GeoRange>, max: u128) -> bool {
    &&& forall|i: int| 0 <= i < s.len() ==> (#[trigger] s[i]).valid(max)
    &&& forall|i: int| 0 < i < s.len() ==> s[i - 1].end < (#[trigger] s[i]).start
}

/// Ranges of a well-formed list are ordered pairwise, not only neighbours.
pub proof fn lemma_ranges_ordered(s: Seq<GeoRange>, max: u128, i: int, j: int)
    requires
        ranges_wf(s, max),
        0 <= i < j < s.len(),
    ensures
        s[i].end < s[j].start,
    decreases j - i,
{
    if i + 1 < j {
        lemma_ranges_ordered(s, max, i, j - 1);
        assert(s[j - 1].valid(max));
    }
}

/// The country of the range in `s` that covers `v`, if one does.
pub open spec fn find_country(s: Seq<GeoRange>, v: int) -> Option<CountryCode> {
    if exists|i: int| 0 <= i < s.len() && (#[trigger] s[i]).covers(v) {
        Some(s[choose|i: int| 0 <= i < s.len() && (#[trigger] s[i]).covers(v)].country)
    } else {
        None
    }
}

/// In a well-formed list, at most one range covers any value.
pub proof fn lemma_unique_cover(s: Seq<GeoRange>, max: u128, i: int, j: int, v: int)
    requires
        ranges_wf(s, max),
        0 <= i < s.len(),
        0 <= j < s.len(),
        s[i].covers(v),
        s[j].covers(v),
    ensures
        i == j,
{
    if i < j {
        lemma_ranges_ordered(s, max, i, j);
    } else if j < i {
        lemma_ranges_ordered(s, max, j, i);
    }
}

/// The country that the range covering `v` in a well-formed list names.
pub proof fn lemma_find_country_at(s: Seq<GeoRange>, max: u128, i: int, v: int)
    requires
        ranges_wf(s, max),
        0 <= i < s.len(),
        s[i].covers(v),
    ensures
        find_country(s, v) == Some(s[i].country),
{
    assert(exists|k: int| 0 <= k < s.len() && (#[trigger] s[k]).covers(v));
    let k = choose|k: int| 0 <= k < s.len() && (#[trigger] s[k]).covers(v);
    lemma_unique_cover(s, max, i, k, v);
}

/// Ranges of both address families, each list sorted and disjoint. It is
/// never changed once built.
pub struct RangeIndex {
    v4: Vec<GeoRange>,
    v6: Vec<GeoRange>,
}

impl RangeIndex {
    /// The IPv4 ranges and the IPv6 ranges.
    pub closed spec fn view(&self) -> (Seq<GeoRange>, Seq<GeoRange>) {
        (self.v4@, self.v6@)
    }

    pub open spec fn wf(&self) -> bool {
        ranges_wf(self@.0, V4_MAX) && ranges_wf(self@.1, u128::MAX)
    }

    /// The ranges of one family.
    pub open spec fn family_ranges(&self, f: Family) -> Seq<GeoRange> {
        if f == Family::V4 {
            self@.0
        } else {
            self@.1
        }
    }

    /// The largest value of one family.
    pub open spec fn family_max(f: Family) -> u128 {
        if f == Family::V4 {
            V4_MAX
        } else {
            u128::MAX
        }
    }

    /// Whether some range of the address's family covers it, after
    /// IPv4-mapped IPv6 addresses are taken as IPv4.
    pub open spec fn covered(&self, ip: IpAddress) -> bool {
        let n = ip.normal_spec();
        exists|i: int|
            0 <= i < self.family_ranges(n.family).len() && (#[trigger] self.family_ranges(
                n.family,
            )[i]).covers(n.value as int)
    }

    /// The country for an address, after IPv4-mapped IPv6 addresses are
    /// taken as IPv4.
    pub open spec fn lookup_spec(&self, ip: IpAddress) -> Option<CountryCode> {
        let n = ip.normal_spec();
        find_country(self.family_ranges(n.family), n.value as int)
    }

    /// Builds an index from the IPv4 and IPv6 ranges, each list in address
    /// order.
    pub fn new(v4: Vec<GeoRange>, v6: Vec<GeoRange>) -> (r: Result<RangeIndex, DatasetError>)
        ensures
            r is Ok <==> ranges_wf(v4@, V4_MAX) && ranges_wf(v6@, u128::MAX),
            r matches Ok(idx) ==> idx@ == (v4@, v6@) && idx.wf(),
            r matches Err(e) ==> e == DatasetError::InvalidRanges,
    {
        if check_ranges(&v4, V4_MAX) && check_ranges(&v6, u128::MAX) {
            Ok(RangeIndex { v4, v6 })
        } else {
            Err(DatasetError::InvalidRanges)
        }
    }

    /// The country of the address, or `None` where no range covers it.
    pub fn lookup(&self, ip: IpAddress) -> (r: Option<CountryCode>)
        requires
            self.wf(),
            ip.wf(),
        ensures
            r == self.lookup_spec(ip),
    {
        let n = ip.normalize();
        if n.family == Family::V4 {
            search(&self.v4, V4_MAX, n.value)
        } else {
            search(&self.v6, u128::MAX, n.value)
        }
    }

    /// The number of IPv4 ranges and of IPv6 ranges.
    pub fn range_counts(&self) -> (r: (usize, usize))
        ensures
            r.0 == self@.0.len(),
            r.1 == self@.1.len(),
    {
        (self.v4.len(), self.v6.len())
    }
}

/// Whether `s` is a well-formed list of ranges of a family whose largest
/// value is `max`.
pub fn check_ranges(s: &Vec<GeoRange>, max: u128) -> (r: bool)
    ensures
        r == ranges_wf(s@, max),
{
    let mut i: usize = 0;
    while i < s.len()
        invariant
            i <= s.len(),
            forall|k: int| 0 <= k < i ==> (#[trigger] s@[k]).valid(max),
            forall|k: int| 0 < k < i ==> s@[k - 1].end < (#[trigger] s@[k]).start,
        decreases s.len() - i,
    {
        let g = s[i];
        if !(g.start <= g.end && g.end <= max && 65 <= g.country.first && g.country.first <= 90
            && 65 <= g.country.second && g.country.second <= 90) {
            assert(!s@[i as int].valid(max));
            return false;
        }
        if i > 0 && s[i - 1].end >= g.start {
            assert(!(s@[i - 1].end < s@[i as int].start));
            return false;
        }
        i = i + 1;
    }
    true
}

/// Binary search for the range of a well-formed list that covers `v`.
pub fn search(s: &Vec<GeoRange>, max: u128, v: u128) -> (r: Option<CountryCode>)
    requires
        ranges_wf(s@, max),
    ensures
        r == find_country(s@, v as int),
{
    let mut lo: usize = 0;
    let mut hi: usize = s.len();
    while lo < hi
        invariant
            lo <= hi <= s.len(),
            ranges_wf(s@, max),
            forall|k: int| 0 <= k < lo ==> (#[trigger] s@[k]).start <= v,
            forall|k: int| hi <= k < s.len() ==> (#[trigger] s@[k]).start > v,
        decreases hi - lo,
    {
        let mid = lo + (hi - lo) / 2;
        if s[mid].start <= v {
            assert forall|k: int| 0 <= k < mid + 1 implies (#[trigger] s@[k]).start <= v by {
                if k < mid {
                    lemma_ranges_ordered(s@, max, k, mid as int);
                    assert(s@[k].valid(max));
                }
            }
            lo = mid + 1;
        } else {
            assert forall|k: int| mid <= k < s.len() implies (#[trigger] s@[k]).start > v by {
                if k > mid {
                    lemma_ranges_ordered(s@, max, mid as int, k);
                    assert(s@[mid as int].valid(max));
                }
            }
            hi = mid;
        }
    }
    if lo == 0 {
        assert forall|k: int| 0 <= k < s.len() implies !(#[trigger] s@[k]).covers(v as int) by {
            assert(s@[k].start > v);
        }
        return None;
    }
    let k = lo - 1;
    if v <= s[k].end {
        proof {
            lemma_find_country_at(s@, max, k as int, v as int);
        }
        Some(s[k].country)
    } else {
        assert forall|j: int| 0 <= j < s.len() implies !(#[trigger] s@[j]).covers(v as int) by {
            if j < k {
                lemma_ranges_ordered(s@, max, j, k as int);
            }
        }
        None
    }
}

} // verus!
