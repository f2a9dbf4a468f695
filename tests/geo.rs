use catscii::addr::{Family, IpAddress};
use catscii::country::CountryCode;
use catscii::dataset::load;
use catscii::engine::Engine;
use catscii::index::{check_ranges, DatasetError, GeoRange, RangeIndex};
use catscii::persist::{decode, encode};
use catscii::store::{CountRow, CounterTable, StoreError};

fn code(s: &str) -> CountryCode {
    let b = s.as_bytes();
    CountryCode::from_bytes(b[0], b[1]).unwrap()
}

fn v4(a: u8, b: u8, c: u8, d: u8) -> IpAddress {
    IpAddress::from_v4_octets(a, b, c, d)
}

fn range(start: IpAddress, end: IpAddress, c: &str) -> GeoRange {
    GeoRange { start: start.value, end: end.value, country: code(c) }
}

fn record(tag: u8, start: u128, end: u128, c: &str) -> Vec<u8> {
    let mut out = vec![tag];
    out.extend_from_slice(&start.to_be_bytes());
    out.extend_from_slice(&end.to_be_bytes());
    out.extend_from_slice(c.as_bytes());
    out
}

fn engine_of(v4_ranges: Vec<GeoRange>) -> Engine {
    let idx = RangeIndex::new(v4_ranges, Vec::new()).unwrap();
    Engine::new(idx, CounterTable::new())
}

fn rows_of(e: &Engine) -> Vec<(String, u64)> {
    e.snapshot_report()
        .iter()
        .map(|r| {
            let l = r.country.letters();
            (String::from_utf8(l.to_vec()).unwrap(), r.count)
        })
        .collect()
}

#[test]
fn single_range_scenario() {
    let mut e = engine_of(vec![range(v4(1, 2, 3, 0), v4(1, 2, 3, 255), "US")]);
    assert_eq!(e.resolve_and_record(v4(1, 2, 3, 10)), Some(code("US")));
    assert_eq!(rows_of(&e), vec![("US".to_string(), 1)]);
    assert_eq!(e.resolve_and_record(v4(1, 2, 4, 1)), None);
    assert_eq!(rows_of(&e), vec![("US".to_string(), 1)]);
}

#[test]
fn two_ranges_scenario() {
    let mut e = engine_of(vec![
        range(v4(10, 0, 0, 0), v4(10, 0, 0, 255), "CA"),
        range(v4(10, 0, 1, 0), v4(10, 0, 1, 255), "MX"),
    ]);
    for d in [1u8, 2, 3] {
        assert_eq!(e.resolve_and_record(v4(10, 0, 0, d)), Some(code("CA")));
    }
    for d in [4u8, 200] {
        assert_eq!(e.resolve_and_record(v4(10, 0, 1, d)), Some(code("MX")));
    }
    let mut rows = rows_of(&e);
    rows.sort();
    assert_eq!(rows, vec![("CA".to_string(), 3), ("MX".to_string(), 2)]);
}

#[test]
fn span_ends_are_inclusive() {
    let idx = RangeIndex::new(vec![range(v4(1, 2, 3, 0), v4(1, 2, 3, 255), "US")], Vec::new())
        .unwrap();
    for d in [0u8, 1, 128, 254, 255] {
        assert_eq!(idx.lookup(v4(1, 2, 3, d)), Some(code("US")));
    }
    assert_eq!(idx.lookup(v4(1, 2, 2, 255)), None);
    assert_eq!(idx.lookup(v4(1, 2, 4, 0)), None);
}

#[test]
fn miss_leaves_counts_unchanged() {
    let mut e = engine_of(vec![range(v4(10, 0, 0, 0), v4(10, 0, 0, 255), "CA")]);
    e.resolve_and_record(v4(10, 0, 0, 7));
    for ip in [v4(0, 0, 0, 0), v4(9, 255, 255, 255), v4(10, 0, 1, 0), v4(255, 255, 255, 255)] {
        assert_eq!(e.resolve_and_record(ip), None);
    }
    assert_eq!(e.resolve_and_record(IpAddress::v6(1)), None);
    assert_eq!(rows_of(&e), vec![("CA".to_string(), 1)]);
}

#[test]
fn gap_between_ranges_is_unmapped() {
    let idx = RangeIndex::new(
        vec![
            range(v4(10, 0, 0, 0), v4(10, 0, 0, 9), "CA"),
            range(v4(10, 0, 0, 20), v4(10, 0, 0, 29), "MX"),
            range(v4(10, 0, 0, 40), v4(10, 0, 0, 49), "US"),
        ],
        Vec::new(),
    )
    .unwrap();
    assert_eq!(idx.lookup(v4(10, 0, 0, 15)), None);
    assert_eq!(idx.lookup(v4(10, 0, 0, 20)), Some(code("MX")));
    assert_eq!(idx.lookup(v4(10, 0, 0, 49)), Some(code("US")));
    assert_eq!(idx.lookup(v4(10, 0, 0, 50)), None);
    assert_eq!(idx.range_counts(), (3, 0));
}

#[test]
fn ipv6_and_mapped_addresses() {
    let mapped_base: u128 = 0xffff_0000_0000;
    let six = GeoRange { start: 0x2001_0db8 << 96, end: (0x2001_0db9 << 96) - 1, country: code("DE") };
    let idx = RangeIndex::new(vec![range(v4(1, 2, 3, 0), v4(1, 2, 3, 255), "US")], vec![six]).unwrap();
    assert_eq!(idx.lookup(IpAddress::v6((0x2001_0db8 << 96) + 5)), Some(code("DE")));
    assert_eq!(idx.lookup(IpAddress::v6(0x2001_0db9 << 96)), None);
    let mapped = IpAddress::v6(mapped_base + v4(1, 2, 3, 4).value);
    assert_eq!(mapped.normalize(), v4(1, 2, 3, 4));
    assert_eq!(idx.lookup(mapped), Some(code("US")));
    let plain = IpAddress::v6(v4(1, 2, 3, 4).value);
    assert_eq!(plain.normalize().family, Family::V6);
    assert_eq!(idx.lookup(plain), None);
}

#[test]
fn invalid_ranges_are_refused() {
    let overlap = vec![
        range(v4(10, 0, 0, 0), v4(10, 0, 0, 255), "CA"),
        range(v4(10, 0, 0, 255), v4(10, 0, 1, 255), "MX"),
    ];
    assert!(!check_ranges(&overlap, 0xffff_ffff));
    assert_eq!(RangeIndex::new(overlap, Vec::new()).err(), Some(DatasetError::InvalidRanges));
    let backwards = vec![range(v4(10, 0, 0, 9), v4(10, 0, 0, 0), "CA")];
    assert_eq!(RangeIndex::new(backwards, Vec::new()).err(), Some(DatasetError::InvalidRanges));
    let too_wide = vec![GeoRange { start: 0, end: 1 << 32, country: code("CA") }];
    assert_eq!(RangeIndex::new(too_wide, Vec::new()).err(), Some(DatasetError::InvalidRanges));
    let bad_code = vec![GeoRange { start: 0, end: 1, country: CountryCode { first: b'c', second: b'A' } }];
    assert_eq!(RangeIndex::new(bad_code, Vec::new()).err(), Some(DatasetError::InvalidRanges));
}

#[test]
fn country_code_letters() {
    assert_eq!(CountryCode::from_bytes(b'U', b'S').map(|c| c.letters()), Some(*b"US"));
    assert_eq!(CountryCode::from_bytes(b'u', b'S'), None);
    assert_eq!(CountryCode::from_bytes(b'U', b'1'), None);
}

#[test]
fn dataset_loads_both_families() {
    let mut b = record(4, v4(1, 2, 3, 0).value, v4(1, 2, 3, 255).value, "US");
    b.extend(record(6, 100, 200, "DE"));
    b.extend(record(4, v4(1, 2, 4, 0).value, v4(1, 2, 4, 255).value, "FR"));
    let idx = load(&b).unwrap();
    assert_eq!(idx.range_counts(), (2, 1));
    assert_eq!(idx.lookup(v4(1, 2, 4, 9)), Some(code("FR")));
    assert_eq!(idx.lookup(v4(1, 2, 3, 9)), Some(code("US")));
    assert_eq!(idx.lookup(IpAddress::v6(150)), Some(code("DE")));
    assert_eq!(idx.lookup(IpAddress::v6(201)), None);
}

#[test]
fn reloading_gives_same_lookups() {
    let mut b = record(4, v4(10, 0, 0, 0).value, v4(10, 0, 0, 255).value, "CA");
    b.extend(record(4, v4(10, 0, 1, 0).value, v4(10, 0, 1, 255).value, "MX"));
    let first = load(&b).unwrap();
    let second = load(&b).unwrap();
    for c in 0u8..=2 {
        for d in [0u8, 1, 100, 255] {
            assert_eq!(first.lookup(v4(10, 0, c, d)), second.lookup(v4(10, 0, c, d)));
        }
    }
}

#[test]
fn dataset_errors() {
    let good = record(4, 0, 10, "US");
    assert_eq!(load(&good[..34]).err(), Some(DatasetError::Malformed));
    let bad_tag = record(5, 0, 10, "US");
    assert_eq!(load(&bad_tag).err(), Some(DatasetError::Malformed));
    let mut unsorted = record(4, 20, 30, "US");
    unsorted.extend(record(4, 0, 10, "CA"));
    assert_eq!(load(&unsorted).err(), Some(DatasetError::InvalidRanges));
    assert_eq!(load(&[]).unwrap().range_counts(), (0, 0));
}

#[test]
fn increments_accumulate() {
    let mut t = CounterTable::new();
    let us = code("US");
    let ca = code("CA");
    assert_eq!(t.count(us), 0);
    t.increment(us).unwrap();
    let before = t.count(us);
    let codes = vec![us, ca, us, us, ca, us];
    t.increment_all(&codes);
    assert_eq!(t.count(us), before + 4);
    assert_eq!(t.count(ca), 2);
    assert_eq!(t.snapshot(), vec![CountRow { country: us, count: 5 }, CountRow { country: ca, count: 2 }]);
}

#[test]
fn saturated_count_overflows() {
    let us = code("US");
    let mut t = CounterTable::from_rows(vec![CountRow { country: us, count: u64::MAX }]).unwrap();
    assert_eq!(t.increment(us), Err(StoreError::CountOverflow));
    assert_eq!(t.count(us), u64::MAX);
}

#[test]
fn reopened_table_keeps_counts() {
    let mut t = CounterTable::new();
    t.increment_all(&vec![code("US"), code("CA"), code("US")]);
    let bytes = encode(&t);
    assert_eq!(bytes.len(), 20);
    assert_eq!(&bytes[..10], &[b'U', b'S', 0, 0, 0, 0, 0, 0, 0, 2]);
    let back = decode(&bytes).unwrap();
    assert_eq!(back.snapshot(), t.snapshot());
    assert_eq!(back.count(code("US")), 2);
    assert_eq!(back.count(code("CA")), 1);
}

#[test]
fn corrupt_tables_are_refused() {
    assert_eq!(decode(&[b'U', b'S', 0]).err(), Some(StoreError::Corrupt));
    let dup = [b'U', b'S', 0, 0, 0, 0, 0, 0, 0, 1, b'U', b'S', 0, 0, 0, 0, 0, 0, 0, 2];
    assert_eq!(decode(&dup).err(), Some(StoreError::Corrupt));
    let lower = [b'u', b's', 0, 0, 0, 0, 0, 0, 0, 1];
    assert_eq!(decode(&lower).err(), Some(StoreError::Corrupt));
    let us = code("US");
    assert_eq!(
        CounterTable::from_rows(vec![CountRow { country: us, count: 1 }, CountRow { country: us, count: 2 }]).err(),
        Some(StoreError::Corrupt)
    );
    assert_eq!(decode(&[]).unwrap().snapshot(), Vec::new());
}

#[test]
fn octets_make_address() {
    let ip = v4(1, 2, 3, 4);
    assert_eq!(ip.value, 0x0102_0304);
    assert_eq!(IpAddress::v4(0x0102_0304), ip);
    assert_eq!(ip.normalize(), ip);
}
