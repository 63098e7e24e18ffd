use ipstats::address::ClientAddress;
use ipstats::counter::RequestCounter;
use ipstats::table::CountTable;

fn a(d: u8) -> ClientAddress {
    ClientAddress::v4(10, 0, 0, d)
}

fn sorted(mut v: Vec<(ClientAddress, usize)>) -> Vec<(ClientAddress, usize)> {
    v.sort();
    v
}

#[test]
fn drained_counts_sum_to_number_of_increments() {
    let counter = RequestCounter::new();
    let addrs = [a(1), a(2), a(3), a(1), a(2), a(1), a(9)];
    for x in addrs.iter() {
        counter.increment(*x);
    }
    let snapshot = counter.drain_and_reset();
    let sum: usize = snapshot.iter().map(|e| e.1).sum();
    assert_eq!(sum, addrs.len());
    assert!(counter.drain_and_reset().is_empty());
}

#[test]
fn each_increment_lands_in_exactly_one_period() {
    let mut table = CountTable::new();
    table.increment(a(1));
    table.increment(a(2));
    table.increment(a(1));
    let first = table.drain_and_reset();
    table.increment(a(1));
    table.increment(a(3));
    let second = table.drain_and_reset();
    assert_eq!(sorted(first), vec![(a(1), 2), (a(2), 1)]);
    assert_eq!(sorted(second), vec![(a(1), 1), (a(3), 1)]);
    assert_eq!(table.count(a(1)), 0);
}

#[test]
fn draining_an_empty_table_gives_nothing() {
    let mut table = CountTable::new();
    assert!(table.drain_and_reset().is_empty());
    assert!(table.drain_and_reset().is_empty());
    let counter = RequestCounter::new();
    assert!(counter.drain_and_reset().is_empty());
    assert!(counter.drain_and_reset().is_empty());
}

#[test]
fn per_request_attribution() {
    let counter = RequestCounter::new();
    let first = ClientAddress::v4(10, 0, 0, 1);
    let second = ClientAddress::v4(10, 0, 0, 2);
    counter.increment(first);
    counter.increment(second);
    counter.increment(first);
    counter.increment(first);
    counter.increment(second);
    let snapshot = counter.drain_and_reset();
    assert_eq!(sorted(snapshot), vec![(first, 3), (second, 2)]);
}

#[test]
fn count_reads_one_address() {
    let mut table = CountTable::new();
    assert_eq!(table.count(a(5)), 0);
    table.increment(a(5));
    table.increment(a(5));
    table.increment(a(6));
    assert_eq!(table.count(a(5)), 2);
    assert_eq!(table.count(a(6)), 1);
    assert_eq!(table.count(a(7)), 0);
}

#[test]
fn ipv4_and_ipv6_are_distinct_keys() {
    let mut table = CountTable::new();
    table.increment(ClientAddress::V4(1));
    table.increment(ClientAddress::V6(1));
    table.increment(ClientAddress::V6(1));
    assert_eq!(table.count(ClientAddress::V4(1)), 1);
    assert_eq!(table.count(ClientAddress::V6(1)), 2);
}

#[test]
fn v4_builds_network_order_value() {
    assert_eq!(ClientAddress::v4(10, 0, 0, 1), ClientAddress::V4(0x0a00_0001));
    assert_eq!(ClientAddress::v4(255, 255, 255, 255), ClientAddress::V4(u32::MAX));
}

#[test]
fn address_order_puts_ipv4_first() {
    assert!(ClientAddress::V4(u32::MAX).precedes(&ClientAddress::V6(0)));
    assert!(!ClientAddress::V6(0).precedes(&ClientAddress::V4(0)));
    assert!(a(1).precedes(&a(2)));
    assert!(!a(2).precedes(&a(2)));
}
