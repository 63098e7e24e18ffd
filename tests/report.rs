use ipstats::address::ClientAddress;
use ipstats::counter::RequestCounter;
use ipstats::report::{decimal_text, rank, render_report, report_line};
use ipstats::service::ping_handler;

#[test]
fn ranking_lists_higher_counts_first() {
    let a = ClientAddress::v4(10, 0, 0, 1);
    let b = ClientAddress::v4(10, 0, 0, 2);
    let c = ClientAddress::v4(10, 0, 0, 3);
    let ranked = rank(&vec![(a, 5), (b, 9), (c, 1)]);
    assert_eq!(ranked, vec![(b, 9), (a, 5), (c, 1)]);
    let rows: Vec<(String, usize)> =
        vec![("A".to_string(), 5), ("B".to_string(), 9), ("C".to_string(), 1)];
    let text = render_report(&vec![rows[1].clone(), rows[0].clone(), rows[2].clone()]);
    let pb = text.find("B:").unwrap();
    let pa = text.find("A:").unwrap();
    let pc = text.find("C:").unwrap();
    assert!(pb < pa && pa < pc);
}

#[test]
fn equal_counts_are_ordered_by_address() {
    let low = ClientAddress::v4(10, 0, 0, 1);
    let high = ClientAddress::v4(192, 168, 0, 1);
    let v6 = ClientAddress::V6(1);
    let ranked = rank(&vec![(v6, 2), (high, 2), (low, 2), (low, 7)]);
    assert_eq!(ranked, vec![(low, 7), (low, 2), (high, 2), (v6, 2)]);
}

#[test]
fn rank_of_nothing_is_nothing() {
    assert!(rank(&Vec::new()).is_empty());
}

#[test]
fn report_line_right_aligns_the_address() {
    assert_eq!(report_line("10.0.0.1", 4), "       10.0.0.1: 4\n");
    assert_eq!(report_line("255.255.255.255", 12), "255.255.255.255: 12\n");
    assert_eq!(report_line("2001:db8::1234:5678", 1), "2001:db8::1234:5678: 1\n");
    assert_eq!(report_line("", 0), "               : 0\n");
}

#[test]
fn decimal_text_writes_digits() {
    assert_eq!(decimal_text(0), "0");
    assert_eq!(decimal_text(7), "7");
    assert_eq!(decimal_text(10), "10");
    assert_eq!(decimal_text(1234567890), "1234567890");
    assert_eq!(decimal_text(usize::MAX), usize::MAX.to_string());
}

#[test]
fn empty_report_prints_nothing() {
    assert_eq!(render_report(&Vec::new()), "");
}

#[test]
fn report_has_header_and_lines() {
    let rows = vec![("10.0.0.2".to_string(), 9), ("10.0.0.1".to_string(), 5)];
    assert_eq!(
        render_report(&rows),
        "IPs:\n       10.0.0.2: 9\n       10.0.0.1: 5\n"
    );
}

fn text_of(a: ClientAddress) -> String {
    match a {
        ClientAddress::V4(v) => {
            let o = v.to_be_bytes();
            format!("{}.{}.{}.{}", o[0], o[1], o[2], o[3])
        }
        ClientAddress::V6(v) => format!("{:x}", v),
    }
}

fn reporter_turn(counter: &RequestCounter) -> String {
    let ranked = counter.take_ranked();
    let rows: Vec<(String, usize)> = ranked.iter().map(|(a, c)| (text_of(*a), *c)).collect();
    render_report(&rows)
}

#[test]
fn reporter_turns_report_then_stay_silent() {
    let counter = RequestCounter::new();
    let client = ClientAddress::v4(127, 0, 0, 1);
    for _ in 0..4 {
        counter.increment(client);
    }
    let first = reporter_turn(&counter);
    assert_eq!(first, "IPs:\n      127.0.0.1: 4\n");
    let second = reporter_turn(&counter);
    assert_eq!(second, "");
}

#[test]
fn ping_answers_pong() {
    assert_eq!(ping_handler(), "pong");
    let counter = RequestCounter::new();
    counter.increment(ClientAddress::V4(1));
    assert_eq!(ping_handler(), "pong");
}
