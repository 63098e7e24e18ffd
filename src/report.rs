use vstd::prelude::*;
use vstd::string::{StrSliceExecFns, StringExecFns};
use vstd::seq_lib::{to_multiset_build, to_multiset_insert};

use crate::address::ClientAddress;

verus! {

/// Whether `x` may stand before `y` in a report: a higher count first, and
/// among equal counts the lower address first.
pub open spec fn in_report_order(x: (ClientAddress, usize), y: (ClientAddress, usize)) -> bool {
    x.1 > y.1 || (x.1 == y.1 && x.0.rank() <= y.0.rank())
}

/// Every pair of rows stands in report order.
pub open spec fn report_sorted(s: Seq<(ClientAddress, usize)>) -> bool {
    forall|i: int, j: int| 0 <= i < j < s.len() ==> #[trigger] in_report_order(s[i], s[j])
}

/// Whether `x` must stand before `y`: `y` may not stand before `x`.
fn goes_first(x: (ClientAddress, usize), y: (ClientAddress, usize)) -> (r: bool)
    ensures
        r == !in_report_order(y, x),
{
    x.1 > y.1 || (x.1 == y.1 && x.0.precedes(&y.0))
}

/// The rows of a snapshot in the order of the report: by count, highest
/// first, and among equal counts by address, lowest first. The result holds
/// the same rows as the snapshot, each as often.
pub fn rank(snapshot: &Vec<(ClientAddress, usize)>) -> (r: Vec<(ClientAddress, usize)>)
    ensures
        r@.to_multiset() == snapshot@.to_multiset(),
        report_sorted(r@),
{
    let n = snapshot.len();
    let mut r: Vec<(ClientAddress, usize)> = Vec::new();
    let mut k: usize = 0;
    assert(r@ =~= snapshot@.subrange(0, 0));
    while k < n
        invariant
            n == snapshot.len(),
            k <= n,
            r@.to_multiset() == snapshot@.subrange(0, k as int).to_multiset(),
            report_sorted(r@),
        decreases n - k,
    {
        let x = snapshot[k];
        let m = r.len();
        let mut p: usize = 0;
        while p < m && !goes_first(x, r[p])
            invariant
                m == r.len(),
                p <= m,
                forall|j: int| 0 <= j < p ==> #[trigger] in_report_order(r@[j], x),
            decreases m - p,
        {
            p = p + 1;
        }
        let ghost old_r = r@;
        r.insert(p, x);
        assert forall|i: int, j: int| 0 <= i < j < r@.len() implies #[trigger] in_report_order(
            r@[i],
            r@[j],
        ) by {
            if j < p {
                assert(in_report_order(old_r[i], old_r[j]));
            } else if j == p {
                assert(in_report_order(old_r[i], x));
            } else if i < p {
                assert(in_report_order(old_r[i], x));
                if p < m {
                    assert(in_report_order(x, old_r[p as int]));
                    if j - 1 > p {
                        assert(in_report_order(old_r[p as int], old_r[j - 1]));
                    }
                }
            } else if i == p {
                assert(in_report_order(x, old_r[p as int]));
                if j - 1 > p {
                    assert(in_report_order(old_r[p as int], old_r[j - 1]));
                }
            } else {
                assert(in_report_order(old_r[i - 1], old_r[j - 1]));
            }
        }
        assert(r@ == old_r.insert(p as int, x));
        proof {
            to_multiset_insert(old_r, p as int, x);
            to_multiset_build(snapshot@.subrange(0, k as int), x);
        }
        assert(r@.to_multiset() == old_r.to_multiset().insert(x));
        assert(snapshot@.subrange(0, k + 1) =~= snapshot@.subrange(0, k as int).push(x));
        assert(snapshot@.subrange(0, k as int).push(x).to_multiset()
            == snapshot@.subrange(0, k as int).to_multiset().insert(x));
        k = k + 1;
    }
    assert(snapshot@.subrange(0, n as int) =~= snapshot@);
    r
}

/// The width of the right-aligned address field of a report line.
pub const ADDRESS_WIDTH: usize = 15;

/// The character of the decimal digit `d`.
pub open spec fn digit_char(d: nat) -> char {
    if d == 0 {
        '0'
    } else if d == 1 {
        '1'
    } else if d == 2 {
        '2'
    } else if d == 3 {
        '3'
    } else if d == 4 {
        '4'
    } else if d == 5 {
        '5'
    } else if d == 6 {
        '6'
    } else if d == 7 {
        '7'
    } else if d == 8 {
        '8'
    } else {
        '9'
    }
}

/// `n` in decimal, without leading zeros.
pub open spec fn decimal(n: nat) -> Seq<char>
    decreases n,
{
    if n < 10 {
        seq![digit_char(n)]
    } else {
        decimal(n / 10) + seq![digit_char(n % 10)]
    }
}

/// `k` spaces.
pub open spec fn spaces(k: nat) -> Seq<char> {
    Seq::new(k, |i: int| ' ')
}

/// `s` right-aligned in a field of `w` characters: spaces before it to fill
/// the field, none where it is already as wide.
pub open spec fn pad_left(s: Seq<char>, w: nat) -> Seq<char> {
    if s.len() < w {
        spaces((w - s.len()) as nat) + s
    } else {
        s
    }
}

/// The report line of one address: the address right-aligned in its field,
/// a colon and a space, the count, and a newline.
pub open spec fn line_text(addr: Seq<char>, count: nat) -> Seq<char> {
    pad_left(addr, ADDRESS_WIDTH as nat) + seq![':', ' '] + decimal(count) + seq!['\n']
}

/// The lines of all rows, in order.
pub open spec fn lines_text(rows: Seq<(String, usize)>) -> Seq<char>
    decreases rows.len(),
{
    if rows.len() == 0 {
        Seq::empty()
    } else {
        lines_text(rows.drop_last()) + line_text(rows.last().0@, rows.last().1 as nat)
    }
}

/// A whole report: nothing for no rows, else a header line and the line of
/// each row.
pub open spec fn report_text(rows: Seq<(String, usize)>) -> Seq<char> {
    if rows.len() == 0 {
        Seq::empty()
    } else {
        seq!['I', 'P', 's', ':', '\n'] + lines_text(rows)
    }
}

fn digit_text(d: usize) -> (r: &'static str)
    requires
        d < 10,
    ensures
        r@ == seq![digit_char(d as nat)],
{
    proof {
        reveal_strlit("0");
        reveal_strlit("1");
        reveal_strlit("2");
        reveal_strlit("3");
        reveal_strlit("4");
        reveal_strlit("5");
        reveal_strlit("6");
        reveal_strlit("7");
        reveal_strlit("8");
        reveal_strlit("9");
    }
    let r = if d == 0 {
        "0"
    } else if d == 1 {
        "1"
    } else if d == 2 {
        "2"
    } else if d == 3 {
        "3"
    } else if d == 4 {
        "4"
    } else if d == 5 {
        "5"
    } else if d == 6 {
        "6"
    } else if d == 7 {
        "7"
    } else if d == 8 {
        "8"
    } else {
        "9"
    };
    assert(r@ =~= seq![digit_char(d as nat)]);
    r
}

/// `n` written in decimal.
pub fn decimal_text(n: usize) -> (r: String)
    ensures
        r@ == decimal(n as nat),
    decreases n,
{
    if n < 10 {
        String::from_str(digit_text(n))
    } else {
        let mut r = decimal_text(n / 10);
        r.append(digit_text(n % 10));
        r
    }
}

/// One line of a report, for an address written as `addr` with `count`
/// requests.
pub fn report_line(addr: &str, count: usize) -> (r: String)
    ensures
        r@ == line_text(addr@, count as nat),
{
    proof {
        reveal_strlit(": ");
        reveal_strlit("\n");
    }
    let width = addr.unicode_len();
    let mut r = String::new();
    let mut i: usize = width;
    while i < ADDRESS_WIDTH
        invariant
            width == addr@.len(),
            width <= i <= ADDRESS_WIDTH || (width > ADDRESS_WIDTH && i == width),
            r@ == spaces((i - width) as nat),
        decreases ADDRESS_WIDTH - i,
    {
        proof {
            reveal_strlit(" ");
        }
        r.append(" ");
        assert(r@ =~= spaces((i + 1 - width) as nat));
        i = i + 1;
    }
    assert(r@ + addr@ =~= pad_left(addr@, ADDRESS_WIDTH as nat));
    r.append(addr);
    r.append(": ");
    let digits = decimal_text(count);
    r.append(digits.as_str());
    r.append("\n");
    assert(r@ =~= line_text(addr@, count as nat));
    r
}

/// The report of ranked rows, each an address written out and its count:
/// empty where there are no rows.
pub fn render_report(rows: &Vec<(String, usize)>) -> (r: String)
    ensures
        r@ == report_text(rows@),
{
    proof {
        reveal_strlit("IPs:\n");
    }
    let n = rows.len();
    if n == 0 {
        let r = String::new();
        assert(r@ =~= report_text(rows@));
        return r;
    }
    let mut r = String::from_str("IPs:\n");
    let mut k: usize = 0;
    assert(rows@.subrange(0, 0) =~= Seq::<(String, usize)>::empty());
    while k < n
        invariant
            n == rows@.len(),
            k <= n,
            r@ == seq!['I', 'P', 's', ':', '\n'] + lines_text(rows@.subrange(0, k as int)),
        decreases n - k,
    {
        let line = report_line(rows[k].0.as_str(), rows[k].1);
        r.append(line.as_str());
        assert(rows@.subrange(0, k + 1).drop_last() =~= rows@.subrange(0, k as int));
        assert(r@ =~= seq!['I', 'P', 's', ':', '\n'] + lines_text(rows@.subrange(0, k + 1)));
        k = k + 1;
    }
    assert(rows@.subrange(0, n as int) =~= rows@);
    r
}

} // verus!
