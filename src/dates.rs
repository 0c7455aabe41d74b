//! Calendar dates as `YYYY-MM-DD` text and the half-open range of a month.
use vstd::prelude::*;
use crate::text::{lemma_text_lt_irreflexive, lemma_text_lt_total, text_le, text_lt};

verus! {

/// The character of a decimal digit.
pub open spec fn digit_char(n: nat) -> char {
    if n == 0 {
        '0'
    } else if n == 1 {
        '1'
    } else if n == 2 {
        '2'
    } else if n == 3 {
        '3'
    } else if n == 4 {
        '4'
    } else if n == 5 {
        '5'
    } else if n == 6 {
        '6'
    } else if n == 7 {
        '7'
    } else if n == 8 {
        '8'
    } else {
        '9'
    }
}

/// `n` in decimal, padded with leading zeros to at least `width` digits.
pub open spec fn padded(n: nat, width: nat) -> Seq<char>
    decreases n + width,
{
    if n < 10 && width <= 1 {
        seq![digit_char(n)]
    } else {
        padded(n / 10, if width > 0 { (width - 1) as nat } else { 0 }).push(digit_char(n % 10))
    }
}

/// The text of the first day of a month: `YYYY-MM-01`.
pub open spec fn first_day_text(year: nat, month: nat) -> Seq<char> {
    padded(year, 4) + seq!['-'] + padded(month, 2) + seq!['-', '0', '1']
}

/// The month after `(year, month)`.
pub open spec fn next_month(year: nat, month: nat) -> (nat, nat) {
    if month == 12 {
        ((year + 1) as nat, 1)
    } else {
        (year, (month + 1) as nat)
    }
}

/// The half-open range `[start, end)` of the dates of a month: the first day of
/// the month and the first day of the next.
pub open spec fn month_bounds(year: nat, month: nat) -> (Seq<char>, Seq<char>) {
    let (ny, nm) = next_month(year, month);
    (first_day_text(year, month), first_day_text(ny, nm))
}

fn push_digit(s: &mut String, n: u32)
    requires
        n < 10,
    ensures
        final(s)@ == old(s)@.push(digit_char(n as nat)),
{
    let d: &str = if n == 0 {
        proof {
            reveal_strlit("0");
        }
        "0"
    } else if n == 1 {
        proof {
            reveal_strlit("1");
        }
        "1"
    } else if n == 2 {
        proof {
            reveal_strlit("2");
        }
        "2"
    } else if n == 3 {
        proof {
            reveal_strlit("3");
        }
        "3"
    } else if n == 4 {
        proof {
            reveal_strlit("4");
        }
        "4"
    } else if n == 5 {
        proof {
            reveal_strlit("5");
        }
        "5"
    } else if n == 6 {
        proof {
            reveal_strlit("6");
        }
        "6"
    } else if n == 7 {
        proof {
            reveal_strlit("7");
        }
        "7"
    } else if n == 8 {
        proof {
            reveal_strlit("8");
        }
        "8"
    } else {
        proof {
            reveal_strlit("9");
        }
        "9"
    };
    s.append(d);
    assert(final(s)@ =~= old(s)@.push(digit_char(n as nat)));
}

fn push_padded(s: &mut String, n: u32, width: u32)
    ensures
        final(s)@ == old(s)@ + padded(n as nat, width as nat),
    decreases n + width,
{
    if n < 10 && width <= 1 {
        push_digit(s, n);
        assert(final(s)@ =~= old(s)@ + padded(n as nat, width as nat));
    } else {
        let w: u32 = if width > 0 { width - 1 } else { 0 };
        push_padded(s, n / 10, w);
        push_digit(s, n % 10);
        assert(final(s)@ =~= old(s)@ + padded(n as nat, width as nat));
    }
}

/// The text `YYYY-MM-01` of the first day of a month.
pub fn first_day(year: u32, month: u32) -> (r: String)
    ensures
        r@ == first_day_text(year as nat, month as nat),
{
    let mut s = String::new();
    push_padded(&mut s, year, 4);
    proof {
        reveal_strlit("-");
        reveal_strlit("-01");
    }
    s.append("-");
    push_padded(&mut s, month, 2);
    s.append("-01");
    assert(s@ =~= first_day_text(year as nat, month as nat));
    s
}

/// The range `[start, end)` of the dates of a month as texts; `end` is the
/// first day of the next month, in the next year after December.
pub fn month_range(year: i32, month: u32) -> (r: (String, String))
    requires
        0 <= year <= 9999,
        1 <= month <= 12,
    ensures
        r.0@ == month_bounds(year as nat, month as nat).0,
        r.1@ == month_bounds(year as nat, month as nat).1,
{
    let y = year as u32;
    let start = first_day(y, month);
    let end = if month == 12 {
        first_day(y + 1, 1)
    } else {
        first_day(y, month + 1)
    };
    (start, end)
}

/// December of the year 9999: the last month that four-digit years reach, so
/// its range has no end.
pub open spec fn is_last_month(year: nat, month: nat) -> bool {
    year == 9999 && month == 12
}

/// The date lies in the range of the month: at or after its first day, and
/// before the first day of the next month unless the month is the last one.
pub open spec fn in_month(date: Seq<char>, year: nat, month: nat) -> bool {
    &&& text_le(month_bounds(year, month).0, date)
    &&& (is_last_month(year, month) || text_lt(date, month_bounds(year, month).1))
}

/// A decimal digit character.
pub open spec fn is_digit(c: char) -> bool {
    '0' <= c && c <= '9'
}

/// The value of a digit character.
pub open spec fn digit_value(c: char) -> int {
    c as int - '0' as int
}

/// Ten to the power `n`.
pub open spec fn pow10(n: nat) -> int
    decreases n,
{
    if n == 0 {
        1
    } else {
        10 * pow10((n - 1) as nat)
    }
}

/// The text read as a decimal numeral, each character weighted by its place;
/// a non-digit counts by its distance from `'0'`.
pub open spec fn text_value(s: Seq<char>) -> int
    decreases s.len(),
{
    if s.len() == 0 {
        0
    } else {
        digit_value(s[0]) * pow10((s.len() - 1) as nat) + text_value(s.drop_first())
    }
}

/// Two texts of one length that hold digits at the same places and agree
/// everywhere else.
pub open spec fn same_shape(a: Seq<char>, b: Seq<char>) -> bool {
    &&& a.len() == b.len()
    &&& forall|i: int| 0 <= i < a.len() ==> a[i] == b[i] || (is_digit(a[i]) && is_digit(b[i]))
}

/// Text of the shape `DDDD-DD-DD`.
pub open spec fn has_date_shape(d: Seq<char>) -> bool {
    &&& d.len() == 10
    &&& is_digit(d[0]) && is_digit(d[1]) && is_digit(d[2]) && is_digit(d[3])
    &&& d[4] == '-'
    &&& is_digit(d[5]) && is_digit(d[6])
    &&& d[7] == '-'
    &&& is_digit(d[8]) && is_digit(d[9])
}

pub open spec fn year_of(d: Seq<char>) -> int {
    1000 * digit_value(d[0]) + 100 * digit_value(d[1]) + 10 * digit_value(d[2]) + digit_value(d[3])
}

pub open spec fn month_of(d: Seq<char>) -> int {
    10 * digit_value(d[5]) + digit_value(d[6])
}

pub open spec fn day_of(d: Seq<char>) -> int {
    10 * digit_value(d[8]) + digit_value(d[9])
}

/// A zero-padded `YYYY-MM-DD` date with a month in 1 to 12 and a day in 1 to 31.
pub open spec fn is_date_text(d: Seq<char>) -> bool {
    &&& has_date_shape(d)
    &&& 1 <= month_of(d) <= 12
    &&& 1 <= day_of(d) <= 31
}

proof fn lemma_pow10_positive(n: nat)
    ensures
        pow10(n) >= 1,
    decreases n,
{
    if n > 0 {
        lemma_pow10_positive((n - 1) as nat);
    }
}

/// Texts of the same shape split into a first place and rests of the same
/// shape, and their values differ by the first places' difference at its weight
/// plus the rests' difference.
proof fn lemma_split_first(a: Seq<char>, b: Seq<char>)
    requires
        same_shape(a, b),
        a.len() > 0,
    ensures
        same_shape(a.drop_first(), b.drop_first()),
        -9 <= digit_value(a[0]) - digit_value(b[0]) <= 9,
        text_value(a) - text_value(b) == (digit_value(a[0]) - digit_value(b[0])) * pow10(
            (a.len() - 1) as nat,
        ) + (text_value(a.drop_first()) - text_value(b.drop_first())),
{
    assert forall|i: int| 0 <= i < a.drop_first().len() implies a.drop_first()[i]
        == b.drop_first()[i] || (is_digit(a.drop_first()[i]) && is_digit(b.drop_first()[i])) by {
        assert(a.drop_first()[i] == a[i + 1]);
        assert(b.drop_first()[i] == b[i + 1]);
    }
    let p = pow10((a.len() - 1) as nat);
    assert(text_value(a) - text_value(b) == (digit_value(a[0]) - digit_value(b[0])) * p + (
    text_value(a.drop_first()) - text_value(b.drop_first()))) by (nonlinear_arith)
        requires
            text_value(a) == digit_value(a[0]) * p + text_value(a.drop_first()),
            text_value(b) == digit_value(b[0]) * p + text_value(b.drop_first()),
    ;
}

proof fn lemma_value_gap(a: Seq<char>, b: Seq<char>)
    requires
        same_shape(a, b),
    ensures
        -pow10(a.len()) < text_value(a) - text_value(b) < pow10(a.len()),
    decreases a.len(),
{
    if a.len() > 0 {
        let n = (a.len() - 1) as nat;
        lemma_split_first(a, b);
        lemma_value_gap(a.drop_first(), b.drop_first());
        lemma_pow10_positive(n);
        let g = digit_value(a[0]) - digit_value(b[0]);
        let p = pow10(n);
        let r = text_value(a.drop_first()) - text_value(b.drop_first());
        assert(-10 * p < g * p + r < 10 * p) by (nonlinear_arith)
            requires
                -9 <= g <= 9,
                -p < r < p,
                p >= 1,
        ;
    }
}

/// On texts of the same shape the character order is the order of their values.
pub proof fn lemma_text_order_is_value_order(a: Seq<char>, b: Seq<char>)
    requires
        same_shape(a, b),
    ensures
        text_lt(a, b) <==> text_value(a) < text_value(b),
    decreases a.len(),
{
    if a.len() > 0 {
        let n = (a.len() - 1) as nat;
        lemma_split_first(a, b);
        lemma_text_order_is_value_order(a.drop_first(), b.drop_first());
        lemma_value_gap(a.drop_first(), b.drop_first());
        lemma_pow10_positive(n);
        let g = digit_value(a[0]) - digit_value(b[0]);
        let p = pow10(n);
        let r = text_value(a.drop_first()) - text_value(b.drop_first());
        if g > 0 {
            assert(g * p + r > 0) by (nonlinear_arith)
                requires
                    g >= 1,
                    -p < r,
                    p >= 1,
            ;
        } else if g < 0 {
            assert(g * p + r < 0) by (nonlinear_arith)
                requires
                    g <= -1,
                    r < p,
                    p >= 1,
            ;
        } else {
            assert(g * p == 0) by (nonlinear_arith)
                requires
                    g == 0,
            ;
        }
    }
}

proof fn lemma_date_value(d: Seq<char>)
    requires
        has_date_shape(d),
    ensures
        text_value(d) == year_of(d) * 1000000 + month_of(d) * 1000 + day_of(d) - 300300,
{
    reveal_with_fuel(pow10, 10);
    assert(pow10(9) == 1000000000);
    assert forall|i: int| 0 <= i < 10 implies #[trigger] text_value(d.skip(i)) == digit_value(d[i])
        * pow10((9 - i) as nat) + text_value(d.skip(i + 1)) by {
        assert(d.skip(i).drop_first() =~= d.skip(i + 1));
        assert(d.skip(i)[0] == d[i]);
    }
    assert(text_value(d.skip(10)) == 0);
    assert(text_value(d.skip(9)) == digit_value(d[9]));
    assert(text_value(d.skip(8)) == digit_value(d[8]) * 10 + text_value(d.skip(9)));
    assert(text_value(d.skip(7)) == digit_value(d[7]) * 100 + text_value(d.skip(8)));
    assert(text_value(d.skip(6)) == digit_value(d[6]) * 1000 + text_value(d.skip(7)));
    assert(text_value(d.skip(5)) == digit_value(d[5]) * 10000 + text_value(d.skip(6)));
    assert(text_value(d.skip(4)) == digit_value(d[4]) * 100000 + text_value(d.skip(5)));
    assert(text_value(d.skip(3)) == digit_value(d[3]) * 1000000 + text_value(d.skip(4)));
    assert(text_value(d.skip(2)) == digit_value(d[2]) * 10000000 + text_value(d.skip(3)));
    assert(text_value(d.skip(1)) == digit_value(d[1]) * 100000000 + text_value(d.skip(2)));
    assert(text_value(d.skip(0)) == digit_value(d[0]) * 1000000000 + text_value(d.skip(1)));
    assert(d.skip(0) =~= d);
}

proof fn lemma_digit_char_value(n: nat)
    requires
        n < 10,
    ensures
        is_digit(digit_char(n)),
        digit_value(digit_char(n)) == n,
{
}

proof fn lemma_first_day_text(year: nat, month: nat)
    requires
        year <= 9999,
        1 <= month <= 12,
    ensures
        is_date_text(first_day_text(year, month)),
        year_of(first_day_text(year, month)) == year,
        month_of(first_day_text(year, month)) == month,
        day_of(first_day_text(year, month)) == 1,
{
    let y3 = year / 1000;
    let y2 = (year / 100) % 10;
    let y1 = (year / 10) % 10;
    let y0 = year % 10;
    assert(year / 10 / 10 == year / 100);
    assert(year / 100 / 10 == year / 1000);
    assert(padded(year, 4) == padded(year / 10, 3).push(digit_char(y0)));
    assert(padded(year / 10, 3) == padded(year / 100, 2).push(digit_char(y1)));
    assert(padded(year / 100, 2) == padded(year / 1000, 1).push(digit_char(y2)));
    assert(padded(year / 1000, 1) == seq![digit_char(y3)]);
    assert(padded(year, 4) =~= seq![digit_char(y3), digit_char(y2), digit_char(y1), digit_char(y0)]);
    let m1 = month / 10;
    let m0 = month % 10;
    assert(padded(month, 2) == padded(m1, 1).push(digit_char(m0)));
    assert(padded(m1, 1) == seq![digit_char(m1)]);
    assert(padded(month, 2) =~= seq![digit_char(m1), digit_char(m0)]);
    let t = first_day_text(year, month);
    assert(t =~= seq![
        digit_char(y3), digit_char(y2), digit_char(y1), digit_char(y0), '-',
        digit_char(m1), digit_char(m0), '-', '0', '1',
    ]);
    lemma_digit_char_value(y3);
    lemma_digit_char_value(y2);
    lemma_digit_char_value(y1);
    lemma_digit_char_value(y0);
    lemma_digit_char_value(m1);
    lemma_digit_char_value(m0);
}

proof fn lemma_date_shapes_agree(a: Seq<char>, b: Seq<char>)
    requires
        has_date_shape(a),
        has_date_shape(b),
    ensures
        same_shape(a, b),
{
}

/// A well-formed date lies in the range of a month exactly when its year and
/// month are that month's: the first and the last day of the month are in the
/// range, the first day of the next month is not.
pub proof fn lemma_month_range_holds_month(year: nat, month: nat, d: Seq<char>)
    requires
        year <= 9999,
        1 <= month <= 12,
        is_date_text(d),
    ensures
        in_month(d, year, month) <==> (year_of(d) == year && month_of(d) == month),
{
    let (ny, nm) = next_month(year, month);
    let s = first_day_text(year, month);
    let e = first_day_text(ny, nm);
    lemma_first_day_text(year, month);
    lemma_date_shapes_agree(s, d);
    lemma_text_order_is_value_order(s, d);
    lemma_text_order_is_value_order(d, s);
    lemma_text_lt_total(s, d);
    lemma_text_lt_irreflexive(s);
    lemma_date_value(s);
    lemma_date_value(d);
    if !is_last_month(year, month) {
        lemma_first_day_text(ny, nm);
        lemma_date_shapes_agree(d, e);
        lemma_text_order_is_value_order(d, e);
        lemma_date_value(e);
    }
}

} // verus!
