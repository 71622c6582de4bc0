use vstd::prelude::*;
use vstd::string::StringExecFns;

use crate::account::{Account, AccountView};

verus! {

/// The character for one decimal digit.
pub open spec fn digit_char(d: nat) -> char {
    if d == 0 {
        '0'
    } else if d == 1 {
        '1'
    } else if d == 2 {
        '2'
    } else if d == 3 {
        '3'
    } else if d == 4 {
        '4'
    } else if d == 5 {
        '5'
    } else if d == 6 {
        '6'
    } else if d == 7 {
        '7'
    } else if d == 8 {
        '8'
    } else {
        '9'
    }
}

/// The decimal numeral of `n`, most significant digit first, no sign and
/// no leading zeros (`0` itself is the single digit `0`).
pub open spec fn dec_digits(n: nat) -> Seq<char>
    decreases n,
{
    if n < 10 {
        seq![digit_char(n)]
    } else {
        dec_digits(n / 10).push(digit_char(n % 10))
    }
}

/// The fractional digits of a balance, out of its value in ten-thousandths
/// `f`: four digits, trailing zeros dropped, at least one digit kept.
pub open spec fn frac_digits(f: nat) -> Seq<char> {
    let d3 = f / 1000 % 10;
    let d2 = f / 100 % 10;
    let d1 = f / 10 % 10;
    let d0 = f % 10;
    if d0 != 0 {
        seq![digit_char(d3), digit_char(d2), digit_char(d1), digit_char(d0)]
    } else if d1 != 0 {
        seq![digit_char(d3), digit_char(d2), digit_char(d1)]
    } else if d2 != 0 {
        seq![digit_char(d3), digit_char(d2)]
    } else {
        seq![digit_char(d3)]
    }
}

pub open spec fn money_mag(v: int) -> nat {
    if v < 0 {
        (-v) as nat
    } else {
        v as nat
    }
}

/// A balance in raw fixed-point units rendered as a decimal numeral:
/// truncated — never rounded — to four fractional digits, with trailing
/// zeros dropped but at least one fractional digit kept.
pub open spec fn money_str(v: int) -> Seq<char> {
    let t = money_mag(v) / 10000;
    let sign: Seq<char> = if v < 0 {
        seq!['-']
    } else {
        Seq::empty()
    };
    sign + dec_digits(t / 10000) + seq!['.'] + frac_digits(t % 10000)
}

pub open spec fn bool_str(b: bool) -> Seq<char> {
    if b {
        "true"@
    } else {
        "false"@
    }
}

/// One report row: client id, the three balances, the lock flag.
pub open spec fn row_str(a: AccountView) -> Seq<char> {
    dec_digits(a.client as nat) + seq![','] + money_str(a.available) + seq![','] + money_str(
        a.held,
    ) + seq![','] + money_str(a.total) + seq![','] + bool_str(a.locked) + seq!['\n']
}

/// All report rows, in the book's own order.
pub open spec fn rows_str(book: Seq<AccountView>) -> Seq<char>
    decreases book.len(),
{
    if book.len() == 0 {
        Seq::empty()
    } else {
        rows_str(book.drop_last()) + row_str(book.last())
    }
}

/// The whole report: a header line, then one row per account.
pub open spec fn csv_str(book: Seq<AccountView>) -> Seq<char> {
    "client,available,held,total,locked\n"@ + rows_str(book)
}

fn digit_to_str(d: u64) -> (r: &'static str)
    requires
        d < 10,
    ensures
        r@ == seq![digit_char(d as nat)],
{
    proof {
        reveal_strlit("0");
        reveal_strlit("1");
        reveal_strlit("2");
        reveal_strlit("3");
        reveal_strlit("4");
        reveal_strlit("5");
        reveal_strlit("6");
        reveal_strlit("7");
        reveal_strlit("8");
        reveal_strlit("9");
    }
    let r = match d {
        0 => "0",
        1 => "1",
        2 => "2",
        3 => "3",
        4 => "4",
        5 => "5",
        6 => "6",
        7 => "7",
        8 => "8",
        _ => "9",
    };
    proof {
        assert(r@ =~= seq![digit_char(d as nat)]);
    }
    r
}

fn dec_to_string(n: u128) -> (r: String)
    ensures
        r@ == dec_digits(n as nat),
    decreases n,
{
    if n < 10 {
        digit_to_str(n as u64).to_owned()
    } else {
        proof {
            assert(n / 10 < n) by (nonlinear_arith)
                requires
                    n >= 10,
            ;
        }
        let mut s = dec_to_string(n / 10);
        s.append(digit_to_str((n % 10) as u64));
        proof {
            assert(s@ =~= dec_digits(n as nat));
        }
        s
    }
}

fn frac_to_string(f: u64) -> (r: String)
    requires
        f < 10000,
    ensures
        r@ == frac_digits(f as nat),
{
    let d3 = f / 1000 % 10;
    let d2 = f / 100 % 10;
    let d1 = f / 10 % 10;
    let d0 = f % 10;
    let mut s = digit_to_str(d3).to_owned();
    if d2 != 0 || d1 != 0 || d0 != 0 {
        s.append(digit_to_str(d2));
    }
    if d1 != 0 || d0 != 0 {
        s.append(digit_to_str(d1));
    }
    if d0 != 0 {
        s.append(digit_to_str(d0));
    }
    proof {
        assert(s@ =~= frac_digits(f as nat));
    }
    s
}

/// A balance rendered for the report, in the format `csv_str` promises.
pub fn money_to_string(v: i128) -> (r: String)
    ensures
        r@ == money_str(v as int),
{
    let neg = v < 0;
    let mag: u128 = if v >= 0 {
        v as u128
    } else {
        (-(v + 1)) as u128 + 1
    };
    proof {
        assert(mag == money_mag(v as int));
    }
    let t = mag / 10000;
    let whole = t / 10000;
    let frac = (t % 10000) as u64;
    let mut s = if neg {
        "-".to_owned()
    } else {
        "".to_owned()
    };
    s.append(dec_to_string(whole).as_str());
    s.append(".");
    s.append(frac_to_string(frac).as_str());
    proof {
        reveal_strlit("-");
        reveal_strlit("");
        reveal_strlit(".");
        assert(s@ =~= money_str(v as int));
    }
    s
}

pub(crate) fn row_to_string(a: &Account) -> (r: String)
    ensures
        r@ == row_str(a@),
{
    let mut s = dec_to_string(a.client() as u128);
    s.append(",");
    s.append(money_to_string(a.available()).as_str());
    s.append(",");
    s.append(money_to_string(a.held()).as_str());
    s.append(",");
    s.append(money_to_string(a.total()).as_str());
    s.append(",");
    if a.locked() {
        s.append("true");
    } else {
        s.append("false");
    }
    s.append("\n");
    proof {
        reveal_strlit(",");
        reveal_strlit("\n");
        assert(s@ =~= row_str(a@));
    }
    s
}

} // verus!
