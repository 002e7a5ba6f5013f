use vstd::prelude::*;
use crate::parse::{dec_digits, format_u64};

verus! {

/// The decimal numeral of a signed value: a minus sign ahead of the digits
/// when negative.
pub open spec fn int_digits(n: int) -> Seq<char> {
    if n < 0 {
        seq!['-'] + dec_digits(-n)
    } else {
        dec_digits(n)
    }
}

/// Renders a signed value as its decimal numeral.
pub fn format_i32(n: i32) -> (r: String)
    ensures
        r@ == int_digits(n as int),
{
    if n >= 0 {
        let r = format_u64(n as u64);
        r
    } else {
        let mut s = "-".to_owned();
        let digits = format_u64((-(n as i64)) as u64);
        s.append(digits.as_str());
        proof {
            reveal_strlit("-");
            assert(s@ =~= seq!['-'] + dec_digits(-(n as int)));
        }
        s
    }
}

/// The spreadsheet footer row of a report with `rows` filled rows: empty
/// cells but for two sum formulas, one over the native-amount column and one
/// over the fiat column.
pub fn footer(rows: i32) -> (r: Vec<String>)
    ensures
        r@.len() == 7,
        r@[0]@ == Seq::<char>::empty(),
        r@[1]@ == Seq::<char>::empty(),
        r@[2]@ == Seq::<char>::empty(),
        r@[3]@ == Seq::<char>::empty(),
        r@[4]@ == "=SUM(E2:E"@ + int_digits(rows as int) + ")"@,
        r@[5]@ == Seq::<char>::empty(),
        r@[6]@ == "=SUM(G2:G"@ + int_digits(rows as int) + ")"@,
{
    let digits = format_i32(rows);
    let mut native_sum = "=SUM(E2:E".to_owned();
    native_sum.append(digits.as_str());
    native_sum.append(")");
    let mut fiat_sum = "=SUM(G2:G".to_owned();
    fiat_sum.append(digits.as_str());
    fiat_sum.append(")");
    proof {
        assert(native_sum@ =~= "=SUM(E2:E"@ + int_digits(rows as int) + ")"@);
        assert(fiat_sum@ =~= "=SUM(G2:G"@ + int_digits(rows as int) + ")"@);
    }
    let mut r: Vec<String> = Vec::new();
    r.push(String::new());
    r.push(String::new());
    r.push(String::new());
    r.push(String::new());
    r.push(native_sum);
    r.push(String::new());
    r.push(fiat_sum);
    r
}

} // verus!
