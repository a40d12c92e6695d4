//! Text helpers: decimal notation of numbers and comparison of texts.

use vstd::prelude::*;

verus! {

/// text of a decimal digit
pub open spec fn digit_str(d: nat) -> Seq<char> {
    if d == 0 { "0"@ }
    else if d == 1 { "1"@ }
    else if d == 2 { "2"@ }
    else if d == 3 { "3"@ }
    else if d == 4 { "4"@ }
    else if d == 5 { "5"@ }
    else if d == 6 { "6"@ }
    else if d == 7 { "7"@ }
    else if d == 8 { "8"@ }
    else { "9"@ }
}

/// decimal notation of a natural number, without leading zeros
pub open spec fn decimal(n: nat) -> Seq<char>
    decreases n,
{
    if n < 10 {
        digit_str(n)
    } else {
        decimal(n / 10) + digit_str(n % 10)
    }
}

/// decimal notation of an integer, with a minus sign when it is negative
pub open spec fn int_decimal(x: int) -> Seq<char> {
    if x < 0 {
        "-"@ + decimal((-x) as nat)
    } else {
        decimal(x as nat)
    }
}

/// appends the decimal notation of `n`
pub fn append_decimal(n: u64, res: &mut String)
    ensures
        final(res)@ == old(res)@ + decimal(n as nat),
    decreases n,
{
    if n >= 10 {
        append_decimal(n / 10, res);
    }
    let d = n % 10;
    if d == 0 { res.append("0"); }
    else if d == 1 { res.append("1"); }
    else if d == 2 { res.append("2"); }
    else if d == 3 { res.append("3"); }
    else if d == 4 { res.append("4"); }
    else if d == 5 { res.append("5"); }
    else if d == 6 { res.append("6"); }
    else if d == 7 { res.append("7"); }
    else if d == 8 { res.append("8"); }
    else { res.append("9"); }
    proof {
        if n >= 10 {
            assert(final(res)@ =~= old(res)@ + decimal(n as nat));
        }
    }
}

/// appends the decimal notation of `x`
pub fn append_i64(x: i64, res: &mut String)
    ensures
        final(res)@ == old(res)@ + int_decimal(x as int),
{
    if x < 0 {
        res.append("-");
        let m: u64 = if x == i64::MIN { 9223372036854775808u64 } else { (-x) as u64 };
        append_decimal(m, res);
        assert(final(res)@ =~= old(res)@ + int_decimal(x as int));
    } else {
        append_decimal(x as u64, res);
    }
}

/// do two texts hold the same characters?
pub fn str_eq(a: &str, b: &str) -> (r: bool)
    ensures
        r == (a@ == b@),
{
    let n = a.unicode_len();
    if n != b.unicode_len() {
        return false;
    }
    let mut i: usize = 0;
    while i < n
        invariant
            n == a@.len(),
            n == b@.len(),
            i <= n,
            forall|j: int| 0 <= j < i ==> a@[j] == b@[j],
        decreases n - i,
    {
        if a.get_char(i) != b.get_char(i) {
            return false;
        }
        i += 1;
    }
    assert(a@ =~= b@);
    true
}

} // verus!
