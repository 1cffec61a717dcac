//! Small verified helpers on strings: equality of character sequences and
//! decimal rendering of integers.

use vstd::prelude::*;
use vstd::string::StrSliceExecFns;
use vstd::string::StringExecFns;

verus! {

/// Decides view equality of two string slices, character by character.
pub fn str_eq(a: &str, b: &str) -> (r: bool)
    ensures
        r == (a@ == b@),
{
    let na: usize = a.unicode_len();
    let nb: usize = b.unicode_len();
    if na != nb {
        return false;
    }
    let mut i: usize = 0;
    while i < na
        invariant
            i <= na,
            na == a@.len(),
            nb == b@.len(),
            na == nb,
            forall|j: int| 0 <= j < i ==> a@[j] == b@[j],
        decreases na - i,
    {
        if a.get_char(i) != b.get_char(i) {
            return false;
        }
        i = i + 1;
    }
    proof {
        assert(a@ =~= b@);
    }
    true
}

/// The one-character decimal image of a digit.
pub open spec fn dig(d: nat) -> Seq<char> {
    if d == 0 {
        "0"@
    } else if d == 1 {
        "1"@
    } else if d == 2 {
        "2"@
    } else if d == 3 {
        "3"@
    } else if d == 4 {
        "4"@
    } else if d == 5 {
        "5"@
    } else if d == 6 {
        "6"@
    } else if d == 7 {
        "7"@
    } else if d == 8 {
        "8"@
    } else {
        "9"@
    }
}

/// Decimal image of a natural number, most significant digit first.
pub open spec fn u64_dec(n: nat) -> Seq<char>
    decreases n,
{
    if n < 10 {
        dig(n)
    } else {
        u64_dec(n / 10) + dig(n % 10)
    }
}

/// Decimal image of a signed integer: a minus sign before the magnitude when
/// negative.
pub open spec fn i64_dec(n: int) -> Seq<char> {
    if n < 0 {
        "-"@ + u64_dec((-n) as nat)
    } else {
        u64_dec(n as nat)
    }
}

/// The one-character image of a digit is that digit's character.
pub proof fn lemma_dig_char(d: nat)
    requires
        d < 10,
    ensures
        dig(d).len() == 1,
        dig(d)[0] as int == d + 48,
{
    reveal_strlit("0");
    reveal_strlit("1");
    reveal_strlit("2");
    reveal_strlit("3");
    reveal_strlit("4");
    reveal_strlit("5");
    reveal_strlit("6");
    reveal_strlit("7");
    reveal_strlit("8");
    reveal_strlit("9");
}

/// A decimal rendering is never empty and holds digit characters alone.
pub proof fn lemma_u64_dec_shape(n: nat)
    ensures
        u64_dec(n).len() >= 1,
        forall|k: int|
            0 <= k < u64_dec(n).len() ==> 48 <= #[trigger] u64_dec(n)[k] as int <= 57,
    decreases n,
{
    if n < 10 {
        lemma_dig_char(n);
    } else {
        lemma_u64_dec_shape(n / 10);
        lemma_dig_char(n % 10);
        assert forall|k: int|
            0 <= k < u64_dec(n).len() implies 48 <= #[trigger] u64_dec(n)[k] as int <= 57 by {
            if k < u64_dec(n / 10).len() {
                assert(u64_dec(n)[k] == u64_dec(n / 10)[k]);
            } else {
                assert(u64_dec(n)[k] == dig(n % 10)[k - u64_dec(n / 10).len()]);
            }
        }
    }
}

/// The decimal digit `d` as a string slice.
fn digit_to_str(d: u64) -> (r: &'static str)
    requires
        d < 10,
    ensures
        r@ == dig(d as nat),
{
    match d {
        0 => "0",
        1 => "1",
        2 => "2",
        3 => "3",
        4 => "4",
        5 => "5",
        6 => "6",
        7 => "7",
        8 => "8",
        _ => "9",
    }
}

/// Renders a natural number in decimal.
pub fn u64_dec_string(n: u64) -> (r: String)
    ensures
        r@ == u64_dec(n as nat),
    decreases n,
{
    if n < 10 {
        digit_to_str(n).to_owned()
    } else {
        let mut s = u64_dec_string(n / 10);
        s.append(digit_to_str(n % 10));
        s
    }
}

/// Renders a signed integer in decimal.
pub fn i64_dec_string(n: i64) -> (r: String)
    ensures
        r@ == i64_dec(n as int),
{
    if n >= 0 {
        u64_dec_string(n as u64)
    } else {
        let m: i64 = -(n + 1);
        let mag: u64 = (m as u64) + 1;
        proof {
            assert(mag as int == -(n as int));
        }
        let mut s = String::new();
        s.append("-");
        s.append(u64_dec_string(mag).as_str());
        s
    }
}

} // verus!
