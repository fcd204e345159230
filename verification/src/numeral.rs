//! Decimal numerals of integers.

use vstd::prelude::*;
use vstd::string::*;

verus! {

/// The character of the decimal digit `d`.
pub open spec fn digit_char(d: int) -> char {
    ((48 + d) as u8) as char
}

/// The decimal numeral of `n`, without leading zeros.
pub open spec fn nat_text(n: nat) -> Seq<char>
    decreases n,
{
    if n < 10 {
        seq![digit_char(n as int)]
    } else {
        nat_text(n / 10).push(digit_char((n % 10) as int))
    }
}

/// The decimal numeral of `n`, with a minus sign where `n` is negative.
pub open spec fn int_text(n: int) -> Seq<char> {
    if n < 0 {
        seq!['-'] + nat_text((-n) as nat)
    } else {
        nat_text(n as nat)
    }
}

/// The characters of the digits `ds`, last digit first.
pub open spec fn backwards(ds: Seq<u8>) -> Seq<char>
    decreases ds.len(),
{
    if ds.len() == 0 {
        Seq::empty()
    } else {
        seq![digit_char(ds.last() as int)] + backwards(ds.drop_last())
    }
}

/// The character at each place of `backwards(ds)`.
proof fn lemma_backwards(ds: Seq<u8>)
    ensures
        backwards(ds).len() == ds.len(),
        forall|j: int|
            0 <= j < ds.len() ==> #[trigger] backwards(ds)[j] == digit_char(
                ds[ds.len() - 1 - j] as int,
            ),
    decreases ds.len(),
{
    if ds.len() > 0 {
        lemma_backwards(ds.drop_last());
    }
}

/// The digit `d` as a string.
fn digit_str(d: u8) -> (r: &'static str)
    requires
        d < 10,
    ensures
        r@ == seq![digit_char(d as int)],
{
    proof {
        reveal_strlit("0");
        reveal_strlit("1");
        reveal_strlit("2");
        reveal_strlit("3");
        reveal_strlit("4");
        reveal_strlit("5");
        reveal_strlit("6");
        reveal_strlit("7");
        reveal_strlit("8");
        reveal_strlit("9");
    }
    let r = if d == 0 {
        "0"
    } else if d == 1 {
        "1"
    } else if d == 2 {
        "2"
    } else if d == 3 {
        "3"
    } else if d == 4 {
        "4"
    } else if d == 5 {
        "5"
    } else if d == 6 {
        "6"
    } else if d == 7 {
        "7"
    } else if d == 8 {
        "8"
    } else {
        "9"
    };
    assert(r@ =~= seq![digit_char(d as int)]);
    r
}

/// The decimal numeral of `n`.
pub fn decimal(n: i64) -> (s: String)
    ensures
        s@ == int_text(n as int),
{
    let negative = n < 0;
    let magnitude: u64 = if negative {
        ((-(n + 1)) as u64) + 1
    } else {
        n as u64
    };
    let mut m: u64 = magnitude;
    let mut ds: Vec<u8> = Vec::new();
    assert(nat_text(magnitude as nat) =~= nat_text(m as nat) + backwards(ds@));
    while m >= 10
        invariant
            nat_text(magnitude as nat) == nat_text(m as nat) + backwards(ds@),
            forall|k: int| 0 <= k < ds@.len() ==> #[trigger] ds@[k] < 10,
        decreases m,
    {
        let ghost before = ds@;
        let d: u8 = (m % 10) as u8;
        ds.push(d);
        proof {
            assert(ds@.drop_last() =~= before);
            assert(nat_text(m as nat) == nat_text((m / 10) as nat).push(digit_char(d as int)));
            assert(nat_text((m / 10) as nat).push(digit_char(d as int)) + backwards(before)
                =~= nat_text((m / 10) as nat) + backwards(ds@));
        }
        m = m / 10;
    }
    let ghost before = ds@;
    ds.push(m as u8);
    proof {
        assert(ds@.drop_last() =~= before);
        assert(nat_text(magnitude as nat) =~= backwards(ds@));
        lemma_backwards(ds@);
    }
    let mut out = String::new();
    if negative {
        out.append("-");
        proof {
            reveal_strlit("-");
        }
        assert(out@ =~= seq!['-']);
    }
    let ghost sign = out@;
    let total: usize = ds.len();
    let mut k: usize = 0;
    assert(out@ =~= sign + backwards(ds@).subrange(0, 0));
    while k < total
        invariant
            0 <= k <= total,
            total == ds@.len(),
            backwards(ds@).len() == ds@.len(),
            forall|j: int| 0 <= j < ds@.len() ==> #[trigger] ds@[j] < 10,
            forall|j: int|
                0 <= j < ds@.len() ==> #[trigger] backwards(ds@)[j] == digit_char(
                    ds@[ds@.len() - 1 - j] as int,
                ),
            out@ == sign + backwards(ds@).subrange(0, k as int),
        decreases total - k,
    {
        let d: u8 = ds[total - 1 - k];
        out.append(digit_str(d));
        assert(out@ =~= sign + backwards(ds@).subrange(0, k + 1));
        k = k + 1;
    }
    assert(backwards(ds@).subrange(0, total as int) =~= backwards(ds@));
    out
}

} // verus!
