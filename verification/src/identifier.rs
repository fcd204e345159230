//! Classification of bibliographic identifiers by digit count and checksum.

use vstd::prelude::*;
use vstd::string::*;
use crate::error::CatalogError;

verus! {

/// The kinds of identifier a book can carry.
#[derive(Debug, Clone, Copy, PartialEq, Eq, Structural)]
pub enum IdentifierKind {
    Isbn10,
    Isbn13,
    Ean13,
    Unknown,
}

/// Whether `c` is one of the ten decimal digits.
pub open spec fn is_digit(c: char) -> bool {
    '0' <= c && c <= '9'
}

/// The value of a decimal digit.
pub open spec fn digit_value(c: char) -> int {
    c as int - 48
}

/// The values of the decimal digits of `s`, in order; every other character is dropped.
pub open spec fn digits_of(s: Seq<char>) -> Seq<int>
    decreases s.len(),
{
    if s.len() == 0 {
        Seq::empty()
    } else if is_digit(s.last()) {
        digits_of(s.drop_last()).push(digit_value(s.last()))
    } else {
        digits_of(s.drop_last())
    }
}

/// The weight of the digit at index `i` in the EAN-13 checksum.
pub open spec fn ean_weight(i: int) -> int {
    if i % 2 == 0 { 1 } else { 3 }
}

/// The weighted sum of the first `n` digits of `d`.
pub open spec fn weighted_sum(d: Seq<int>, n: nat) -> int
    decreases n,
{
    if n == 0 {
        0
    } else {
        weighted_sum(d, (n - 1) as nat) + d[n - 1] * ean_weight(n - 1)
    }
}

/// The check digit that the first twelve digits of `d` call for.
pub open spec fn ean13_check_digit(d: Seq<int>) -> int {
    (10 - weighted_sum(d, 12) % 10) % 10
}

/// Thirteen digits whose last one is the EAN-13 check digit of the others.
pub open spec fn is_ean13_digits(d: Seq<int>) -> bool {
    d.len() == 13 && d[12] == ean13_check_digit(d)
}

/// The kind of an identifier, decided on its digits alone.
pub open spec fn classify_spec(s: Seq<char>) -> Result<IdentifierKind, CatalogError> {
    let d = digits_of(s);
    if d.len() == 10 {
        Ok(IdentifierKind::Isbn10)
    } else if d.len() == 13 {
        if is_ean13_digits(d) {
            Ok(IdentifierKind::Ean13)
        } else {
            Ok(IdentifierKind::Isbn13)
        }
    } else {
        Err(CatalogError::InvalidIdentifierLength)
    }
}

/// The name under which a kind is stored.
pub open spec fn kind_name(k: IdentifierKind) -> Seq<char> {
    match k {
        IdentifierKind::Isbn10 => "ISBN_10"@,
        IdentifierKind::Isbn13 => "ISBN_13"@,
        IdentifierKind::Ean13 => "EAN_13"@,
        IdentifierKind::Unknown => "UNKNOWN"@,
    }
}

impl IdentifierKind {
    /// The name under which this kind is stored.
    pub fn as_str(&self) -> (r: &'static str)
        ensures
            r@ == kind_name(*self),
    {
        match self {
            IdentifierKind::Isbn10 => "ISBN_10",
            IdentifierKind::Isbn13 => "ISBN_13",
            IdentifierKind::Ean13 => "EAN_13",
            IdentifierKind::Unknown => "UNKNOWN",
        }
    }
}

/// Collects the digit values of `identifier`.
fn digits(identifier: &str) -> (r: Vec<u8>)
    ensures
        r@.len() == digits_of(identifier@).len(),
        forall|i: int| 0 <= i < r@.len() ==> #[trigger] r@[i] as int == digits_of(identifier@)[i],
        forall|i: int| 0 <= i < r@.len() ==> 0 <= #[trigger] digits_of(identifier@)[i] <= 9,
{
    let n: usize = identifier.unicode_len();
    let mut out: Vec<u8> = Vec::new();
    let mut i: usize = 0;
    assert(identifier@.subrange(0, 0) =~= Seq::<char>::empty());
    while i < n
        invariant
            n == identifier@.len(),
            0 <= i <= n,
            out@.len() == digits_of(identifier@.subrange(0, i as int)).len(),
            forall|k: int| 0 <= k < out@.len() ==> #[trigger] out@[k] as int == digits_of(
                identifier@.subrange(0, i as int),
            )[k],
            forall|k: int| 0 <= k < out@.len() ==> 0 <= #[trigger] digits_of(
                identifier@.subrange(0, i as int),
            )[k] <= 9,
        decreases n - i,
    {
        let c: char = identifier.get_char(i);
        proof {
            let next = identifier@.subrange(0, i + 1);
            assert(next.drop_last() =~= identifier@.subrange(0, i as int));
            assert(next.last() == c);
        }
        if c >= '0' && c <= '9' {
            let v: u8 = (c as u8) - 48;
            out.push(v);
        }
        i = i + 1;
    }
    assert(identifier@.subrange(0, n as int) =~= identifier@);
    out
}

/// Computes the weighted sum of the first twelve digits.
fn checksum(d: &Vec<u8>) -> (r: u32)
    requires
        d@.len() >= 12,
        forall|i: int| 0 <= i < d@.len() ==> #[trigger] d@[i] <= 9,
    ensures
        r as int == weighted_sum(d@.map_values(|v: u8| v as int), 12),
{
    let ghost m = d@.map_values(|v: u8| v as int);
    let mut sum: u32 = 0;
    let mut i: usize = 0;
    while i < 12
        invariant
            0 <= i <= 12,
            d@.len() >= 12,
            m == d@.map_values(|v: u8| v as int),
            forall|k: int| 0 <= k < d@.len() ==> #[trigger] d@[k] <= 9,
            sum as int == weighted_sum(m, i as nat),
            0 <= sum <= 27 * i,
        decreases 12 - i,
    {
        let w: u32 = if i % 2 == 0 { 1 } else { 3 };
        assert(m[i as int] == d@[i as int] as int);
        sum = sum + (d[i] as u32) * w;
        i = i + 1;
    }
    sum
}

/// Whether `identifier` holds exactly thirteen digits of which the last is
/// the EAN-13 check digit of the first twelve.
pub fn is_ean13(identifier: &str) -> (r: bool)
    ensures
        r == is_ean13_digits(digits_of(identifier@)),
{
    let d = digits(identifier);
    if d.len() != 13 {
        return false;
    }
    let sum = checksum(&d);
    let check: u32 = (10 - (sum % 10)) % 10;
    proof {
        assert(d@.map_values(|v: u8| v as int) =~= digits_of(identifier@));
    }
    d[12] as u32 == check
}

/// Classifies `identifier` by its digits: ten make an ISBN-10, thirteen an
/// EAN-13 where the checksum holds and an ISBN-13 where it does not; any
/// other count is rejected.
pub fn classify(identifier: &str) -> (r: Result<IdentifierKind, CatalogError>)
    ensures
        r == classify_spec(identifier@),
{
    let d = digits(identifier);
    if d.len() == 10 {
        Ok(IdentifierKind::Isbn10)
    } else if d.len() == 13 {
        if is_ean13(identifier) {
            Ok(IdentifierKind::Ean13)
        } else {
            Ok(IdentifierKind::Isbn13)
        }
    } else {
        Err(CatalogError::InvalidIdentifierLength)
    }
}

/// The stored name of the kind of `identifier`, or the reason it has none.
pub fn get_identifier_type(identifier: &str) -> (r: Result<&'static str, CatalogError>)
    ensures
        match classify_spec(identifier@) {
            Ok(k) => r is Ok && r->Ok_0@ == kind_name(k),
            Err(e) => r == Err::<&'static str, CatalogError>(e),
        },
{
    match classify(identifier) {
        Ok(k) => Ok(k.as_str()),
        Err(e) => Err(e),
    }
}

} // verus!
