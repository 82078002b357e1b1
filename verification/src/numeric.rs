//! The numeric width resolver: a decimal integer parser that knows the
//! exact value it reads, and the escalation ladder that assigns an
//! integer token the narrowest signed width (32, 64, then 128 bits) able
//! to represent it. A token beyond the widest rung is the fatal
//! integer-overflow condition for the inference pass.

use vstd::prelude::*;

use crate::classify::{all_digits, is_digit, is_int_token, unsigned_part};
use crate::infer::InferError;
use crate::rank::Codes;

verus! {

/// The numeric value of a digit character.
pub open spec fn digit_val(c: char) -> int {
    c as u32 - '0' as u32
}

/// The value of a digit string read in base ten; garbage characters make
/// this meaningless, so it is only spoken of under `all_digits`.
pub open spec fn digits_val(s: Seq<char>) -> int
    decreases s.len(),
{
    if s.len() == 0 {
        0
    } else {
        10 * digits_val(s.drop_last()) + digit_val(s.last())
    }
}

/// The token with one leading plus or minus sign removed: the sign grammar
/// of the standard library's integer parsing, which accepts both signs,
/// unlike the classifier's integer shape, which accepts only a minus.
pub open spec fn signless_part(s: Seq<char>) -> Seq<char> {
    if s.len() > 0 && (s[0] == '-' || s[0] == '+') {
        s.skip(1)
    } else {
        s
    }
}

/// Whether the token is an optional sign followed by one or more digits:
/// the shape the standard library's integer parsing accepts, overflow
/// aside.
pub open spec fn is_parseable_int(s: Seq<char>) -> bool {
    signless_part(s).len() > 0 && all_digits(signless_part(s))
}

/// The signed value of an integer token.
pub open spec fn int_token_val(s: Seq<char>) -> int {
    if s.len() > 0 && s[0] == '-' {
        -digits_val(signless_part(s))
    } else {
        digits_val(signless_part(s))
    }
}

pub open spec fn fits_i32(v: int) -> bool {
    i32::MIN as int <= v && v <= i32::MAX as int
}

pub open spec fn fits_i64(v: int) -> bool {
    i64::MIN as int <= v && v <= i64::MAX as int
}

pub open spec fn fits_i128(v: int) -> bool {
    i128::MIN as int <= v && v <= i128::MAX as int
}

/// Every integer-shaped token of the classifier is also parseable as an
/// integer, with the same value.
pub proof fn lemma_int_shape_parseable(s: Seq<char>)
    requires
        is_int_token(s),
    ensures
        is_parseable_int(s),
        signless_part(s) == unsigned_part(s),
{
    if s.len() > 0 && s[0] == '+' {
        assert(!is_digit(s[0]));
    }
}

/// Appending one character multiplies the read value by ten and adds the
/// character's digit value.
proof fn lemma_digits_val_take_succ(s: Seq<char>, j: int)
    requires
        0 <= j < s.len(),
    ensures
        digits_val(s.take(j + 1)) == 10 * digits_val(s.take(j)) + digit_val(s[j]),
{
    assert(s.take(j + 1).drop_last() =~= s.take(j));
    assert(s.take(j + 1).last() == s[j]);
}

/// Once the value read from a prefix is large, reading on can only keep it
/// large: each step multiplies by ten and adds at least -48.
proof fn lemma_digits_val_grows(s: Seq<char>, i: int, j: int)
    requires
        0 <= i <= j <= s.len(),
        digits_val(s.take(i)) >= 6,
    ensures
        digits_val(s.take(j)) >= digits_val(s.take(i)),
    decreases j - i,
{
    if i < j {
        lemma_digits_val_grows(s, i, j - 1);
        lemma_digits_val_take_succ(s, j - 1);
        let v = digits_val(s.take(j - 1));
        assert(digit_val(s[j - 1]) >= 0 - 48);
        assert(10 * v + digit_val(s[j - 1]) >= v);
    }
}

/// Parses a decimal integer token into the widest supported signed width.
/// Returns the token's exact value when the token is sign-plus-digits and
/// the value fits; `None` on any other text and on overflow.
pub fn parse_i128(s: &str) -> (r: Option<i128>)
    ensures
        is_parseable_int(s@) && fits_i128(int_token_val(s@)) ==> (r matches Some(v) && v as int
            == int_token_val(s@)),
        !(is_parseable_int(s@) && fits_i128(int_token_val(s@))) ==> r is None,
{
    let n = s.unicode_len();
    if n == 0 {
        return None;
    }
    let c0 = s.get_char(0);
    let neg = c0 == '-';
    let start: usize = if c0 == '-' || c0 == '+' {
        1
    } else {
        0
    };
    let ghost d = signless_part(s@);
    proof {
        assert(d =~= s@.skip(start as int));
    }
    if n == start {
        return None;
    }
    // The magnitude bound: 2^127 for a negative value, 2^127 - 1 otherwise.
    // Both bounds are ten times this common quotient plus a final digit.
    let last_max: u128 = if neg {
        8
    } else {
        7
    };
    let mut acc: u128 = 0;
    let mut i = start;
    while i < n
        invariant
            n == s@.len(),
            start <= i <= n,
            start <= 1,
            d == s@.skip(start as int),
            d == signless_part(s@),
            neg == (s@.len() > 0 && s@[0] == '-'),
            last_max == (if neg {
                8u128
            } else {
                7u128
            }),
            forall|j: int| 0 <= j < i - start ==> is_digit(#[trigger] d[j]),
            acc as int == digits_val(d.take(i - start)),
            acc <= 170141183460469231731687303715884105720 + last_max,
        decreases n - i,
    {
        let c = s.get_char(i);
        if !('0' <= c && c <= '9') {
            proof {
                assert(!is_digit(d[i - start]));
            }
            return None;
        }
        let dv: u128 = (c as u32 - 48) as u128;
        if acc > 17014118346046923173168730371588410572 || (acc
            == 17014118346046923173168730371588410572 && dv > last_max) {
            proof {
                let j = i - start;
                lemma_digits_val_take_succ(d, j);
                assert(digits_val(d.take(j + 1)) == 10 * (acc as int) + dv as int);
                assert(digits_val(d.take(j + 1)) > 170141183460469231731687303715884105720
                    + last_max);
                lemma_digits_val_grows(d, j + 1, d.len() as int);
                assert(d.take(d.len() as int) =~= d);
                assert(digits_val(d) > 170141183460469231731687303715884105720 + last_max);
                if neg {
                    assert(int_token_val(s@) == -digits_val(d));
                    assert(int_token_val(s@) < i128::MIN as int);
                } else {
                    assert(int_token_val(s@) == digits_val(d));
                    assert(int_token_val(s@) > i128::MAX as int);
                }
            }
            return None;
        }
        proof {
            lemma_digits_val_take_succ(d, i - start);
        }
        acc = acc * 10 + dv;
        i += 1;
    }
    proof {
        assert(d.take(d.len() as int) =~= d);
        assert(acc as int == digits_val(d));
        assert(is_parseable_int(s@));
    }
    if neg {
        if acc == 170141183460469231731687303715884105728 {
            Some(i128::MIN)
        } else {
            Some(-(acc as i128))
        }
    } else {
        Some(acc as i128)
    }
}

/// Parses a decimal integer token at 64-bit width: the token's value when
/// it is sign-plus-digits and fits, `None` otherwise.
pub fn parse_i64(s: &str) -> (r: Option<i64>)
    ensures
        is_parseable_int(s@) && fits_i64(int_token_val(s@)) ==> (r matches Some(v) && v as int
            == int_token_val(s@)),
        !(is_parseable_int(s@) && fits_i64(int_token_val(s@))) ==> r is None,
{
    match parse_i128(s) {
        Some(v) => {
            if i64::MIN as i128 <= v && v <= i64::MAX as i128 {
                Some(v as i64)
            } else {
                None
            }
        },
        None => None,
    }
}

/// Parses a decimal integer token at 32-bit width: the token's value when
/// it is sign-plus-digits and fits, `None` otherwise.
pub fn parse_i32(s: &str) -> (r: Option<i32>)
    ensures
        is_parseable_int(s@) && fits_i32(int_token_val(s@)) ==> (r matches Some(v) && v as int
            == int_token_val(s@)),
        !(is_parseable_int(s@) && fits_i32(int_token_val(s@))) ==> r is None,
{
    match parse_i128(s) {
        Some(v) => {
            if i32::MIN as i128 <= v && v <= i32::MAX as i128 {
                Some(v as i32)
            } else {
                None
            }
        },
        None => None,
    }
}

/// An integer value at the narrowest signed width that represents it.
pub enum IntegerTypes {
    Int32(i32),
    Int64(i64),
    Int128(i128),
}

/// The rank that corresponds to a resolved integer width.
impl From<IntegerTypes> for Codes {
    fn from(itype: IntegerTypes) -> (r: Codes) {
        match itype {
            IntegerTypes::Int32(_) => Codes::Int32,
            IntegerTypes::Int64(_) => Codes::Int64,
            IntegerTypes::Int128(_) => Codes::Int128,
        }
    }
}

impl vstd::std_specs::convert::FromSpecImpl<IntegerTypes> for Codes {
    open spec fn obeys_from_spec() -> bool {
        true
    }

    open spec fn from_spec(v: IntegerTypes) -> Codes {
        match v {
            IntegerTypes::Int32(_) => Codes::Int32,
            IntegerTypes::Int64(_) => Codes::Int64,
            IntegerTypes::Int128(_) => Codes::Int128,
        }
    }
}

/// Resolves an integer token to the narrowest width of the escalation
/// ladder (32, then 64, then 128 bits) that parses it without overflow.
/// A token whose magnitude exceeds the widest rung is the fatal
/// integer-overflow condition; so is text that is not an integer at all.
pub fn resolve_int(cell: &str) -> (r: Result<IntegerTypes, InferError>)
    ensures
        is_parseable_int(cell@) && fits_i32(int_token_val(cell@)) ==> (r matches Ok(
            IntegerTypes::Int32(x),
        ) && x as int == int_token_val(cell@)),
        is_parseable_int(cell@) && !fits_i32(int_token_val(cell@)) && fits_i64(
            int_token_val(cell@),
        ) ==> (r matches Ok(IntegerTypes::Int64(x)) && x as int == int_token_val(cell@)),
        is_parseable_int(cell@) && !fits_i64(int_token_val(cell@)) && fits_i128(
            int_token_val(cell@),
        ) ==> (r matches Ok(IntegerTypes::Int128(x)) && x as int == int_token_val(cell@)),
        !(is_parseable_int(cell@) && fits_i128(int_token_val(cell@))) ==> (r matches Err(e) && e
            == InferError::IntegerOverflow),
{
    match parse_i32(cell) {
        Some(v) => Ok(IntegerTypes::Int32(v)),
        None => match parse_i64(cell) {
            Some(v) => Ok(IntegerTypes::Int64(v)),
            None => match parse_i128(cell) {
                Some(v) => Ok(IntegerTypes::Int128(v)),
                None => Err(InferError::IntegerOverflow),
            },
        },
    }
}

} // verus!
