//! Lexical classification of raw tokens: a token is bucketed as
//! float-shaped, integer-shaped, boolean-shaped, or other, in that fixed
//! priority order. The float test comes first because the integer shape is
//! a subset of the digits-only part of the float shape. No parsing or
//! overflow checking happens here; the output is purely categorical.

use vstd::prelude::*;

use crate::rank::Codes;

verus! {

/// A decimal digit.
pub open spec fn is_digit(c: char) -> bool {
    '0' <= c && c <= '9'
}

/// Every character of `s` is a decimal digit.
pub open spec fn all_digits(s: Seq<char>) -> bool {
    forall|i: int| 0 <= i < s.len() ==> is_digit(#[trigger] s[i])
}

/// The token with one leading minus sign removed, if present.
pub open spec fn unsigned_part(s: Seq<char>) -> Seq<char> {
    if s.len() > 0 && s[0] == '-' {
        s.skip(1)
    } else {
        s
    }
}

/// Every character of `d` except position `k` is a decimal digit.
pub open spec fn digits_except(d: Seq<char>, k: int) -> bool {
    forall|i: int| 0 <= i < d.len() && i != k ==> is_digit(#[trigger] d[i])
}

/// The integer shape: an optional leading minus sign, then one or more
/// digits and nothing else.
pub open spec fn is_int_token(s: Seq<char>) -> bool {
    unsigned_part(s).len() > 0 && all_digits(unsigned_part(s))
}

/// The float shape: an optional leading minus sign, then zero or more
/// digits, one literal decimal point, and one or more digits. A token
/// without fractional digits ("5.") is not float-shaped; one without
/// integer digits (".5") is.
pub open spec fn is_float_token(s: Seq<char>) -> bool {
    let d = unsigned_part(s);
    exists|k: int| 0 <= k < d.len() - 1 && (#[trigger] d[k]) == '.' && digits_except(d, k)
}

/// `c` equals the lower-case letter `l`, ignoring ASCII case.
pub open spec fn char_eq_ci(c: char, l: char) -> bool {
    c == l || c as u32 + 32 == l as u32
}

/// The boolean shape: the literal text "true" or "false", matched
/// case-insensitively.
pub open spec fn is_bool_token(s: Seq<char>) -> bool {
    ||| (s.len() == 4 && char_eq_ci(s[0], 't') && char_eq_ci(s[1], 'r') && char_eq_ci(s[2], 'u')
        && char_eq_ci(s[3], 'e'))
    ||| (s.len() == 5 && char_eq_ci(s[0], 'f') && char_eq_ci(s[1], 'a') && char_eq_ci(s[2], 'l')
        && char_eq_ci(s[3], 's') && char_eq_ci(s[4], 'e'))
}

/// A token paired with the lexical category it fell into.
#[derive(Debug, PartialEq)]
pub enum StageOne<'a> {
    Int(&'a str),
    Float(&'a str),
    Boolean(&'a str),
    Any(&'a str),
}

/// The transient rank a lexical category maps to before width resolution:
/// numeric candidates become the sentinel markers, the terminal categories
/// their final rank.
impl<'a> From<StageOne<'a>> for Codes {
    fn from(general_type: StageOne<'a>) -> (r: Codes) {
        match general_type {
            StageOne::Float(_) => Codes::TmpFloat,
            StageOne::Int(_) => Codes::TmpInt,
            StageOne::Boolean(_) => Codes::Boolean,
            StageOne::Any(_) => Codes::Any,
        }
    }
}

impl<'a> vstd::std_specs::convert::FromSpecImpl<StageOne<'a>> for Codes {
    open spec fn obeys_from_spec() -> bool {
        true
    }

    open spec fn from_spec(v: StageOne<'a>) -> Codes {
        match v {
            StageOne::Float(_) => Codes::TmpFloat,
            StageOne::Int(_) => Codes::TmpInt,
            StageOne::Boolean(_) => Codes::Boolean,
            StageOne::Any(_) => Codes::Any,
        }
    }
}

/// Whether the token matches the float shape.
fn is_float_match(word: &str) -> (r: bool)
    ensures
        r == is_float_token(word@),
{
    let n = word.unicode_len();
    let start: usize = if n > 0 && word.get_char(0) == '-' {
        1
    } else {
        0
    };
    let ghost d = unsigned_part(word@);
    proof {
        assert(d =~= word@.skip(start as int));
    }
    let mut dot: Option<usize> = None;
    let mut i = start;
    while i < n
        invariant
            n == word@.len(),
            start <= i <= n,
            start <= 1,
            d == word@.skip(start as int),
            d == unsigned_part(word@),
            dot matches Option::None ==> forall|j: int|
                0 <= j < i - start ==> is_digit(#[trigger] d[j]),
            dot matches Option::Some(k) ==> 0 <= k < i - start && d[k as int] == '.' && forall|
                j: int,
            | 0 <= j < i - start && j != k ==> is_digit(#[trigger] d[j]),
        decreases n - i,
    {
        let c = word.get_char(i);
        if c == '.' {
            if dot.is_some() {
                proof {
                    let k1 = dot->0 as int;
                    assert forall|k: int|
                        !(0 <= k < d.len() - 1 && (#[trigger] d[k]) == '.' && digits_except(
                            d,
                            k,
                        )) by {
                        if 0 <= k < d.len() - 1 && d[k] == '.' && digits_except(d, k) {
                            if k != k1 {
                                assert(is_digit(d[k1]));
                            } else {
                                assert(is_digit(d[i - start]));
                            }
                        }
                    }
                }
                return false;
            }
            dot = Some(i - start);
        } else if !('0' <= c && c <= '9') {
            proof {
                let bad = i - start;
                assert(!is_digit(d[bad as int]));
                assert forall|k: int|
                    !(0 <= k < d.len() - 1 && (#[trigger] d[k]) == '.' && digits_except(
                        d,
                        k,
                    )) by {
                    if 0 <= k < d.len() - 1 && d[k] == '.' && digits_except(d, k) {
                        assert(k != bad);
                        assert(is_digit(d[bad as int]));
                    }
                }
            }
            return false;
        }
        i += 1;
    }
    match dot {
        Some(k) => {
            if k + 1 < n - start {
                proof {
                    assert(0 <= k < d.len() - 1 && d[k as int] == '.' && digits_except(
                        d,
                        k as int,
                    ));
                }
                true
            } else {
                proof {
                    let k1 = k as int;
                    assert forall|kk: int|
                        !(0 <= kk < d.len() - 1 && (#[trigger] d[kk]) == '.' && digits_except(
                            d,
                            kk,
                        )) by {
                        if 0 <= kk < d.len() - 1 && d[kk] == '.' && digits_except(d, kk) {
                            if kk != k1 {
                                assert(is_digit(d[k1]));
                            }
                        }
                    }
                }
                false
            }
        },
        None => {
            proof {
                assert forall|kk: int|
                    !(0 <= kk < d.len() - 1 && (#[trigger] d[kk]) == '.' && digits_except(
                        d,
                        kk,
                    )) by {
                    if 0 <= kk < d.len() - 1 && d[kk] == '.' {
                        assert(is_digit(d[kk]));
                    }
                }
            }
            false
        },
    }
}

/// Whether the token matches the integer shape.
fn is_int_match(word: &str) -> (r: bool)
    ensures
        r == is_int_token(word@),
{
    let n = word.unicode_len();
    let start: usize = if n > 0 && word.get_char(0) == '-' {
        1
    } else {
        0
    };
    let ghost d = unsigned_part(word@);
    proof {
        assert(d =~= word@.skip(start as int));
    }
    if n == start {
        return false;
    }
    let mut i = start;
    while i < n
        invariant
            n == word@.len(),
            start <= i <= n,
            start <= 1,
            d == word@.skip(start as int),
            d == unsigned_part(word@),
            forall|j: int| 0 <= j < i - start ==> is_digit(#[trigger] d[j]),
        decreases n - i,
    {
        let c = word.get_char(i);
        if !('0' <= c && c <= '9') {
            proof {
                assert(!is_digit(d[i - start]));
            }
            return false;
        }
        i += 1;
    }
    true
}

/// Whether the token matches the boolean shape.
fn is_bool_match(word: &str) -> (r: bool)
    ensures
        r == is_bool_token(word@),
{
    let n = word.unicode_len();
    if n == 4 {
        let c0 = word.get_char(0);
        let c1 = word.get_char(1);
        let c2 = word.get_char(2);
        let c3 = word.get_char(3);
        (c0 == 't' || c0 == 'T') && (c1 == 'r' || c1 == 'R') && (c2 == 'u' || c2 == 'U') && (c3
            == 'e' || c3 == 'E')
    } else if n == 5 {
        let c0 = word.get_char(0);
        let c1 = word.get_char(1);
        let c2 = word.get_char(2);
        let c3 = word.get_char(3);
        let c4 = word.get_char(4);
        (c0 == 'f' || c0 == 'F') && (c1 == 'a' || c1 == 'A') && (c2 == 'l' || c2 == 'L') && (c3
            == 's' || c3 == 'S') && (c4 == 'e' || c4 == 'E')
    } else {
        false
    }
}

/// Buckets a token into one of the four lexical categories, testing the
/// float shape first, then the integer shape, then the boolean shape, and
/// falling through to `Any` (the empty string included).
pub fn first_phase<'a>(word: &'a str) -> (r: StageOne<'a>)
    ensures
        is_float_token(word@) ==> (r matches StageOne::Float(w) && w@ == word@),
        !is_float_token(word@) && is_int_token(word@) ==> (r matches StageOne::Int(w) && w@
            == word@),
        !is_float_token(word@) && !is_int_token(word@) && is_bool_token(word@) ==> (r
            matches StageOne::Boolean(w) && w@ == word@),
        !is_float_token(word@) && !is_int_token(word@) && !is_bool_token(word@) ==> (r
            matches StageOne::Any(w) && w@ == word@),
{
    if is_float_match(word) {
        StageOne::Float(word)
    } else if is_int_match(word) {
        StageOne::Int(word)
    } else if is_bool_match(word) {
        StageOne::Boolean(word)
    } else {
        StageOne::Any(word)
    }
}

/// The category a token falls into after the priority order is applied:
/// float-shaped tokens are float candidates.
pub open spec fn float_candidate(s: Seq<char>) -> bool {
    is_float_token(s)
}

/// Integer candidates: integer-shaped and not float-shaped.
pub open spec fn int_candidate(s: Seq<char>) -> bool {
    !is_float_token(s) && is_int_token(s)
}

/// Boolean candidates: boolean-shaped and neither float- nor integer-shaped.
pub open spec fn bool_candidate(s: Seq<char>) -> bool {
    !is_float_token(s) && !is_int_token(s) && is_bool_token(s)
}

/// The fall-through category, the empty string included.
pub open spec fn other_candidate(s: Seq<char>) -> bool {
    !is_float_token(s) && !is_int_token(s) && !is_bool_token(s)
}

/// Classification is total and deterministic: every token falls into
/// exactly one of the four categories once the fixed priority order is
/// applied.
pub proof fn lemma_classification_total(s: Seq<char>)
    ensures
        float_candidate(s) || int_candidate(s) || bool_candidate(s) || other_candidate(s),
        !(float_candidate(s) && int_candidate(s)),
        !(float_candidate(s) && bool_candidate(s)),
        !(float_candidate(s) && other_candidate(s)),
        !(int_candidate(s) && bool_candidate(s)),
        !(int_candidate(s) && other_candidate(s)),
        !(bool_candidate(s) && other_candidate(s)),
{
}

} // verus!
