//! Parsing of the plain decimal fields of a transaction record: client ids,
//! transaction ids, and fixed-point amounts.
//!
//! Each parser is total: a field that does not fit the grammar, or whose
//! value does not fit the target type, yields `None`, and the caller drops
//! the record, as malformed input is discarded rather than reported.

use vstd::prelude::*;

verus! {

use vstd::string::StrSliceExecFns;

/// Whether `c` is a decimal digit.
pub open spec fn is_digit(c: char) -> bool {
    '0' <= c && c <= '9'
}

/// Whether every character of `s` is a decimal digit.
pub open spec fn all_digits(s: Seq<char>) -> bool {
    forall|i: int| 0 <= i < s.len() ==> is_digit(#[trigger] s[i])
}

/// The value of the digit string `s`; an empty string counts as zero.
pub open spec fn digits_val(s: Seq<char>) -> int
    decreases s.len(),
{
    if s.len() == 0 {
        0
    } else {
        digits_val(s.drop_last()) * 10 + (s.last() as int - '0' as int)
    }
}

/// The value of a nonempty digit string, if it is one and its value is at
/// most `bound`.
pub open spec fn spec_parse_uint(s: Seq<char>, bound: int) -> Option<int> {
    if s.len() == 0 || !all_digits(s) || digits_val(s) > bound {
        None
    } else {
        Some(digits_val(s))
    }
}

proof fn lemma_digits_val_nonneg(s: Seq<char>)
    requires
        all_digits(s),
    ensures
        digits_val(s) >= 0,
    decreases s.len(),
{
    if s.len() > 0 {
        assert(all_digits(s.drop_last()));
        lemma_digits_val_nonneg(s.drop_last());
    }
}

proof fn lemma_digits_val_grows(s: Seq<char>, i: int)
    requires
        all_digits(s),
        0 <= i <= s.len(),
    ensures
        digits_val(s.take(i)) <= digits_val(s),
    decreases s.len() - i,
{
    if i < s.len() {
        assert(all_digits(s.take(i + 1)));
        assert(s.take(i + 1).drop_last() =~= s.take(i));
        assert(all_digits(s.take(i)));
        lemma_digits_val_nonneg(s.take(i));
        assert(digits_val(s.take(i)) <= digits_val(s.take(i + 1)));
        lemma_digits_val_grows(s, i + 1);
    } else {
        assert(s.take(i) =~= s);
    }
}

/// Parses a nonempty all-digit string as an unsigned value of at most
/// `bound`.
pub fn parse_uint(s: &str, bound: u64) -> (r: Option<u64>)
    ensures
        ({
            let p = spec_parse_uint(s@, bound as int);
            match r {
                Some(v) => p == Some(v as int) && v <= bound,
                None => p is None,
            }
        }),
{
    let len = s.unicode_len();
    if len == 0 {
        return None;
    }
    let mut i: usize = 0;
    let mut acc: u64 = 0;
    while i < len
        invariant
            0 <= i <= len,
            len == s@.len(),
            all_digits(s@.take(i as int)),
            acc as int == digits_val(s@.take(i as int)),
            acc <= bound,
        decreases len - i,
    {
        let c = s.get_char(i);
        let cv = c as u32;
        if cv < 48 || cv > 57 {
            proof {
                assert(s@[i as int] == c);
                assert(!is_digit(c));
            }
            return None;
        }
        let d: u64 = (cv - 48) as u64;
        proof {
            assert(s@.take(i + 1).drop_last() =~= s@.take(i as int));
            assert(s@.take(i + 1).last() == c);
            assert(all_digits(s@.take(i + 1)));
            assert(digits_val(s@.take(i + 1)) == acc * 10 + d);
        }
        if acc > bound / 10 {
            proof {
                assert(acc * 10 > bound) by (nonlinear_arith)
                    requires
                        acc > bound / 10,
                        bound >= 0,
                        acc >= 0,
                        bound / 10 * 10 + bound % 10 == bound,
                        0 <= bound % 10 < 10,
                ;
                if all_digits(s@) {
                    assert(digits_val(s@.take(i + 1)) > bound);
                    lemma_digits_val_grows(s@, i + 1);
                }
            }
            return None;
        }
        proof {
            assert(acc * 10 <= bound) by (nonlinear_arith)
                requires
                    acc <= bound / 10,
                    bound >= 0,
                    acc >= 0,
                    bound / 10 * 10 + bound % 10 == bound,
                    0 <= bound % 10 < 10,
            ;
        }
        let t: u64 = acc * 10;
        if d > bound - t {
            proof {
                if all_digits(s@) {
                    assert(digits_val(s@.take(i + 1)) > bound);
                    lemma_digits_val_grows(s@, i + 1);
                }
            }
            return None;
        }
        acc = t + d;
        i = i + 1;
    }
    proof {
        assert(s@.take(len as int) =~= s@);
    }
    Some(acc)
}

/// Ten to the power `n`.
pub open spec fn pow10(n: nat) -> int
    decreases n,
{
    if n == 0 {
        1
    } else {
        10 * pow10((n - 1) as nat)
    }
}

proof fn lemma_digits_val_below_pow10(s: Seq<char>)
    requires
        all_digits(s),
    ensures
        digits_val(s) < pow10(s.len()),
    decreases s.len(),
{
    if s.len() > 0 {
        assert(all_digits(s.drop_last()));
        lemma_digits_val_below_pow10(s.drop_last());
    }
}

/// The index of the first `.` in `s`, or its length if there is none.
pub open spec fn first_dot(s: Seq<char>) -> int
    decreases s.len(),
{
    if s.len() == 0 {
        0
    } else if s[0] == '.' {
        0
    } else {
        1 + first_dot(s.drop_first())
    }
}

proof fn lemma_first_dot_at(s: Seq<char>, k: int)
    requires
        0 <= k <= s.len(),
        forall|j: int| 0 <= j < k ==> s[j] != '.',
        k < s.len() ==> s[k] == '.',
    ensures
        first_dot(s) == k,
    decreases k,
{
    if k > 0 {
        lemma_first_dot_at(s.drop_first(), k - 1);
    }
}

/// The weight of one unit of a fractional part of `n` digits, in
/// ten-thousandths.
pub open spec fn frac_scale(n: int) -> int {
    if n == 1 {
        1000
    } else if n == 2 {
        100
    } else if n == 3 {
        10
    } else {
        1
    }
}

/// The unsigned value in ten-thousandths of an amount written without a
/// sign: decimal digits, at most four of them after an optional point, with
/// at least one digit in all.
pub open spec fn amount_body_val(body: Seq<char>) -> Option<int> {
    let k = first_dot(body);
    if k == body.len() {
        if body.len() == 0 || !all_digits(body) {
            None
        } else {
            Some(digits_val(body) * 10000)
        }
    } else {
        let whole = body.take(k);
        let frac = body.skip(k + 1);
        if !all_digits(whole) || !all_digits(frac) || whole.len() + frac.len() == 0 || frac.len()
            > 4 {
            None
        } else {
            Some(digits_val(whole) * 10000 + digits_val(frac) * frac_scale(frac.len() as int))
        }
    }
}

/// The value of an amount field in ten-thousandths: an optional minus sign,
/// then digits with an optional point, rejected if malformed or if the
/// magnitude does not fit the fixed-point type.
pub open spec fn spec_parse_amount(s: Seq<char>) -> Option<int> {
    let body = if s.len() > 0 && s[0] == '-' {
        s.drop_first()
    } else {
        s
    };
    match amount_body_val(body) {
        Some(v) => if v > i64::MAX {
            None
        } else if s.len() > 0 && s[0] == '-' {
            Some(-v)
        } else {
            Some(v)
        },
        None => None,
    }
}

/// The position of the first `.` in `s` at or after `start`, or the length
/// of `s` if there is none.
fn find_dot(s: &str, start: usize) -> (r: usize)
    requires
        start <= s@.len(),
    ensures
        start <= r <= s@.len(),
        forall|j: int| start <= j < r ==> s@[j] != '.',
        r < s@.len() ==> s@[r as int] == '.',
{
    let len = s.unicode_len();
    let mut i: usize = start;
    while i < len
        invariant
            start <= i <= len,
            len == s@.len(),
            forall|j: int| start <= j < i ==> s@[j] != '.',
        decreases len - i,
    {
        if s.get_char(i) == '.' {
            return i;
        }
        i = i + 1;
    }
    len
}

/// Parses an amount field into ten-thousandths.
pub fn parse_amount(s: &str) -> (r: Option<i64>)
    ensures
        ({
            let p = spec_parse_amount(s@);
            match r {
                Some(v) => p == Some(v as int),
                None => p is None,
            }
        }),
{
    let len = s.unicode_len();
    let neg = len > 0 && s.get_char(0) == '-';
    let start: usize = if neg {
        1
    } else {
        0
    };
    let ghost body = if neg {
        s@.drop_first()
    } else {
        s@
    };
    let dot = find_dot(s, start);
    proof {
        assert forall|j: int| 0 <= j < dot - start implies body[j] != '.' by {
            assert(body[j] == s@[j + start]);
        }
        assert(dot < s@.len() ==> body[dot - start] == '.');
        lemma_first_dot_at(body, dot - start);
    }
    let whole_str = s.substring_char(start, dot);
    let ghost whole = body.take(dot - start);
    proof {
        assert(whole_str@ =~= whole);
    }
    let whole_len = dot - start;
    let frac_len: usize = if dot < len {
        len - dot - 1
    } else {
        0
    };
    if dot < len && frac_len > 4 {
        proof {
            assert(body.skip(dot - start + 1).len() > 4);
        }
        return None;
    }
    if whole_len == 0 && frac_len == 0 {
        // no digits at all: either the empty field or a bare sign or point
        return None;
    }
    let w: u64 = if whole_len == 0 {
        0
    } else {
        match parse_uint(whole_str, 922337203685477) {
            Some(v) => v,
            None => {
                proof {
                    if dot == len {
                        assert(whole =~= body);
                    }
                    if all_digits(whole) {
                        lemma_digits_val_nonneg(whole);
                        assert(digits_val(whole) > 922337203685477);
                        if dot < len {
                            let frac = body.skip(dot - start + 1);
                            if all_digits(frac) {
                                lemma_digits_val_nonneg(frac);
                                assert(digits_val(frac) * frac_scale(frac.len() as int) >= 0)
                                    by (nonlinear_arith)
                                    requires
                                        digits_val(frac) >= 0,
                                        frac_scale(frac.len() as int) >= 1,
                                ;
                            }
                        }
                    }
                }
                return None;
            },
        }
    };
    let fs: u64 = if dot < len && frac_len > 0 {
        let frac_str = s.substring_char(dot + 1, len);
        let ghost frac = body.skip(dot - start + 1);
        proof {
            assert(frac_str@ =~= frac);
            if all_digits(frac) {
                lemma_digits_val_below_pow10(frac);
                lemma_digits_val_nonneg(frac);
                assert(pow10(0) == 1 && pow10(1) == 10 && pow10(2) == 100 && pow10(3) == 1000
                    && pow10(4) == 10000) by {
                    reveal_with_fuel(pow10, 5);
                }
                assert(digits_val(frac) <= 9999);
            }
        }
        match parse_uint(frac_str, 9999) {
            Some(f) => {
                if frac_len == 1 {
                    f * 1000
                } else if frac_len == 2 {
                    f * 100
                } else if frac_len == 3 {
                    f * 10
                } else {
                    f
                }
            },
            None => {
                return None;
            },
        }
    } else {
        0
    };
    proof {
        if dot == len {
            assert(whole =~= body);
        } else {
            let frac = body.skip(dot - start + 1);
            assert(frac.len() == frac_len);
            if frac.len() == 0 {
                assert(all_digits(frac));
                assert(digits_val(frac) == 0);
            }
        }
        if whole.len() == 0 {
            assert(digits_val(whole) == 0);
        }
    }
    let mag: u64 = w * 10000 + fs;
    if mag > 9223372036854775807 {
        return None;
    }
    if neg {
        Some(-(mag as i64))
    } else {
        Some(mag as i64)
    }
}

/// Parses a client id field.
pub fn parse_client_id(s: &str) -> (r: Option<u16>)
    ensures
        ({
            let p = spec_parse_uint(s@, u16::MAX as int);
            match r {
                Some(v) => p == Some(v as int),
                None => p is None,
            }
        }),
{
    match parse_uint(s, 65535) {
        Some(v) => Some(v as u16),
        None => None,
    }
}

/// Parses a transaction id field.
pub fn parse_tx_id(s: &str) -> (r: Option<u32>)
    ensures
        ({
            let p = spec_parse_uint(s@, u32::MAX as int);
            match r {
                Some(v) => p == Some(v as int),
                None => p is None,
            }
        }),
{
    match parse_uint(s, 4294967295) {
        Some(v) => Some(v as u32),
        None => None,
    }
}

} // verus!
