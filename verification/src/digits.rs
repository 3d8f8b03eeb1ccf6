//! Rendering of client ids and fixed-point amounts as decimal text.
//!
//! An amount is a count of ten-thousandths: the value `15000` prints as
//! `1.5`, `2000000` as `200`, `-5000` as `-0.5`. Trailing zeros of the
//! fractional part are dropped, and a whole number prints without a point,
//! so the text carries exactly the information of the number.

use vstd::prelude::*;

verus! {

use vstd::string::StringExecFns;

/// The decimal digit character for `d` in `0..=9`.
pub open spec fn digit_char(d: int) -> char {
    if d == 0 {
        '0'
    } else if d == 1 {
        '1'
    } else if d == 2 {
        '2'
    } else if d == 3 {
        '3'
    } else if d == 4 {
        '4'
    } else if d == 5 {
        '5'
    } else if d == 6 {
        '6'
    } else if d == 7 {
        '7'
    } else if d == 8 {
        '8'
    } else {
        '9'
    }
}

/// The decimal digits of `n`, most significant first.
pub open spec fn dec_digits(n: nat) -> Seq<char>
    decreases n,
{
    if n < 10 {
        seq![digit_char(n as int)]
    } else {
        dec_digits(n / 10) + seq![digit_char((n % 10) as int)]
    }
}

/// The digits of a fractional part `f` of an amount (`f < 10000`, in
/// ten-thousandths), with trailing zero digits dropped. A digit position is
/// kept exactly when some digit at or below it is nonzero.
pub open spec fn frac_chars(f: nat) -> Seq<char> {
    seq![digit_char(((f / 1000) % 10) as int)] + (if f % 1000 != 0 {
        seq![digit_char(((f / 100) % 10) as int)]
    } else {
        Seq::<char>::empty()
    }) + (if f % 100 != 0 {
        seq![digit_char(((f / 10) % 10) as int)]
    } else {
        Seq::<char>::empty()
    }) + (if f % 10 != 0 {
        seq![digit_char((f % 10) as int)]
    } else {
        Seq::<char>::empty()
    })
}

/// The text of a nonnegative amount of `m` ten-thousandths: the whole part,
/// then the trimmed fractional digits after a point if any are nonzero.
pub open spec fn render_magnitude(m: nat) -> Seq<char> {
    dec_digits(m / 10000) + (if m % 10000 == 0 {
        Seq::<char>::empty()
    } else {
        seq!['.'] + frac_chars((m % 10000) as nat)
    })
}

/// The text of an amount of `a` ten-thousandths, negative values signed.
pub open spec fn render_amount(a: int) -> Seq<char> {
    if a < 0 {
        seq!['-'] + render_magnitude((-a) as nat)
    } else {
        render_magnitude(a as nat)
    }
}

/// The canonical text of a boolean.
pub open spec fn bool_text(b: bool) -> Seq<char> {
    if b {
        "true"@
    } else {
        "false"@
    }
}

/// A one-character string for the digit `d`.
fn digit_str(d: u8) -> (s: &'static str)
    requires
        d < 10,
    ensures
        s@ == seq![digit_char(d as int)],
{
    proof {
        reveal_strlit("0");
        reveal_strlit("1");
        reveal_strlit("2");
        reveal_strlit("3");
        reveal_strlit("4");
        reveal_strlit("5");
        reveal_strlit("6");
        reveal_strlit("7");
        reveal_strlit("8");
        reveal_strlit("9");
    }
    match d {
        0 => "0",
        1 => "1",
        2 => "2",
        3 => "3",
        4 => "4",
        5 => "5",
        6 => "6",
        7 => "7",
        8 => "8",
        _ => "9",
    }
}

/// The digit characters of the byte digits `s`, read back to front.
spec fn rev_chars(s: Seq<u8>) -> Seq<char> {
    Seq::new(s.len(), |i: int| digit_char(s[s.len() - 1 - i] as int))
}

/// Appends the decimal digits of `n` to `out`.
fn push_digits(out: &mut String, n: u128)
    ensures
        final(out)@ == old(out)@ + dec_digits(n as nat),
{
    let mut rev: Vec<u8> = Vec::new();
    let mut m: u128 = n;
    while m >= 10
        invariant
            forall|i: int| 0 <= i < rev@.len() ==> rev@[i] < 10,
            dec_digits(n as nat) =~= dec_digits(m as nat) + rev_chars(rev@),
        decreases m,
    {
        let d: u8 = (m % 10) as u8;
        let ghost prev = rev@;
        rev.push(d);
        proof {
            assert(rev_chars(rev@) =~= seq![digit_char(d as int)] + rev_chars(prev));
            assert(dec_digits(m as nat) =~= dec_digits((m as nat) / 10) + seq![
                digit_char(((m as nat) % 10) as int),
            ]);
        }
        m = m / 10;
    }
    let d: u8 = m as u8;
    let ghost prev = rev@;
    rev.push(d);
    proof {
        assert(rev_chars(rev@) =~= seq![digit_char(d as int)] + rev_chars(prev));
        assert(dec_digits(n as nat) =~= rev_chars(rev@));
    }
    let mut i: usize = rev.len();
    while i > 0
        invariant
            i <= rev@.len(),
            forall|j: int| 0 <= j < rev@.len() ==> rev@[j] < 10,
            dec_digits(n as nat) =~= rev_chars(rev@),
            out@ =~= old(out)@ + rev_chars(rev@).take(rev@.len() - i),
        decreases i,
    {
        i = i - 1;
        let s = digit_str(rev[i]);
        out.append(s);
        proof {
            assert(rev_chars(rev@).take(rev@.len() - i) =~= rev_chars(rev@).take(
                rev@.len() - (i + 1),
            ) + seq![digit_char(rev@[i as int] as int)]);
        }
    }
    proof {
        assert(rev_chars(rev@).take(rev@.len() - 0) =~= rev_chars(rev@));
    }
}

/// The decimal text of a client id.
pub fn client_to_string(c: u16) -> (s: String)
    ensures
        s@ == dec_digits(c as nat),
{
    let mut s = String::new();
    push_digits(&mut s, c as u128);
    proof {
        assert(s@ =~= dec_digits(c as nat));
    }
    s
}

/// The canonical text of a boolean.
pub fn bool_to_string(b: bool) -> (s: String)
    ensures
        s@ == bool_text(b),
{
    if b {
        String::from_str("true")
    } else {
        String::from_str("false")
    }
}

/// The decimal text of an amount of `a` ten-thousandths.
pub fn amount_to_string(a: i128) -> (s: String)
    requires
        a != i128::MIN,
    ensures
        s@ == render_amount(a as int),
{
    let mut s = String::new();
    if a < 0 {
        proof {
            reveal_strlit("-");
        }
        s.append("-");
        assert(s@ =~= seq!['-']);
    }
    let mag: u128 = if a < 0 {
        (-a) as u128
    } else {
        a as u128
    };
    let whole: u128 = mag / 10000;
    let frac: u128 = mag % 10000;
    push_digits(&mut s, whole);
    if frac != 0 {
        proof {
            reveal_strlit(".");
        }
        s.append(".");
        s.append(digit_str((frac / 1000) as u8));
        if frac % 1000 != 0 {
            s.append(digit_str(((frac / 100) % 10) as u8));
        }
        if frac % 100 != 0 {
            s.append(digit_str(((frac / 10) % 10) as u8));
        }
        if frac % 10 != 0 {
            s.append(digit_str((frac % 10) as u8));
        }
    }
    proof {
        if a < 0 {
            assert(s@ =~= seq!['-'] + render_magnitude(mag as nat));
        } else {
            assert(s@ =~= render_magnitude(mag as nat));
        }
    }
    s
}

} // verus!
