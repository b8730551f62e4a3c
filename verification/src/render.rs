//! Textual rendering of a list of numbers: every value in decimal,
//! followed by an arrow marker, with an end-of-list marker last.

use vstd::prelude::*;

verus! {

/// The character of a single decimal digit.
pub open spec fn digit_char(d: int) -> char {
    if d == 0 {
        '0'
    } else if d == 1 {
        '1'
    } else if d == 2 {
        '2'
    } else if d == 3 {
        '3'
    } else if d == 4 {
        '4'
    } else if d == 5 {
        '5'
    } else if d == 6 {
        '6'
    } else if d == 7 {
        '7'
    } else if d == 8 {
        '8'
    } else {
        '9'
    }
}

/// The decimal digits of `n`, most significant first.
pub open spec fn dec_digits(n: int) -> Seq<char>
    decreases n,
{
    if n < 10 {
        seq![digit_char(n)]
    } else {
        dec_digits(n / 10).push(digit_char(n % 10))
    }
}

/// The rendering of the values of `s`: each value's decimal digits
/// followed by the arrow marker, and the end-of-list marker last.
pub open spec fn render_spec(s: Seq<u64>) -> Seq<char>
    decreases s.len(),
{
    if s.len() == 0 {
        seq!['N', 'o', 'n', 'e']
    } else {
        dec_digits(s[0] as int) + seq![' ', '-', '>', ' '] + render_spec(s.skip(1))
    }
}

/// Relies on std's String::push: it appends the given character to the
/// end of the string.
pub assume_specification[ String::push ](s: &mut String, ch: char)
    ensures
        final(s)@ == old(s)@.push(ch),
;

/// The character of one decimal digit.
fn digit_to_char(d: u64) -> (c: char)
    requires
        d < 10,
    ensures
        c == digit_char(d as int),
{
    if d == 0 {
        '0'
    } else if d == 1 {
        '1'
    } else if d == 2 {
        '2'
    } else if d == 3 {
        '3'
    } else if d == 4 {
        '4'
    } else if d == 5 {
        '5'
    } else if d == 6 {
        '6'
    } else if d == 7 {
        '7'
    } else if d == 8 {
        '8'
    } else {
        '9'
    }
}

/// Append the decimal rendering of `n` to `out`.
pub(crate) fn push_decimal(out: &mut String, n: u64)
    ensures
        final(out)@ == old(out)@ + dec_digits(n as int),
{
    let mut digits: Vec<char> = Vec::new();
    let mut m: u64 = n;
    digits.insert(0, digit_to_char(m % 10));
    m = m / 10;
    while m > 0
        invariant
            dec_digits(n as int) == (if m > 0 {
                dec_digits(m as int)
            } else {
                Seq::<char>::empty()
            }) + digits@,
        decreases m,
    {
        let ghost digits_before = digits@;
        let ghost m_before = m as int;
        digits.insert(0, digit_to_char(m % 10));
        m = m / 10;
        proof {
            assert(digits@ =~= seq![digit_char(m_before % 10)] + digits_before);
            if m > 0 {
                assert(dec_digits(m_before) =~= dec_digits(m_before / 10).push(
                    digit_char(m_before % 10),
                ));
                assert(dec_digits(n as int) =~= dec_digits(m as int) + digits@);
            } else {
                assert(dec_digits(m_before) =~= seq![digit_char(m_before)]);
                assert(dec_digits(n as int) =~= digits@);
            }
        }
    }
    proof {
        assert(dec_digits(n as int) =~= digits@);
    }
    let mut i: usize = 0;
    while i < digits.len()
        invariant
            i <= digits.len(),
            digits@ == dec_digits(n as int),
            out@ == old(out)@ + digits@.subrange(0, i as int),
        decreases digits.len() - i,
    {
        out.push(digits[i]);
        i = i + 1;
        proof {
            assert(out@ =~= old(out)@ + digits@.subrange(0, i as int));
        }
    }
    proof {
        assert(digits@.subrange(0, digits@.len() as int) =~= digits@);
    }
}

} // verus!
