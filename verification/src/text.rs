//! Building the short status strings the kernel shows: decimal renderings
//! of counters, appended to `String`s character by character.

use vstd::prelude::*;

verus! {

/// Relies on `String::push`: appends the given character to the end of
/// the string.
pub assume_specification[ String::push ](s: &mut String, ch: char)
    ensures
        final(s)@ == old(s)@.push(ch),
;

/// Relies on `String::pop`: removes the last character from the string
/// and returns it, or returns `None` when the string is empty.
pub assume_specification[ String::pop ](s: &mut String) -> (r: Option<char>)
    ensures
        old(s)@.len() == 0 ==> r is None && final(s)@ == old(s)@,
        old(s)@.len() > 0 ==> r == Some(old(s)@.last()) && final(s)@ == old(s)@.drop_last(),
;

/// The character of one decimal digit.
pub open spec fn spec_digit_char(d: int) -> char {
    ((48 + d) as u8) as char
}

/// The decimal rendering of a number, most significant digit first, with
/// no leading zeros (zero itself is a single digit).
pub open spec fn spec_decimal(n: int) -> Seq<char>
    decreases n,
{
    if n < 10 {
        seq![spec_digit_char(n)]
    } else {
        spec_decimal(n / 10).push(spec_digit_char(n % 10))
    }
}

/// The decimal rendering padded with a leading zero to at least two
/// digits, as clock fields are shown.
pub open spec fn spec_decimal_pad2(n: int) -> Seq<char> {
    if n < 10 {
        seq!['0'] + spec_decimal(n)
    } else {
        spec_decimal(n)
    }
}

/// Append the decimal rendering of `n`.
pub fn push_u64_decimal(s: &mut String, n: u64)
    ensures
        final(s)@ == old(s)@ + spec_decimal(n as int),
{
    let mut digits: Vec<u8> = Vec::new();
    let mut m: u64 = n;
    while m >= 10
        invariant
            spec_decimal(n as int) =~= spec_decimal(m as int) + digits@.map_values(
                |d: u8| (d as char),
            ).reverse(),
            forall|i: int| 0 <= i < digits@.len() ==> 48 <= #[trigger] digits@[i] <= 57,
        decreases m,
    {
        let d: u8 = (m % 10) as u8 + 48;
        proof {
            let prev = digits@;
            let mapped = prev.map_values(|x: u8| (x as char));
            assert(prev.push(d).map_values(|x: u8| (x as char)) =~= mapped.push(d as char));
            assert(mapped.push(d as char).reverse() =~= seq![d as char] + mapped.reverse());
            assert(spec_decimal(m as int) =~= spec_decimal(m as int / 10).push(
                spec_digit_char(m as int % 10),
            ));
        }
        digits.push(d);
        m = m / 10;
    }
    let d: u8 = m as u8 + 48;
    proof {
        let prev = digits@;
        let mapped = prev.map_values(|x: u8| (x as char));
        assert(prev.push(d).map_values(|x: u8| (x as char)) =~= mapped.push(d as char));
        assert(mapped.push(d as char).reverse() =~= seq![d as char] + mapped.reverse());
        assert(spec_decimal(m as int) =~= seq![spec_digit_char(m as int)]);
    }
    digits.push(d);
    // the digits were collected least significant first
    let mut k: usize = digits.len();
    proof {
        assert(digits@.map_values(|x: u8| (x as char)).reverse().take(0) =~= Seq::<char>::empty());
        assert(old(s)@ + Seq::<char>::empty() =~= old(s)@);
    }
    while k > 0
        invariant
            k <= digits@.len(),
            forall|i: int| 0 <= i < digits@.len() ==> 48 <= #[trigger] digits@[i] <= 57,
            spec_decimal(n as int) =~= digits@.map_values(|d: u8| (d as char)).reverse(),
            s@ == old(s)@ + digits@.map_values(|d: u8| (d as char)).reverse().take(
                digits@.len() - k,
            ),
        decreases k,
    {
        let d = digits[k - 1];
        s.push(d as char);
        k = k - 1;
        proof {
            let rev = digits@.map_values(|x: u8| (x as char)).reverse();
            assert(rev[digits@.len() - k - 1] == digits@.map_values(|x: u8| (x as char))[k as int]);
            assert(rev.take(digits@.len() - k) =~= rev.take(digits@.len() - k - 1).push(
                rev[digits@.len() - k - 1],
            ));
        }
    }
    proof {
        let rev = digits@.map_values(|x: u8| (x as char)).reverse();
        assert(rev.take(digits@.len() as int) =~= rev);
    }
}

/// Append the decimal rendering of `n`, padded to at least two digits.
pub fn push_u64_pad2(s: &mut String, n: u64)
    ensures
        final(s)@ == old(s)@ + spec_decimal_pad2(n as int),
{
    if n < 10 {
        s.push('0');
        proof {
            assert((seq!['0'] + spec_decimal(n as int)) =~= seq!['0'].push(
                spec_decimal(n as int)[0],
            ));
            assert(spec_decimal(n as int) =~= seq![spec_digit_char(n as int)]);
        }
        push_u64_decimal(s, n);
        proof {
            assert(old(s)@.push('0') + spec_decimal(n as int) =~= old(s)@ + (seq!['0']
                + spec_decimal(n as int)));
        }
    } else {
        push_u64_decimal(s, n);
    }
}

} // verus!
