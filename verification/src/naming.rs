//! Output file naming: project name plus date, with a numeric
//! disambiguator appended while a same-day file already exists, so that
//! an existing output is never overwritten.

use vstd::prelude::*;
use vstd::string::*;
use crate::text::{concat_str, str_to_string};

verus! {

/// The decimal digit character for a value below ten.
pub open spec fn digit_char(n: int) -> char {
    seq!['0', '1', '2', '3', '4', '5', '6', '7', '8', '9'][n]
}

/// The decimal rendering of a number, most significant digit first.
pub open spec fn dec_digits(n: nat) -> Seq<char>
    decreases n,
{
    if n < 10 {
        seq![digit_char(n as int)]
    } else {
        dec_digits(n / 10) + seq![digit_char(n as int % 10)]
    }
}

fn digit_of(n: u64) -> (r: char)
    requires
        n < 10,
    ensures
        r == digit_char(n as int),
{
    if n == 0 {
        '0'
    } else if n == 1 {
        '1'
    } else if n == 2 {
        '2'
    } else if n == 3 {
        '3'
    } else if n == 4 {
        '4'
    } else if n == 5 {
        '5'
    } else if n == 6 {
        '6'
    } else if n == 7 {
        '7'
    } else if n == 8 {
        '8'
    } else {
        '9'
    }
}

/// Renders a number in decimal.
pub fn u64_to_string(n: u64) -> (r: String)
    ensures
        r@ == dec_digits(n as nat),
    decreases n,
{
    if n < 10 {
        let mut s = String::new();
        s.push(digit_of(n));
        proof {
            assert(s@ =~= dec_digits(n as nat));
        }
        s
    } else {
        let mut s = u64_to_string(n / 10);
        s.push(digit_of(n % 10));
        proof {
            assert(s@ =~= dec_digits(n as nat));
        }
        s
    }
}

/// The numeric value a decimal digit character stands for, -1 for any
/// other character.
pub open spec fn digit_val(c: char) -> int {
    if c == '0' {
        0
    } else if c == '1' {
        1
    } else if c == '2' {
        2
    } else if c == '3' {
        3
    } else if c == '4' {
        4
    } else if c == '5' {
        5
    } else if c == '6' {
        6
    } else if c == '7' {
        7
    } else if c == '8' {
        8
    } else if c == '9' {
        9
    } else {
        -1
    }
}

/// The number a digit sequence denotes.
pub open spec fn digits_val(s: Seq<char>) -> int
    decreases s.len(),
{
    if s.len() == 0 {
        0
    } else {
        digits_val(s.drop_last()) * 10 + digit_val(s.last())
    }
}

proof fn lemma_digit_roundtrip(n: nat)
    requires
        n < 10,
    ensures
        digit_val(digit_char(n as int)) == n,
{
}

/// The decimal rendering denotes the number itself, so it is injective.
pub proof fn lemma_dec_digits_value(n: nat)
    ensures
        digits_val(dec_digits(n)) == n,
        dec_digits(n).len() >= 1,
    decreases n,
{
    if n < 10 {
        lemma_digit_roundtrip(n);
        assert(digits_val(Seq::<char>::empty()) == 0);
        assert(dec_digits(n).drop_last() =~= Seq::<char>::empty());
        assert(dec_digits(n).last() == digit_char(n as int));
    } else {
        lemma_dec_digits_value(n / 10);
        lemma_digit_roundtrip(n % 10);
        let s = dec_digits(n / 10) + seq![digit_char(n as int % 10)];
        assert(s.drop_last() =~= dec_digits(n / 10));
        assert(s.last() == digit_char(n as int % 10));
        assert(n as int == 10 * (n as int / 10) + n as int % 10) by {
            vstd::arithmetic::div_mod::lemma_fundamental_div_mod(n as int, 10);
        }
    }
}

/// The candidate output file name for a disambiguation counter: name,
/// date and extension for zero, with the counter in parentheses
/// otherwise.
pub open spec fn candidate_name(
    base: Seq<char>,
    date: Seq<char>,
    ext: Seq<char>,
    counter: nat,
) -> Seq<char> {
    if counter == 0 {
        base + seq!['_'] + date + seq!['.'] + ext
    } else {
        base + seq!['_'] + date + seq!['('] + dec_digits(counter) + seq![')', '.'] + ext
    }
}

/// Distinct disambiguation counters give distinct candidate names for
/// the same base, date and extension, so stepping the counter until a
/// free name is found can never land on a name it already produced —
/// an existing output file is never overwritten.
pub proof fn lemma_candidate_names_distinct(
    base: Seq<char>,
    date: Seq<char>,
    ext: Seq<char>,
    c1: nat,
    c2: nat,
)
    requires
        c1 != c2,
    ensures
        candidate_name(base, date, ext, c1) != candidate_name(base, date, ext, c2),
{
    let s1 = candidate_name(base, date, ext, c1);
    let s2 = candidate_name(base, date, ext, c2);
    if c1 == 0 || c2 == 0 {
        let c = if c1 == 0 {
            c2
        } else {
            c1
        };
        lemma_dec_digits_value(c);
        assert(s1.len() != s2.len());
    } else {
        lemma_dec_digits_value(c1);
        lemma_dec_digits_value(c2);
        let a = dec_digits(c1);
        let b = dec_digits(c2);
        assert(a != b) by {
            if a == b {
                assert(digits_val(a) == digits_val(b));
            }
        }
        if a.len() != b.len() {
            assert(s1.len() != s2.len());
        } else {
            assert(!(a =~= b));
            let i = choose|i: int| 0 <= i < a.len() && a[i] != b[i];
            let pre = base.len() + 1 + date.len() + 1;
            assert(s1[pre + i] == a[i]);
            assert(s2[pre + i] == b[i]);
            assert(s1[pre + i] != s2[pre + i]);
        }
    }
}

/// Builds the candidate output file name for one counter value.
pub fn candidate_filename(base: &str, date: &str, ext: &str, counter: u64) -> (r: String)
    ensures
        r@ == candidate_name(base@, date@, ext@, counter as nat),
{
    let mut s = str_to_string(base);
    s.push('_');
    s.append(date);
    if counter == 0 {
        s.push('.');
        s.append(ext);
        proof {
            assert(s@ =~= candidate_name(base@, date@, ext@, counter as nat));
        }
        s
    } else {
        s.push('(');
        let digits = u64_to_string(counter);
        s.append(digits.as_str());
        s.push(')');
        s.push('.');
        s.append(ext);
        proof {
            assert(s@ =~= candidate_name(base@, date@, ext@, counter as nat));
        }
        s
    }
}

} // verus!
