//! Character-level helpers shared by the path, name and message builders.
use vstd::prelude::*;

verus! {

/// The decimal digit character for `d` (taken modulo ten).
pub open spec fn spec_digit_char(d: nat) -> char {
    let d = d % 10;
    if d == 0 { '0' }
    else if d == 1 { '1' }
    else if d == 2 { '2' }
    else if d == 3 { '3' }
    else if d == 4 { '4' }
    else if d == 5 { '5' }
    else if d == 6 { '6' }
    else if d == 7 { '7' }
    else if d == 8 { '8' }
    else { '9' }
}

/// The decimal representation of `n`, without leading zeros.
pub open spec fn spec_decimal(n: nat) -> Seq<char>
    decreases n,
{
    if n < 10 {
        seq![spec_digit_char(n)]
    } else {
        spec_decimal(n / 10).push(spec_digit_char(n % 10))
    }
}

/// `n` in decimal, left-padded with zeros to at least three digits.
pub open spec fn spec_decimal_pad3(n: nat) -> Seq<char> {
    if n < 10 {
        seq!['0', '0'] + spec_decimal(n)
    } else if n < 100 {
        seq!['0'] + spec_decimal(n)
    } else {
        spec_decimal(n)
    }
}

/// The upper-case hexadecimal digit for `d` (taken modulo sixteen).
pub open spec fn spec_hex_upper_char(d: nat) -> char {
    let d = d % 16;
    if d < 10 { spec_digit_char(d) }
    else if d == 10 { 'A' }
    else if d == 11 { 'B' }
    else if d == 12 { 'C' }
    else if d == 13 { 'D' }
    else if d == 14 { 'E' }
    else { 'F' }
}

/// A byte as two upper-case hexadecimal digits.
pub open spec fn spec_hex_byte_upper(b: u8) -> Seq<char> {
    seq![spec_hex_upper_char(b as nat / 16), spec_hex_upper_char(b as nat % 16)]
}

/// Appends one character to a string.
#[verifier::external_body]
pub(crate) fn push_char(s: &mut String, c: char)
    ensures
        final(s)@ == old(s)@.push(c),
{
    s.push(c);
}

/// Appends a string slice to a string.
pub fn push_str(s: &mut String, t: &str)
    ensures
        final(s)@ == old(s)@ + t@,
{
    s.append(t);
}

/// The digit character for a value below ten.
pub fn digit_char(d: u64) -> (c: char)
    requires
        d < 10,
    ensures
        c == spec_digit_char(d as nat),
{
    if d == 0 { '0' }
    else if d == 1 { '1' }
    else if d == 2 { '2' }
    else if d == 3 { '3' }
    else if d == 4 { '4' }
    else if d == 5 { '5' }
    else if d == 6 { '6' }
    else if d == 7 { '7' }
    else if d == 8 { '8' }
    else { '9' }
}

proof fn lemma_decimal_len(n: nat)
    ensures
        spec_decimal(n).len() >= 1,
    decreases n,
{
    if n >= 10 {
        lemma_decimal_len(n / 10);
    }
}

/// Appends the decimal representation of `n`.
pub fn push_decimal(s: &mut String, n: u64)
    ensures
        final(s)@ == old(s)@ + spec_decimal(n as nat),
{
    // Collect the digits least significant first.
    let mut digits: Vec<char> = Vec::new();
    let mut m: u64 = n;
    digits.push(digit_char(m % 10));
    m = m / 10;
    proof {
        assert(digits@ =~= seq![spec_digit_char(n as nat % 10)]);
    }
    while m > 0
        invariant
            m <= n,
            n > 0 ==> m < n || m == 0,
            digits@.len() >= 1,
            // The digits gathered so far, reversed, are n's low digits.
            spec_decimal(n as nat) =~= if m == 0 {
                digits@.reverse()
            } else {
                spec_decimal(m as nat) + digits@.reverse()
            },
        decreases m,
    {
        let ghost old_digits = digits@;
        let ghost old_m = m;
        let d = m % 10;
        digits.push(digit_char(d));
        m = m / 10;
        proof {
            assert(digits@.reverse() =~= seq![spec_digit_char(d as nat)] + old_digits.reverse());
            if m == 0 {
                assert(spec_decimal(old_m as nat) =~= seq![spec_digit_char(old_m as nat)]);
            } else {
                assert(spec_decimal(old_m as nat) =~= spec_decimal(m as nat).push(spec_digit_char(d as nat)));
            }
        }
    }
    proof {
        if n < 10 {
            assert(spec_decimal(n as nat) =~= seq![spec_digit_char(n as nat)]);
        }
    }
    let mut i: usize = digits.len();
    let ghost start = s@;
    while i > 0
        invariant
            i <= digits@.len(),
            s@ =~= start + digits@.reverse().subrange(0, (digits@.len() - i) as int),
        decreases i,
    {
        i = i - 1;
        push_char(s, digits[i]);
        proof {
            assert(digits@.reverse()[(digits@.len() - i - 1) as int] == digits@[i as int]);
            assert(digits@.reverse().subrange(0, (digits@.len() - i) as int) =~=
                digits@.reverse().subrange(0, (digits@.len() - i - 1) as int).push(digits@[i as int]));
        }
    }
    proof {
        assert(digits@.reverse().subrange(0, digits@.len() as int) =~= digits@.reverse());
    }
}

/// The decimal representation of `n`.
pub fn decimal(n: u64) -> (r: String)
    ensures
        r@ == spec_decimal(n as nat),
{
    let mut s = String::new();
    push_decimal(&mut s, n);
    proof { assert(s@ =~= spec_decimal(n as nat)); }
    s
}

/// Appends `n` in decimal, zero-padded to three digits.
pub fn push_decimal_pad3(s: &mut String, n: u64)
    ensures
        final(s)@ == old(s)@ + spec_decimal_pad3(n as nat),
{
    let ghost start = s@;
    if n < 10 {
        push_char(s, '0');
        push_char(s, '0');
    } else if n < 100 {
        push_char(s, '0');
    }
    push_decimal(s, n);
    proof {
        if n < 10 {
            assert(s@ =~= start + spec_decimal_pad3(n as nat));
        } else if n < 100 {
            assert(s@ =~= start + spec_decimal_pad3(n as nat));
        }
    }
}

/// The upper-case hexadecimal digit for a value below sixteen.
pub fn hex_upper_char(d: u8) -> (c: char)
    requires
        d < 16,
    ensures
        c == spec_hex_upper_char(d as nat),
{
    if d < 10 { digit_char(d as u64) }
    else if d == 10 { 'A' }
    else if d == 11 { 'B' }
    else if d == 12 { 'C' }
    else if d == 13 { 'D' }
    else if d == 14 { 'E' }
    else { 'F' }
}

/// Appends a byte as two upper-case hexadecimal digits.
pub fn push_hex_byte_upper(s: &mut String, b: u8)
    ensures
        final(s)@ == old(s)@ + spec_hex_byte_upper(b),
{
    let ghost start = s@;
    push_char(s, hex_upper_char(b / 16));
    push_char(s, hex_upper_char(b % 16));
    proof { assert(s@ =~= start + spec_hex_byte_upper(b)); }
}

/// The characters of a string slice.
pub fn chars_of(t: &str) -> (v: Vec<char>)
    ensures
        v@ == t@,
{
    let mut v: Vec<char> = Vec::new();
    for c in it: t.chars()
        invariant
            v@ == it.seq().take(it.index() as int),
            it.seq() == t@,
    {
        v.push(c);
    }
    proof {
        assert(v@ =~= t@);
    }
    v
}

/// Whether some string of `v` equals `s`.
pub fn contains_str(v: &Vec<String>, s: &str) -> (r: bool)
    ensures
        r == exists|i: int| 0 <= i < v@.len() && (#[trigger] v@[i])@ == s@,
{
    let wanted = s.to_owned();
    let mut i: usize = 0;
    while i < v.len()
        invariant
            i <= v@.len(),
            wanted@ == s@,
            forall|j: int| 0 <= j < i ==> (#[trigger] v@[j])@ != s@,
        decreases v@.len() - i,
    {
        if v[i] == wanted {
            return true;
        }
        i = i + 1;
    }
    false
}

/// Whether two string slices hold the same characters.
pub fn str_eq(a: &str, b: &str) -> (r: bool)
    ensures
        r == (a@ == b@),
{
    a.to_owned() == b.to_owned()
}

/// A copy of an optional string.
pub fn clone_opt(o: &Option<String>) -> (r: Option<String>)
    ensures
        r == *o,
{
    match o {
        Some(s) => Some(s.clone()),
        None => None,
    }
}

} // verus!
