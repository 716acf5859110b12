//! String scanning: whitespace, trimming, number parsing, lines, words,
//! substrings and replacement.
use vstd::prelude::*;

use crate::text::{chars_of, push_char, spec_decimal, spec_decimal_pad3, spec_digit_char};

verus! {

/// Unicode `White_Space`, as `char::is_whitespace` has it.
pub open spec fn spec_is_whitespace(c: char) -> bool {
    let v = c as u32;
    ||| 9 <= v <= 13
    ||| v == 32
    ||| v == 0x85
    ||| v == 0xA0
    ||| v == 0x1680
    ||| 0x2000 <= v <= 0x200A
    ||| v == 0x2028
    ||| v == 0x2029
    ||| v == 0x202F
    ||| v == 0x205F
    ||| v == 0x3000
}

/// Whether `c` is Unicode white space.
pub fn is_whitespace(c: char) -> (r: bool)
    ensures
        r == spec_is_whitespace(c),
{
    let v = c as u32;
    (9 <= v && v <= 13) || v == 32 || v == 0x85 || v == 0xA0 || v == 0x1680
        || (0x2000 <= v && v <= 0x200A) || v == 0x2028 || v == 0x2029 || v == 0x202F
        || v == 0x205F || v == 0x3000
}

/// `s` without leading white space.
pub open spec fn spec_trim_start(s: Seq<char>) -> Seq<char>
    decreases s.len(),
{
    if s.len() > 0 && spec_is_whitespace(s[0]) {
        spec_trim_start(s.skip(1))
    } else {
        s
    }
}

/// `s` without trailing white space.
pub open spec fn spec_trim_end(s: Seq<char>) -> Seq<char>
    decreases s.len(),
{
    if s.len() > 0 && spec_is_whitespace(s.last()) {
        spec_trim_end(s.drop_last())
    } else {
        s
    }
}

/// `s` without leading and trailing white space.
pub open spec fn spec_trim(s: Seq<char>) -> Seq<char> {
    spec_trim_end(spec_trim_start(s))
}

/// The string of the characters `v[i..j]`.
pub fn string_of(v: &Vec<char>, i: usize, j: usize) -> (r: String)
    requires
        i <= j <= v@.len(),
    ensures
        r@ == v@.subrange(i as int, j as int),
{
    let mut s = String::new();
    let mut k: usize = i;
    while k < j
        invariant
            i <= k <= j <= v@.len(),
            s@ == v@.subrange(i as int, k as int),
        decreases j - k,
    {
        push_char(&mut s, v[k]);
        proof { assert(v@.subrange(i as int, k as int + 1) =~= v@.subrange(i as int, k as int).push(v@[k as int])); }
        k = k + 1;
    }
    s
}

/// `s` without leading and trailing white space.
pub fn trim(s: &str) -> (r: String)
    ensures
        r@ == spec_trim(s@),
{
    let v = chars_of(s);
    let n = v.len();
    let mut i: usize = 0;
    proof { assert(v@.subrange(0, n as int) =~= v@); }
    while i < n && is_whitespace(v[i])
        invariant
            i <= n == v@.len(),
            spec_trim_start(v@) == spec_trim_start(v@.subrange(i as int, n as int)),
        decreases n - i,
    {
        proof {
            let t = v@.subrange(i as int, n as int);
            assert(t.skip(1) =~= v@.subrange(i as int + 1, n as int));
        }
        i = i + 1;
    }
    let mut j: usize = n;
    while j > i && is_whitespace(v[j - 1])
        invariant
            i <= j <= n == v@.len(),
            spec_trim(v@) == spec_trim_end(v@.subrange(i as int, j as int)),
        decreases j,
    {
        proof {
            let t = v@.subrange(i as int, j as int);
            assert(t.drop_last() =~= v@.subrange(i as int, j as int - 1));
        }
        j = j - 1;
    }
    string_of(&v, i, j)
}

/// The value of a decimal digit character.
pub open spec fn spec_digit_value(c: char) -> int {
    (c as u32) - 48
}

/// Whether `c` is a decimal digit.
pub open spec fn spec_is_digit(c: char) -> bool {
    48 <= (c as u32) <= 57
}

/// The number a run of decimal digits spells.
pub open spec fn spec_digits_value(d: Seq<char>) -> int
    decreases d.len(),
{
    if d.len() == 0 {
        0
    } else {
        10 * spec_digits_value(d.drop_last()) + spec_digit_value(d.last())
    }
}

/// What `u64::from_str` makes of `s`: an optional `+`, then one or more
/// decimal digits whose value fits.
pub open spec fn spec_parse_u64(s: Seq<char>) -> Option<u64> {
    let d = spec_unsigned_digits(s);
    if d.len() == 0 || !spec_all_digits(d) {
        None
    } else if spec_digits_value(d) > u64::MAX {
        None
    } else {
        Some(spec_digits_value(d) as u64)
    }
}

/// `s` without a leading `+`.
pub open spec fn spec_unsigned_digits(s: Seq<char>) -> Seq<char> {
    if s.len() > 0 && s[0] == '+' { s.skip(1) } else { s }
}

/// Whether every character of `d` is a decimal digit.
pub open spec fn spec_all_digits(d: Seq<char>) -> bool {
    forall|i: int| 0 <= i < d.len() ==> spec_is_digit(#[trigger] d[i])
}

/// A longer run of digits spells at least as much as its prefix.
proof fn lemma_digits_monotone(d: Seq<char>, i: int)
    requires
        0 <= i <= d.len(),
        forall|k: int| 0 <= k < d.len() ==> spec_is_digit(#[trigger] d[k]),
    ensures
        spec_digits_value(d.take(i)) <= spec_digits_value(d),
        spec_digits_value(d) >= 0,
    decreases d.len(),
{
    if d.len() > 0 {
        let init = d.drop_last();
        assert forall|k: int| 0 <= k < init.len() implies spec_is_digit(#[trigger] init[k]) by {
            assert(init[k] == d[k]);
        }
        if i == d.len() {
            assert(d.take(i) =~= d);
            lemma_digits_monotone(init, 0);
        } else {
            assert(init.take(i) =~= d.take(i));
            lemma_digits_monotone(init, i);
        }
    } else {
        assert(d.take(i) =~= d);
    }
}

/// Parses a `u64` as `u64::from_str` does.
pub fn parse_u64(s: &str) -> (r: Option<u64>)
    ensures
        r == spec_parse_u64(s@),
{
    let v = chars_of(s);
    let n = v.len();
    let start: usize = if n > 0 && v[0] == '+' { 1 } else { 0 };
    let ghost d = spec_unsigned_digits(s@);
    proof { assert(d =~= v@.subrange(start as int, n as int)); }
    if start == n {
        return None;
    }
    let mut value: u64 = 0;
    let mut i: usize = start;
    while i < n
        invariant
            start <= i <= n == v@.len(),
            start < n,
            v@ == s@,
            d == spec_unsigned_digits(s@),
            d == v@.subrange(start as int, n as int),
            forall|k: int| 0 <= k < i - start ==> spec_is_digit(#[trigger] d[k]),
            value as int == spec_digits_value(d.take(i - start)),
        decreases n - i,
    {
        let c = v[i];
        let cv = c as u32;
        proof { assert(d[i - start] == v@[i as int]); }
        if cv < 48 || cv > 57 {
            proof {
                assert(cv == (c as u32));
                assert(!spec_is_digit(c));
                assert(!spec_is_digit(d[i - start]));
                assert(!(forall|j: int| 0 <= j < d.len() ==> spec_is_digit(#[trigger] d[j])));
                assert(d.len() > 0);
                assert(!spec_all_digits(d));
            }
            return None;
        }
        let digit = (cv - 48) as u64;
        proof {
            let t = d.take(i - start + 1);
            assert(t.drop_last() =~= d.take(i - start));
            assert(t.last() == c);
        }
        if value > (u64::MAX - digit) / 10 {
            proof {
                assert(10 * value + digit > u64::MAX) by (nonlinear_arith)
                    requires value > (u64::MAX - digit) / 10, digit <= 9;
                let t = d.take(i - start + 1);
                assert(spec_digits_value(t) == 10 * value + digit);
                if spec_all_digits(d) {
                    lemma_digits_monotone(d, i - start + 1);
                    assert(spec_digits_value(d) > u64::MAX);
                }
            }
            return None;
        }
        value = value * 10 + digit;
        i = i + 1;
    }
    proof { assert(d.take(n - start) =~= d); }
    Some(value)
}

/// The decimal text of a number is all digits and spells that number.
proof fn lemma_decimal_digits(n: nat)
    ensures
        spec_decimal(n).len() >= 1,
        spec_all_digits(spec_decimal(n)),
        spec_digits_value(spec_decimal(n)) == n,
    decreases n,
{
    let c = spec_digit_char(n);
    assert(spec_is_digit(c) && spec_digit_value(c) == n % 10);
    if n >= 10 {
        lemma_decimal_digits(n / 10);
        let d = spec_decimal(n);
        assert(d.drop_last() =~= spec_decimal(n / 10));
        assert forall|i: int| 0 <= i < d.len() implies spec_is_digit(#[trigger] d[i]) by {
            if i < d.len() - 1 {
                assert(d[i] == spec_decimal(n / 10)[i]);
            }
        }
        assert(d.last() == c);
        assert(10 * (n / 10) + n % 10 == n);
        assert(spec_digits_value(d) == 10 * spec_digits_value(d.drop_last()) + spec_digit_value(d.last()));
        assert(spec_digits_value(d) == n);
    } else {
        let d = spec_decimal(n);
        assert(d.drop_last() =~= Seq::<char>::empty());
        assert(d.last() == c);
        assert(spec_digits_value(d) == 10 * spec_digits_value(d.drop_last()) + spec_digit_value(d.last()));
        assert(spec_digits_value(d) == n);
    }
}

/// A leading zero does not change the number a run of digits spells.
proof fn lemma_leading_zero(d: Seq<char>)
    ensures
        spec_digits_value(seq!['0'] + d) == spec_digits_value(d),
    decreases d.len(),
{
    let z = seq!['0'] + d;
    if d.len() == 0 {
        assert(z.drop_last() =~= Seq::<char>::empty());
        assert(z.last() == '0');
        assert(spec_digit_value('0') == 0);
        assert(spec_digits_value(z) == 10 * spec_digits_value(z.drop_last()) + spec_digit_value(z.last()));
        assert(spec_digits_value(Seq::<char>::empty()) == 0);
    } else {
        assert(z.drop_last() =~= seq!['0'] + d.drop_last());
        assert(z.last() == d.last());
        lemma_leading_zero(d.drop_last());
        assert(spec_digits_value(z) == 10 * spec_digits_value(z.drop_last()) + spec_digit_value(z.last()));
        assert(spec_digits_value(d) == 10 * spec_digits_value(d.drop_last()) + spec_digit_value(d.last()));
    }
}

/// The zero-padded decimal text of a number spells that number, so two
/// numbers with the same padded text are equal.
pub proof fn lemma_decimal_pad3_injective(n: nat, m: nat)
    ensures
        spec_digits_value(spec_decimal_pad3(n)) == n,
        spec_decimal_pad3(n) == spec_decimal_pad3(m) ==> n == m,
{
    lemma_decimal_digits(n);
    lemma_decimal_digits(m);
    let dn = spec_decimal(n);
    let dm = spec_decimal(m);
    lemma_leading_zero(dn);
    lemma_leading_zero(seq!['0'] + dn);
    lemma_leading_zero(dm);
    lemma_leading_zero(seq!['0'] + dm);
    assert(seq!['0', '0'] + dn =~= seq!['0'] + (seq!['0'] + dn));
    assert(seq!['0', '0'] + dm =~= seq!['0'] + (seq!['0'] + dm));
}

/// Parsing the decimal text of a number that fits gives that number back.
pub proof fn lemma_parse_decimal(n: u64)
    ensures
        spec_parse_u64(spec_decimal(n as nat)) == Some(n),
        n <= u32::MAX ==> spec_parse_u32(spec_decimal(n as nat)) == Some(n as u32),
        n <= u16::MAX ==> spec_parse_u16(spec_decimal(n as nat)) == Some(n as u16),
{
    lemma_decimal_digits(n as nat);
    let d = spec_decimal(n as nat);
    assert(spec_is_digit(d[0]));
    assert(spec_unsigned_digits(d) == d);
}

/// What `u32::from_str` makes of `s`.
pub open spec fn spec_parse_u32(s: Seq<char>) -> Option<u32> {
    match spec_parse_u64(s) {
        Some(v) => if v <= u32::MAX { Some(v as u32) } else { None },
        None => None,
    }
}

/// Parses a `u32` as `u32::from_str` does.
pub fn parse_u32(s: &str) -> (r: Option<u32>)
    ensures
        r == spec_parse_u32(s@),
{
    match parse_u64(s) {
        Some(v) => if v <= 0xffff_ffff { Some(v as u32) } else { None },
        None => None,
    }
}

/// What `u16::from_str` makes of `s`.
pub open spec fn spec_parse_u16(s: Seq<char>) -> Option<u16> {
    match spec_parse_u64(s) {
        Some(v) => if v <= u16::MAX { Some(v as u16) } else { None },
        None => None,
    }
}

/// Parses a `u16` as `u16::from_str` does.
pub fn parse_u16(s: &str) -> (r: Option<u16>)
    ensures
        r == spec_parse_u16(s@),
{
    match parse_u64(s) {
        Some(v) => if v <= 0xffff { Some(v as u16) } else { None },
        None => None,
    }
}

/// Whether `s` starts with `p`.
pub open spec fn spec_starts_with(s: Seq<char>, p: Seq<char>) -> bool {
    p.len() <= s.len() && s.subrange(0, p.len() as int) == p
}

/// Whether `p` occurs in `s` at position `i`.
pub open spec fn spec_occurs_at(s: Seq<char>, p: Seq<char>, i: int) -> bool {
    0 <= i && i + p.len() <= s.len() && s.subrange(i, i + p.len()) == p
}

/// Whether `p` occurs somewhere in `s`.
pub open spec fn spec_contains(s: Seq<char>, p: Seq<char>) -> bool {
    exists|i: int| spec_occurs_at(s, p, i)
}

/// Whether `p` occurs in `v` at position `i`.
fn occurs_at(v: &Vec<char>, p: &Vec<char>, i: usize) -> (r: bool)
    ensures
        r == spec_occurs_at(v@, p@, i as int),
{
    if i > v.len() || p.len() > v.len() - i {
        return false;
    }
    let mut k: usize = 0;
    while k < p.len()
        invariant
            k <= p@.len(),
            i + p@.len() <= v@.len(),
            v@.len() <= usize::MAX,
            forall|m: int| 0 <= m < k ==> v@[i + m] == p@[m],
        decreases p@.len() - k,
    {
        assert(i + k < v@.len());
        if v[i + k] != p[k] {
            proof { assert(v@.subrange(i as int, i + p@.len())[k as int] != p@[k as int]); }
            return false;
        }
        k = k + 1;
    }
    proof { assert(v@.subrange(i as int, i + p@.len()) =~= p@); }
    true
}

/// Whether `s` starts with `p`.
pub fn starts_with(s: &str, p: &str) -> (r: bool)
    ensures
        r == spec_starts_with(s@, p@),
{
    let v = chars_of(s);
    let pv = chars_of(p);
    occurs_at(&v, &pv, 0)
}

/// Whether `p` occurs in `s`.
pub fn contains(s: &str, p: &str) -> (r: bool)
    ensures
        r == spec_contains(s@, p@),
{
    let v = chars_of(s);
    let pv = chars_of(p);
    let mut i: usize = 0;
    while i <= v.len()
        invariant
            i <= v@.len() + 1,
            v@ == s@,
            pv@ == p@,
            forall|j: int| 0 <= j < i ==> !spec_occurs_at(s@, p@, j),
        decreases v@.len() + 1 - i,
    {
        if occurs_at(&v, &pv, i) {
            return true;
        }
        if i == v.len() {
            proof {
                assert forall|j: int| !spec_occurs_at(s@, p@, j) by {
                    if 0 <= j && j + p@.len() <= s@.len() {
                        assert(j < i + 1);
                    }
                }
            }
            return false;
        }
        i = i + 1;
    }
    proof {
        assert forall|j: int| !spec_occurs_at(s@, p@, j) by {
            if 0 <= j && j + p@.len() <= s@.len() {
                assert(j < i);
            }
        }
    }
    false
}

/// `s` with every occurrence of `p`, taken left to right without overlap,
/// replaced by `rep`.
pub open spec fn spec_replace_all(s: Seq<char>, p: Seq<char>, rep: Seq<char>) -> Seq<char>
    decreases s.len(),
{
    if p.len() == 0 || s.len() < p.len() {
        s
    } else if s.subrange(0, p.len() as int) == p {
        rep + spec_replace_all(s.skip(p.len() as int), p, rep)
    } else {
        seq![s[0]] + spec_replace_all(s.skip(1), p, rep)
    }
}

/// Replaces every occurrence of the non-empty pattern `p` in `s` by `rep`,
/// as `str::replace` does.
pub fn replace_all(s: &str, p: &str, rep: &str) -> (r: String)
    requires
        p@.len() > 0,
    ensures
        r@ == spec_replace_all(s@, p@, rep@),
{
    let v = chars_of(s);
    let pv = chars_of(p);
    let mut out = String::new();
    let mut i: usize = 0;
    proof {
        assert(s@.skip(0) =~= s@);
        assert(out@ + spec_replace_all(s@, p@, rep@) =~= spec_replace_all(s@, p@, rep@));
    }
    while i < v.len()
        invariant
            i <= v@.len(),
            v@ == s@,
            pv@ == p@,
            p@.len() > 0,
            spec_replace_all(s@, p@, rep@) == out@ + spec_replace_all(s@.skip(i as int), p@, rep@),
        decreases v@.len() - i,
    {
        let ghost t = s@.skip(i as int);
        if occurs_at(&v, &pv, i) {
            proof {
                assert(t.subrange(0, p@.len() as int) =~= s@.subrange(i as int, i + p@.len()));
                assert(t.skip(p@.len() as int) =~= s@.skip(i + p@.len()));
            }
            let ghost before = out@;
            crate::text::push_str(&mut out, rep);
            i = i + pv.len();
            proof { assert(before + (rep@ + spec_replace_all(s@.skip(i as int), p@, rep@)) =~= out@ + spec_replace_all(s@.skip(i as int), p@, rep@)); }
        } else {
            proof {
                if t.len() >= p@.len() {
                    assert(t.subrange(0, p@.len() as int) =~= s@.subrange(i as int, i + p@.len()));
                }
                assert(t.skip(1) =~= s@.skip(i + 1));
                assert(t[0] == v@[i as int]);
            }
            let ghost before = out@;
            push_char(&mut out, v[i]);
            i = i + 1;
            proof { assert(before + (seq![v@[i - 1]] + spec_replace_all(s@.skip(i as int), p@, rep@)) =~= out@ + spec_replace_all(s@.skip(i as int), p@, rep@)); }
        }
    }
    proof {
        assert(s@.skip(i as int).len() == 0);
        assert(out@ + s@.skip(i as int) =~= out@);
    }
    out
}

/// The maximal runs of characters other than white space, in order, as
/// `str::split_whitespace` gives them.
pub open spec fn spec_words(s: Seq<char>) -> Seq<Seq<char>>
    decreases s.len(),
{
    if s.len() == 0 {
        Seq::empty()
    } else {
        let w = spec_words(s.drop_last());
        let c = s.last();
        if spec_is_whitespace(c) {
            w
        } else if s.len() >= 2 && !spec_is_whitespace(s[s.len() - 2]) {
            w.drop_last().push(w.last().push(c))
        } else {
            w.push(seq![c])
        }
    }
}

/// A text ending in a character other than white space has a word.
proof fn lemma_words_nonempty(s: Seq<char>)
    requires
        s.len() > 0,
        !spec_is_whitespace(s.last()),
    ensures
        spec_words(s).len() > 0,
    decreases s.len(),
{
    if s.len() >= 2 && !spec_is_whitespace(s[s.len() - 2]) {
        let init = s.drop_last();
        assert(init.last() == s[s.len() - 2]);
        lemma_words_nonempty(init);
    }
}

/// The views of a list of strings.
pub open spec fn spec_views(v: Seq<String>) -> Seq<Seq<char>> {
    v.map_values(|x: String| x@)
}

/// The words of `s`.
pub fn split_whitespace(s: &str) -> (r: Vec<String>)
    ensures
        spec_views(r@) == spec_words(s@),
{
    let v = chars_of(s);
    let mut out: Vec<String> = Vec::new();
    let mut i: usize = 0;
    proof { assert(spec_views(out@) =~= spec_words(v@.take(0))); }
    while i < v.len()
        invariant
            i <= v@.len(),
            v@ == s@,
            spec_views(out@) == spec_words(v@.take(i as int)),
        decreases v@.len() - i,
    {
        let c = v[i];
        let ghost t = v@.take(i as int + 1);
        proof {
            assert(t.drop_last() =~= v@.take(i as int));
            assert(t.last() == c);
        }
        if is_whitespace(c) {
        } else if i >= 1 && !is_whitespace(v[i - 1]) {
            proof {
                assert(t[t.len() - 2] == v@[i - 1]);
                let p = v@.take(i as int);
                assert(p.last() == v@[i - 1]);
                lemma_words_nonempty(p);
            }
            let ghost before = out@;
            let mut last = out.pop().unwrap();
            push_char(&mut last, c);
            out.push(last);
            proof {
                assert(spec_views(out@) =~= spec_views(before).drop_last().push(spec_views(before).last().push(c)));
            }
        } else {
            proof {
                if i >= 1 {
                    assert(t[t.len() - 2] == v@[i - 1]);
                }
            }
            let ghost before = out@;
            let mut w = String::new();
            push_char(&mut w, c);
            out.push(w);
            proof {
                assert(spec_views(out@) =~= spec_views(before).push(seq![c]));
            }
        }
        i = i + 1;
    }
    proof { assert(v@.take(v@.len() as int) =~= v@); }
    out
}

/// The pieces of `s` between newline characters; at least one.
pub open spec fn spec_split_newlines(s: Seq<char>) -> Seq<Seq<char>>
    decreases s.len(),
{
    if s.len() == 0 {
        seq![Seq::empty()]
    } else {
        let p = spec_split_newlines(s.drop_last());
        if s.last() == '\n' {
            p.push(Seq::empty())
        } else {
            p.drop_last().push(p.last().push(s.last()))
        }
    }
}

/// A piece followed by a newline, without the carriage return before it.
pub open spec fn spec_strip_cr(l: Seq<char>) -> Seq<char> {
    if l.len() > 0 && l.last() == '\r' { l.drop_last() } else { l }
}

/// The lines of `s`, as `str::lines` gives them: split at newlines, a
/// carriage return before a newline dropped, and no empty last line.
pub open spec fn spec_lines(s: Seq<char>) -> Seq<Seq<char>> {
    let p = spec_split_newlines(s);
    let terminated = p.drop_last().map_values(|l: Seq<char>| spec_strip_cr(l));
    if p.last().len() == 0 { terminated } else { terminated.push(p.last()) }
}

proof fn lemma_split_newlines_nonempty(s: Seq<char>)
    ensures
        spec_split_newlines(s).len() > 0,
    decreases s.len(),
{
    if s.len() > 0 {
        lemma_split_newlines_nonempty(s.drop_last());
    }
}

/// Drops one carriage return at the end.
fn strip_cr(l: String) -> (r: String)
    ensures
        r@ == spec_strip_cr(l@),
{
    let v = chars_of(l.as_str());
    if v.len() > 0 && v[v.len() - 1] == '\r' {
        let r = string_of(&v, 0, v.len() - 1);
        proof { assert(v@.subrange(0, v@.len() - 1) =~= l@.drop_last()); }
        r
    } else {
        l
    }
}

/// The lines of `s`.
pub fn lines(s: &str) -> (r: Vec<String>)
    ensures
        spec_views(r@) == spec_lines(s@),
{
    let v = chars_of(s);
    let mut done: Vec<String> = Vec::new();
    let mut cur = String::new();
    let mut i: usize = 0;
    proof {
        assert(v@.take(0) =~= Seq::<char>::empty());
        assert(spec_views(done@) =~= spec_split_newlines(v@.take(0)).drop_last().map_values(|l: Seq<char>| spec_strip_cr(l)));
    }
    while i < v.len()
        invariant
            i <= v@.len(),
            v@ == s@,
            spec_views(done@) == spec_split_newlines(v@.take(i as int)).drop_last()
                .map_values(|l: Seq<char>| spec_strip_cr(l)),
            cur@ == spec_split_newlines(v@.take(i as int)).last(),
        decreases v@.len() - i,
    {
        let c = v[i];
        let ghost t = v@.take(i as int + 1);
        let ghost p = spec_split_newlines(v@.take(i as int));
        proof {
            assert(t.drop_last() =~= v@.take(i as int));
            assert(t.last() == c);
            lemma_split_newlines_nonempty(v@.take(i as int));
        }
        if c == '\n' {
            let ghost before = done@;
            let mut line = String::new();
            std::mem::swap(&mut line, &mut cur);
            let stripped = strip_cr(line);
            done.push(stripped);
            proof {
                let q = spec_split_newlines(t);
                assert(q == p.push(Seq::<char>::empty()));
                assert(q.drop_last() =~= p);
                assert(spec_views(done@) =~= spec_views(before).push(spec_strip_cr(p.last())));
                assert(p.map_values(|l: Seq<char>| spec_strip_cr(l))
                    =~= p.drop_last().map_values(|l: Seq<char>| spec_strip_cr(l)).push(spec_strip_cr(p.last())));
                assert(spec_views(done@) =~= q.drop_last().map_values(|l: Seq<char>| spec_strip_cr(l)));
            }
        } else {
            push_char(&mut cur, c);
            proof {
                let q = spec_split_newlines(t);
                assert(q.drop_last() =~= p.drop_last());
            }
        }
        i = i + 1;
    }
    proof {
        assert(v@.take(v@.len() as int) =~= v@);
        lemma_split_newlines_nonempty(v@);
    }
    if !cur.as_str().is_empty() {
        let ghost before = done@;
        done.push(cur);
        proof { assert(spec_views(done@) =~= spec_views(before).push(spec_split_newlines(v@).last())); }
    } else {
        proof { assert(spec_split_newlines(v@).last().len() == 0); }
    }
    done
}

} // verus!
