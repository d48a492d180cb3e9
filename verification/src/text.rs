//! Numerals and small string helpers shared by the formatting code.
use vstd::arithmetic::div_mod::{lemma_div_decreases, lemma_fundamental_div_mod};
use vstd::arithmetic::power::{lemma_pow1, lemma_pow_positive, pow};
use regex::Regex;
use vstd::prelude::*;

verus! {

/// The ASCII character of a digit value below 36: `0`..`9`, then `a`..`z`.
pub open spec fn digit_char(d: nat) -> char {
    if d < 10 {
        (d + 48) as char
    } else {
        (d + 87) as char
    }
}

/// The numeral of `v` in base `r` (2 <= r <= 36), most significant digit first,
/// lowercase, without leading zeros; zero is `"0"`.
pub open spec fn digits(v: nat, r: nat) -> Seq<char>
    decreases v,
{
    if r < 2 {
        Seq::empty()
    } else if v < r {
        seq![digit_char(v)]
    } else {
        proof {
            lemma_div_decreases(v as int, r as int);
        }
        digits(v / r, r).push(digit_char(v % r))
    }
}

/// `s` left-padded with `'0'` to `width` characters (unchanged when already as long).
pub open spec fn pad_zeros(s: Seq<char>, width: nat) -> Seq<char> {
    if s.len() >= width {
        s
    } else {
        Seq::new((width - s.len()) as nat, |i: int| '0') + s
    }
}

/// A numeral is at least one digit long, and it is at most `m` digits long
/// whenever the value is below `r^m`.
pub proof fn lemma_digits_len(v: nat, r: nat, m: nat)
    requires
        r >= 2,
    ensures
        digits(v, r).len() >= 1,
        v < pow(r as int, m) && m >= 1 ==> digits(v, r).len() <= m,
    decreases v,
{
    if v >= r {
        lemma_div_decreases(v as int, r as int);
        if m >= 2 && v < pow(r as int, m) {
            lemma_pow_positive(r as int, (m - 1) as nat);
            assert(pow(r as int, m) == r * pow(r as int, (m - 1) as nat)) by {
                reveal(pow);
            }
            lemma_fundamental_div_mod(v as int, r as int);
            assert(v / r < pow(r as int, (m - 1) as nat)) by (nonlinear_arith)
                requires
                    v < r * pow(r as int, (m - 1) as nat),
                    r >= 2,
                    v == r * (v / r) + v % r,
                    v % r >= 0,
            ;
            lemma_digits_len(v / r, r, (m - 1) as nat);
        } else {
            lemma_digits_len(v / r, r, 0);
            if m == 1 && v < pow(r as int, m) {
                lemma_pow1(r as int);
            }
        }
    }
}

/// Characters of the decimal numeral of `v`.
pub fn decimal_chars(v: u64) -> (res: Vec<char>)
    ensures
        res@ == digits(v as nat, 10),
{
    let mut rest: u64 = v;
    let mut acc: Vec<char> = Vec::new();
    while rest >= 10
        invariant
            digits(v as nat, 10) == digits(rest as nat, 10) + acc@,
        decreases rest,
    {
        let d: u64 = rest % 10;
        let c: char = if d == 0 { '0' } else if d == 1 { '1' } else if d == 2 { '2' } else if d
            == 3 { '3' } else if d == 4 { '4' } else if d == 5 { '5' } else if d == 6 { '6' } else if d
            == 7 { '7' } else if d == 8 { '8' } else { '9' };
        assert(c == digit_char(d as nat));
        let ghost old_acc = acc@;
        acc.insert(0, c);
        assert(digits(rest as nat, 10) == digits((rest / 10) as nat, 10).push(c));
        assert(acc@ == seq![c] + old_acc);
        assert(digits((rest / 10) as nat, 10).push(c) + old_acc =~= digits((rest / 10) as nat, 10)
            + acc@);
        rest = rest / 10;
    }
    let d: u64 = rest;
    let c: char = if d == 0 { '0' } else if d == 1 { '1' } else if d == 2 { '2' } else if d == 3 {
        '3'
    } else if d == 4 { '4' } else if d == 5 { '5' } else if d == 6 { '6' } else if d == 7 {
        '7'
    } else if d == 8 { '8' } else { '9' };
    assert(c == digit_char(d as nat));
    let ghost old_acc = acc@;
    acc.insert(0, c);
    assert(acc@ =~= seq![c] + old_acc);
    acc
}

/// The decimal numeral of a signed value: a minus sign before the numeral of
/// its magnitude when negative.
pub open spec fn signed_digits(v: int) -> Seq<char> {
    if v < 0 {
        seq!['-'] + digits((-v) as nat, 10)
    } else {
        digits(v as nat, 10)
    }
}

/// Characters of the decimal numeral of `v`, with a minus sign when negative.
pub fn signed_decimal_chars(v: i32) -> (res: Vec<char>)
    ensures
        res@ == signed_digits(v as int),
{
    if v < 0 {
        let magnitude: u64 = (0i64 - (v as i64)) as u64;
        let digits_part = decimal_chars(magnitude);
        let mut out: Vec<char> = vec!['-'];
        push_all(&mut out, &digits_part);
        assert(out@ =~= signed_digits(v as int));
        out
    } else {
        decimal_chars(v as u64)
    }
}

/// A string holding exactly the given characters.
///
/// Calls `String::from_iter` on the characters; std documents that it
/// collects them in order, so the string's characters are those given.
#[verifier::external_body]
pub(crate) fn string_from_chars(chars: &Vec<char>) -> (s: String)
    ensures
        s@ == chars@,
{
    String::from_iter(chars.iter())
}

/// The characters of a string, in order.
pub(crate) fn string_to_chars(s: &String) -> (chars: Vec<char>)
    ensures
        chars@ == s@,
{
    let text: &str = s.as_str();
    proof {
        vstd::string::axiom_spec_iter(text);
    }
    let mut out: Vec<char> = Vec::new();
    for c in it: text.chars()
        invariant
            it.seq() == text@,
            out@ == it.seq().take(it.index() as int),
    {
        out.push(c);
        assert(out@ =~= it.seq().take(it.index() + 1));
    }
    assert(out@ =~= text@);
    out
}

/// Appends all characters of `b` to `a`.
pub fn push_all(a: &mut Vec<char>, b: &Vec<char>)
    ensures
        final(a)@ == old(a)@ + b@,
{
    let mut i: usize = 0;
    while i < b.len()
        invariant
            i <= b.len(),
            a@ == old(a)@ + b@.take(i as int),
        decreases b.len() - i,
    {
        a.push(b[i]);
        i = i + 1;
        assert(a@ =~= old(a)@ + b@.take(i as int));
    }
    assert(b@.take(b.len() as int) =~= b@);
}

/// Whether two character sequences are the same.
pub fn chars_equal(a: &Vec<char>, b: &Vec<char>) -> (r: bool)
    ensures
        r == (a@ == b@),
{
    if a.len() != b.len() {
        return false;
    }
    let mut i: usize = 0;
    while i < a.len()
        invariant
            i <= a.len(),
            a.len() == b.len(),
            forall|k: int| 0 <= k < i ==> a@[k] == b@[k],
        decreases a.len() - i,
    {
        if a[i] != b[i] {
            return false;
        }
        i = i + 1;
    }
    assert(a@ =~= b@);
    true
}

/// Appends the characters of `s` to `a`.
pub fn push_str_chars(a: &mut Vec<char>, s: &String)
    ensures
        final(a)@ == old(a)@ + s@,
{
    let chars = string_to_chars(s);
    push_all(a, &chars);
}

} // verus!

verus! {

/// Whether `c` is an ASCII decimal digit.
pub open spec fn is_digit(c: char) -> bool {
    '0' <= c <= '9'
}

/// The number that a string of decimal digits stands for.
pub open spec fn decimal_value(s: Seq<char>) -> nat
    decreases s.len(),
{
    if s.len() == 0 {
        0
    } else {
        10 * decimal_value(s.drop_last()) + (s.last() as nat - 48) as nat
    }
}

/// Whether every character is a decimal digit.
pub open spec fn all_digits(s: Seq<char>) -> bool {
    forall|i: int| 0 <= i < s.len() ==> is_digit(#[trigger] s[i])
}

/// The digits part of a number: what follows an optional leading `+`.
pub open spec fn number_body(s: Seq<char>) -> Seq<char> {
    if s.len() > 0 && s[0] == '+' {
        s.drop_first()
    } else {
        s
    }
}

/// What `str::parse::<u64>` gives: an optional `+`, then at least one decimal
/// digit, and a value that fits in 64 bits; `None` otherwise.
pub open spec fn spec_parse_u64(s: Seq<char>) -> Option<u64> {
    let body = number_body(s);
    if body.len() > 0 && all_digits(body) && decimal_value(body) <= u64::MAX {
        Some(decimal_value(body) as u64)
    } else {
        None
    }
}

proof fn lemma_decimal_value_grows(s: Seq<char>, i: int)
    requires
        0 <= i <= s.len(),
        all_digits(s),
    ensures
        decimal_value(s.take(i)) <= decimal_value(s),
    decreases s.len() - i,
{
    if i < s.len() {
        lemma_decimal_value_grows(s, i + 1);
        assert(s.take(i + 1).drop_last() =~= s.take(i));
    } else {
        assert(s.take(i) =~= s);
    }
}

/// Reads a decimal number as `str::parse::<u64>` does.
pub fn parse_u64(s: &Vec<char>) -> (r: Option<u64>)
    ensures
        r == spec_parse_u64(s@),
{
    let start: usize = if s.len() > 0 && s[0] == '+' {
        1
    } else {
        0
    };
    let ghost body = number_body(s@);
    assert(body =~= s@.skip(start as int));
    if start >= s.len() {
        return None;
    }
    let mut acc: u64 = 0;
    let mut i: usize = start;
    assert(body.take(0) =~= Seq::<char>::empty());
    while i < s.len()
        invariant
            start <= i <= s.len(),
            body =~= s@.skip(start as int),
            body == number_body(s@),
            forall|k: int| 0 <= k < i - start ==> is_digit(#[trigger] body[k]),
            acc == decimal_value(body.take(i - start)),
        decreases s.len() - i,
    {
        let c = s[i];
        assert(c == body[i - start]);
        if c < '0' || c > '9' {
            assert(!is_digit(body[i - start]));
            assert(!all_digits(body));
            return None;
        }
        let d: u64 = (c as u32 - 48) as u64;
        assert(body.take(i - start + 1).drop_last() =~= body.take(i - start));
        assert(body.take(i - start + 1).last() == c);
        if acc > (u64::MAX - d) / 10 {
            proof {
                assert(decimal_value(body.take(i - start + 1)) == 10 * acc + d);
                assert(10 * acc + d > u64::MAX);
                if all_digits(body) {
                    lemma_decimal_value_grows(body, i - start + 1);
                }
            }
            return None;
        }
        acc = acc * 10 + d;
        i = i + 1;
    }
    assert(body.take(body.len() as int) =~= body);
    Some(acc)
}

/// The text of capture group `group` of the first match of the regular
/// expression `pattern` in `text`, as the regex crate finds it; `None` when the
/// pattern is not valid, when it does not match, or when the group took no part.
pub uninterp spec fn regex_capture(pattern: Seq<char>, text: Seq<char>, group: nat) -> Option<
    Seq<char>,
>;

/// Calls regex: `Regex::new(pattern)`, then `Regex::captures(text)` and
/// `Captures::get(group)`; the result is named by [`regex_capture`], which
/// depends on the pattern, the text and the group alone.
#[verifier::external_body]
pub(crate) fn regex_capture_group(pattern: &str, text: &str, group: usize) -> (r: Option<String>)
    ensures
        r is Some <==> regex_capture(pattern@, text@, group as nat) is Some,
        r is Some ==> r.unwrap()@ == regex_capture(pattern@, text@, group as nat).unwrap(),
        r is Some ==> regex_compiles(pattern@),
{
    Regex::new(pattern).ok()?.captures(text)?.get(group).map(|m| m.as_str().to_string())
}

/// Whether `pattern` is a regular expression that the regex crate accepts.
pub uninterp spec fn regex_compiles(pattern: Seq<char>) -> bool;

/// Calls regex `Regex::new(pattern)` and tells whether it succeeded; the result
/// is named by [`regex_compiles`], a function of the pattern alone.
#[verifier::external_body]
pub(crate) fn regex_valid(pattern: &str) -> (r: bool)
    ensures
        r == regex_compiles(pattern@),
{
    Regex::new(pattern).is_ok()
}

/// Whether `pat` occurs in `text` as a run of consecutive characters (the
/// empty pattern occurs in every text).
pub open spec fn has_substring(text: Seq<char>, pat: Seq<char>) -> bool {
    exists|i: int| 0 <= i && i + pat.len() <= text.len() && #[trigger] text.subrange(i, i + pat.len()) == pat
}

/// Whether `pat` occurs in `text` at position `i`.
fn occurs_at(text: &Vec<char>, pat: &Vec<char>, i: usize) -> (r: bool)
    requires
        i + pat@.len() <= text@.len(),
    ensures
        r == (text@.subrange(i as int, i + pat@.len()) == pat@),
{
    let mut j: usize = 0;
    while j < pat.len()
        invariant
            i + pat@.len() <= text@.len(),
            j <= pat.len(),
            forall|k: int| 0 <= k < j ==> text@[i + k] == pat@[k],
        decreases pat.len() - j,
    {
        let n: usize = text.len();
        assert(i + j < n);
        if text[i + j] != pat[j] {
            assert(text@.subrange(i as int, i + pat@.len())[j as int] != pat@[j as int]);
            return false;
        }
        j = j + 1;
    }
    assert(text@.subrange(i as int, i + pat@.len()) =~= pat@);
    true
}

/// Whether `text` contains `pat`.
pub fn contains_str(text: &String, pat: &String) -> (r: bool)
    ensures
        r == has_substring(text@, pat@),
{
    let t = string_to_chars(text);
    let p = string_to_chars(pat);
    if p.len() > t.len() {
        return false;
    }
    let last: usize = t.len() - p.len();
    let mut i: usize = 0;
    loop
        invariant
            t@ == text@,
            p@ == pat@,
            last == t@.len() - p@.len(),
            i <= last,
            forall|k: int| 0 <= k < i ==> #[trigger] t@.subrange(k, k + p@.len()) != p@,
        decreases last - i,
    {
        if occurs_at(&t, &p, i) {
            return true;
        }
        if i == last {
            assert forall|k: int| 0 <= k && k + p@.len() <= t@.len() implies #[trigger] t@.subrange(
                k,
                k + p@.len(),
            ) != p@ by {
                assert(k <= last);
            }
            return false;
        }
        i = i + 1;
    }
}

} // verus!
