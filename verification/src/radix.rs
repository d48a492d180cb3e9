//! Numerals of four-state bit vectors in binary, octal, decimal and hexadecimal.
use crate::text::{
    digit_char, digits, lemma_digits_len, pad_zeros, push_all, string_from_chars, string_to_chars,
};
use crate::wave::WireValue;
use num_bigint::BigUint;
use vstd::arithmetic::power::{lemma_pow_multiplies, pow};
use vstd::arithmetic::power2::{
    lemma2_to64, lemma_pow2, lemma_pow2_adds, lemma_pow2_pos, lemma_pow2_strictly_increases, pow2,
};
use vstd::prelude::*;

verus! {

/// The base a value is shown in.
#[derive(Clone, Copy, Debug, PartialEq, Eq, Structural, PartialOrd, Ord, Hash)]
pub enum Radix {
    Bin,
    Oct,
    Dec,
    Hex,
}

impl Radix {
    pub open spec fn spec_number(self) -> nat {
        match self {
            Radix::Bin => 2,
            Radix::Oct => 8,
            Radix::Dec => 10,
            Radix::Hex => 16,
        }
    }

    /// The base as a number: 2, 8, 10 or 16.
    pub fn to_number(&self) -> (n: usize)
        ensures
            n == self.spec_number(),
    {
        match self {
            Radix::Bin => 2,
            Radix::Oct => 8,
            Radix::Dec => 10,
            Radix::Hex => 16,
        }
    }

    /// The name of the radix, as its `Debug` form prints it.
    pub fn to_string(&self) -> (s: String)
        ensures
            s@ == self.spec_name(),
    {
        let chars: Vec<char> = match self {
            Radix::Bin => vec!['B', 'i', 'n'],
            Radix::Oct => vec!['O', 'c', 't'],
            Radix::Dec => vec!['D', 'e', 'c'],
            Radix::Hex => vec!['H', 'e', 'x'],
        };
        string_from_chars(&chars)
    }

    pub open spec fn spec_name(self) -> Seq<char> {
        match self {
            Radix::Bin => seq!['B', 'i', 'n'],
            Radix::Oct => seq!['O', 'c', 't'],
            Radix::Dec => seq!['D', 'e', 'c'],
            Radix::Hex => seq!['H', 'e', 'x'],
        }
    }
}

/// The numeric weight of a wire value: `0` for `V0`, `1` for every other value
/// (`x` and `z` count as one).
pub open spec fn wire_bit(w: WireValue) -> nat {
    if w == WireValue::V0 {
        0
    } else {
        1
    }
}

/// The number that the bits stand for, least significant bit first.
pub open spec fn bits_value(s: Seq<WireValue>) -> nat
    decreases s.len(),
{
    if s.len() == 0 {
        0
    } else {
        wire_bit(s[0]) + 2 * bits_value(s.drop_first())
    }
}

/// The number that little-endian bytes stand for.
pub open spec fn le_value(b: Seq<u8>) -> nat
    decreases b.len(),
{
    if b.len() == 0 {
        0
    } else {
        b[0] as nat + 256 * le_value(b.drop_first())
    }
}

/// The shortest little-endian form of a number: one byte at least, and no
/// zero byte at the most significant end unless the number is zero.
pub open spec fn is_minimal_le(b: Seq<u8>) -> bool {
    b.len() >= 1 && (b.len() > 1 ==> b[b.len() - 1] != 0)
}

pub proof fn lemma_bits_value_push(s: Seq<WireValue>, w: WireValue)
    ensures
        bits_value(s.push(w)) == bits_value(s) + wire_bit(w) * pow2(s.len()),
    decreases s.len(),
{
    lemma_pow2_pos(s.len());
    if s.len() == 0 {
        assert(pow2(0) == 1) by {
            lemma2_to64();
        }
        assert(s.push(w).drop_first() =~= Seq::<WireValue>::empty());
        assert(bits_value(Seq::<WireValue>::empty()) == 0);
        assert(s.push(w)[0] == w);
    } else {
        lemma_bits_value_push(s.drop_first(), w);
        assert(s.push(w).drop_first() =~= s.drop_first().push(w));
        assert(s.push(w)[0] == s[0]);
        lemma_pow2_adds(1, (s.len() - 1) as nat);
        assert(pow2(1) == 2) by {
            lemma2_to64();
        }
        assert(2 * (wire_bit(w) * pow2((s.len() - 1) as nat)) == wire_bit(w) * pow2(s.len()))
            by (nonlinear_arith)
            requires
                pow2(s.len()) == 2 * pow2((s.len() - 1) as nat),
        ;
    }
}

pub proof fn lemma_le_value_push(b: Seq<u8>, x: u8)
    ensures
        le_value(b.push(x)) == le_value(b) + x * pow2(8 * b.len()),
    decreases b.len(),
{
    if b.len() == 0 {
        assert(pow2(0) == 1) by {
            lemma2_to64();
        }
        assert(b.push(x).drop_first() =~= Seq::<u8>::empty());
        assert(le_value(Seq::<u8>::empty()) == 0);
        assert(b.push(x)[0] == x);
        assert(le_value(b.push(x)) == x as nat + 256 * le_value(b.push(x).drop_first()));
    } else {
        lemma_le_value_push(b.drop_first(), x);
        assert(b.push(x).drop_first() =~= b.drop_first().push(x));
        assert(b.push(x)[0] == b[0]);
        lemma_pow2_adds(8, (8 * (b.len() - 1)) as nat);
        assert(pow2(8) == 256) by {
            lemma2_to64();
        }
        assert((8 + 8 * (b.len() - 1)) as nat == 8 * b.len());
        assert(pow2(8 * b.len()) == 256 * pow2((8 * (b.len() - 1)) as nat));
        assert(le_value(b.push(x)) == b[0] as nat + 256 * le_value(b.push(x).drop_first()));
        assert(le_value(b) == b[0] as nat + 256 * le_value(b.drop_first()));
        assert(256 * (x * pow2((8 * (b.len() - 1)) as nat)) == x * pow2(8 * b.len()))
            by (nonlinear_arith)
            requires
                pow2(8 * b.len()) == 256 * pow2((8 * (b.len() - 1)) as nat),
        ;
    }
}

/// A vector of `len` bits stands for a number below `2^len`.
pub proof fn lemma_bits_value_bound(s: Seq<WireValue>)
    ensures
        bits_value(s) < pow2(s.len()),
    decreases s.len(),
{
    if s.len() == 0 {
        assert(pow2(0) == 1) by {
            lemma2_to64();
        }
    } else {
        lemma_bits_value_bound(s.drop_first());
        lemma_pow2_adds(1, (s.len() - 1) as nat);
        assert(pow2(1) == 2) by {
            lemma2_to64();
        }
    }
}

proof fn lemma_pack_step(
    le_old: nat,
    p: nat,
    old_byte: nat,
    b: nat,
    w: nat,
    bits_i: nat,
    bits_next: nat,
    pow_i: nat,
)
    requires
        le_old + p * old_byte == bits_i,
        bits_next == bits_i + b * pow_i,
        pow_i == p * w,
    ensures
        le_old + p * (old_byte + b * w) == bits_next,
        le_old + (old_byte + b * w) * p == bits_next,
{
    assert(p * (old_byte + b * w) == p * old_byte + b * (p * w)) by (nonlinear_arith);
    assert((old_byte + b * w) * p == p * (old_byte + b * w)) by (nonlinear_arith);
}

/// The bit a wire value is packed as: `0` for zero, `1` for anything else.
pub fn value_map_val(v: &WireValue) -> (b: u8)
    ensures
        b == wire_bit(*v),
{
    match v {
        WireValue::V0 => 0,
        _ => 1,
    }
}

/// Packs bits (least significant first) into little-endian bytes; `x` and `z`
/// are taken as one.
pub fn radix_value_big_uint(vec: &[WireValue]) -> (bytes: Vec<u8>)
    ensures
        le_value(bytes@) == bits_value(vec@),
        bytes@.len() == (vec@.len() + 7) / 8,
{
    let mut bytes: Vec<u8> = Vec::new();
    let mut byte: u8 = 0;
    let mut weight: u8 = 1;
    let mut i: usize = 0;
    proof {
        lemma2_to64();
        assert(vec@.take(0) =~= Seq::<WireValue>::empty());
    }
    while i < vec.len()
        invariant
            i <= vec.len(),
            bytes@.len() == i / 8,
            weight == pow2((i % 8) as nat),
            byte < weight,
            le_value(bytes@) + pow2(8 * (i / 8) as nat) * byte == bits_value(vec@.take(i as int)),
        decreases vec.len() - i,
    {
        proof {
            lemma2_to64();
        }
        let b: u8 = value_map_val(&vec[i]);
        assert(b == 0 || b == 1);
        let ghost old_byte = byte;
        let ghost old_bytes = bytes@;
        let ghost p = pow2(8 * (i / 8) as nat);
        proof {
            assert(vec@.take(i + 1) =~= vec@.take(i as int).push(vec@[i as int]));
            lemma_bits_value_push(vec@.take(i as int), vec@[i as int]);
            assert(8 * (i / 8) + i % 8 == i);
            lemma_pow2_adds(8 * (i / 8) as nat, (i % 8) as nat);
            assert(wire_bit(vec@[i as int]) == b);
            lemma_pack_step(
                le_value(bytes@),
                p,
                old_byte as nat,
                b as nat,
                weight as nat,
                bits_value(vec@.take(i as int)),
                bits_value(vec@.take(i + 1)),
                pow2(i as nat),
            );
        }
        byte = byte + b * weight;
        if i % 8 == 7 {
            proof {
                lemma_le_value_push(bytes@, byte);
                assert(pow2(0) == 1);
            }
            bytes.push(byte);
            byte = 0;
            weight = 1;
        } else {
            proof {
                assert(weight <= 64) by {
                    if i % 8 < 6 {
                        lemma_pow2_strictly_increases((i % 8) as nat, 6);
                    }
                }
                lemma_pow2_adds((i % 8) as nat, 1);
            }
            weight = weight * 2;
        }
        i = i + 1;
    }
    assert(vec@.take(vec.len() as int) =~= vec@);
    proof {
        lemma2_to64();
    }
    if vec.len() % 8 != 0 {
        let ghost old_bytes = bytes@;
        proof {
            lemma_le_value_push(bytes@, byte);
            assert(le_value(old_bytes.push(byte)) == le_value(old_bytes) + byte * pow2(
                8 * (vec.len() / 8) as nat,
            ));
        }
        bytes.push(byte);
        assert(bytes@ == old_bytes.push(byte));
        assert(byte * pow2(8 * (vec.len() / 8) as nat) == pow2(8 * (vec.len() / 8) as nat) * byte)
            by (nonlinear_arith);
    } else {
        assert(byte == 0);
    }
    bytes
}

/// The numeral of the number that little-endian `bytes` stand for, in base `radix`.
///
/// Calls num-bigint: `BigUint::from_bytes_le` and then `BigUint::to_str_radix`.
/// Its source gives `"0"` for zero and otherwise the lowercase digits without
/// leading zeros, most significant first; it panics unless `2 <= radix <= 36`,
/// which `requires` excludes.
#[verifier::external_body]
fn biguint_str_radix(bytes: &[u8], radix: u32) -> (s: String)
    requires
        2 <= radix <= 36,
    ensures
        s@ == digits(le_value(bytes@), radix as nat),
{
    BigUint::from_bytes_le(bytes).to_str_radix(radix)
}

/// The shortest little-endian bytes of the number that `bytes` stand for.
///
/// Calls num-bigint: `BigUint::from_bytes_le` and then `BigUint::to_bytes_le`.
/// Its source gives `[0]` for zero and otherwise the bytes without zero bytes at
/// the most significant end.
#[verifier::external_body]
pub(crate) fn biguint_minimal_le(bytes: &[u8]) -> (out: Vec<u8>)
    ensures
        le_value(out@) == le_value(bytes@),
        is_minimal_le(out@),
{
    BigUint::from_bytes_le(bytes).to_bytes_le()
}

/// The numeral of a stored little-endian number in the given radix.
pub fn le_bytes_to_str_radix(bytes: &[u8], radix: Radix) -> (s: String)
    ensures
        s@ == digits(le_value(bytes@), radix.spec_number()),
{
    let r: u32 = match radix {
        Radix::Bin => 2,
        Radix::Oct => 8,
        Radix::Dec => 10,
        Radix::Hex => 16,
    };
    biguint_str_radix(bytes, r)
}

/// Number of base-`2^n` digits that a vector of `len` bits is shown with.
pub open spec fn digit_count(len: nat, n: nat) -> nat {
    len / n + if len % n != 0 {
        1nat
    } else {
        0nat
    }
}

/// Whether one of the `n` bits that make up digit `k` (counted from the most
/// significant of `d` digits) has the value `w`.
pub open spec fn group_has(s: Seq<WireValue>, n: nat, d: nat, k: int, w: WireValue) -> bool {
    exists|j: int|
        n * (d - 1 - k) <= j < n * (d - 1 - k) + n && 0 <= j < s.len() && #[trigger] s[j] == w
}

/// The base-`2^n` numeral of a bit vector: the number's numeral padded with
/// zeros to one digit per `n` bits, where a digit whose bits hold an `x` reads
/// `x`, and otherwise one whose bits hold a `z` reads `z`.
pub open spec fn spec_radix_string_n(s: Seq<WireValue>, n: nat) -> Seq<char> {
    let d = digit_count(s.len(), n);
    Seq::new(d, |k: int| radix_digit(s, n, d, k))
}

/// Digit `k` (from the most significant) of the base-`2^n` numeral of `s` shown
/// with `d` digits.
pub open spec fn radix_digit(s: Seq<WireValue>, n: nat, d: nat, k: int) -> char {
    if group_has(s, n, d, k, WireValue::X) {
        'x'
    } else if group_has(s, n, d, k, WireValue::Z) {
        'z'
    } else {
        pad_zeros(digits(bits_value(s), pow2(n)), d)[k]
    }
}

/// The decimal numeral of a bit vector; when the vector holds an `x` every digit
/// reads `x`, and otherwise when it holds a `z` every digit reads `z`.
pub open spec fn spec_radix_dec(s: Seq<WireValue>) -> Seq<char> {
    let str = digits(bits_value(s), 10);
    if s.contains(WireValue::X) {
        Seq::new(str.len(), |i: int| 'x')
    } else if s.contains(WireValue::Z) {
        Seq::new(str.len(), |i: int| 'z')
    } else {
        str
    }
}

/// The bits as characters, most significant first.
pub open spec fn spec_radix_bin(s: Seq<WireValue>) -> Seq<char> {
    Seq::new(s.len(), |k: int| s[s.len() - 1 - k].spec_char())
}

/// Bits per digit of a power-of-two radix.
pub open spec fn radix_bits(radix: Radix) -> nat {
    match radix {
        Radix::Bin => 1,
        Radix::Oct => 3,
        Radix::Hex => 4,
        Radix::Dec => 0,
    }
}

pub open spec fn spec_radix_vector_to_string(radix: Radix, s: Seq<WireValue>) -> Seq<char> {
    match radix {
        Radix::Dec => spec_radix_dec(s),
        _ => spec_radix_string_n(s, radix_bits(radix)),
    }
}

/// Whether a vector can be shown in `radix`: the power-of-two radixes need at
/// least one bit.
pub open spec fn radix_accepts(radix: Radix, s: Seq<WireValue>) -> bool {
    radix == Radix::Dec || (0 < s.len() && s.len() + 8 <= usize::MAX)
}

/// Shows a bit vector (least significant bit first) in `radix`.
pub fn radix_vector_to_string(radix: Radix, vec: &Vec<WireValue>) -> (s: String)
    requires
        radix_accepts(radix, vec@),
    ensures
        s@ == spec_radix_vector_to_string(radix, vec@),
{
    match radix {
        Radix::Dec => radix_vector_dec(vec),
        Radix::Bin => radix_vector_to_string_n(vec, 1),
        Radix::Oct => radix_vector_to_string_n(vec, 3),
        Radix::Hex => radix_vector_to_string_n(vec, 4),
    }
}

/// The bits as a string of `0`, `1`, `x` and `z`, most significant first.
pub fn radix_vector_bin(vec: &[WireValue]) -> (s: String)
    ensures
        s@ == spec_radix_bin(vec@),
{
    let mut out: Vec<char> = Vec::new();
    let mut i: usize = vec.len();
    while i > 0
        invariant
            i <= vec.len(),
            out@.len() == vec.len() - i,
            forall|k: int|
                0 <= k < out@.len() ==> out@[k] == vec@[vec@.len() - 1 - k].spec_char(),
        decreases i,
    {
        i = i - 1;
        out.push(vec[i].to_char());
    }
    assert(out@ =~= spec_radix_bin(vec@));
    string_from_chars(&out)
}

/// Shows a bit vector in base `2^n`, one digit per `n` bits, most significant
/// first; a digit whose bits hold an `x` reads `x`, otherwise one whose bits
/// hold a `z` reads `z`.
pub fn radix_vector_to_string_n(vec: &Vec<WireValue>, n: usize) -> (s: String)
    requires
        1 <= n <= 5,
        0 < vec@.len(),
        vec@.len() + 8 <= usize::MAX,
    ensures
        s@ == spec_radix_string_n(vec@, n as nat),
{
    let len = vec.len();
    let bytes = radix_value_big_uint(vec.as_slice());
    proof {
        lemma2_to64();
    }
    let radix: u32 = if n == 1 {
        2
    } else if n == 2 {
        4
    } else if n == 3 {
        8
    } else if n == 4 {
        16
    } else {
        32
    };
    assert(radix == pow2(n as nat));
    let str = biguint_str_radix(bytes.as_slice(), radix);
    let numeral = string_to_chars(&str);
    let d: usize = len / n + if len % n != 0 {
        1
    } else {
        0
    };
    assert(d == digit_count(len as nat, n as nat));
    assert(n * d <= len + n && d >= 1 && n * d >= len) by (nonlinear_arith)
        requires
            1 <= n,
            0 < len,
            d == len / n + if len % n != 0 {
                1int
            } else {
                0int
            },
    ;
    proof {
        let v = bits_value(vec@);
        lemma_bits_value_bound(vec@);
        if (len as nat) < n * d {
            lemma_pow2_strictly_increases(len as nat, (n * d) as nat);
        }
        lemma_pow2(n as nat);
        lemma_pow2((n * d) as nat);
        lemma_pow_multiplies(2, n as nat, d as nat);
        assert(v < pow(pow2(n as nat) as int, d as nat));
        lemma_digits_len(v, pow2(n as nat), d as nat);
    }
    let mut padded: Vec<char> = Vec::new();
    let prefix_len = d - numeral.len();
    let mut z: usize = 0;
    while z < prefix_len
        invariant
            z <= prefix_len,
            padded@ =~= Seq::new(z as nat, |i: int| '0'),
        decreases prefix_len - z,
    {
        padded.push('0');
        z = z + 1;
    }
    push_all(&mut padded, &numeral);
    let ghost p = pad_zeros(digits(bits_value(vec@), pow2(n as nat)), d as nat);
    assert(padded@ =~= p);
    let mut out: Vec<char> = Vec::new();
    let mut k: usize = 0;
    while k < d
        invariant
            k <= d,
            padded@ == p,
            p == pad_zeros(digits(bits_value(vec@), pow2(n as nat)), d as nat),
            p.len() == d,
            n * d <= len + n,
            1 <= n <= 5,
            len == vec@.len(),
            len + 8 <= usize::MAX,
            out@.len() == k,
            forall|q: int|
                0 <= q < k ==> out@[q] == spec_radix_string_n(vec@, n as nat)[q],
            d == digit_count(len as nat, n as nat),
        decreases d - k,
    {
        assert(n * (d - 1 - k) + n <= len + n) by (nonlinear_arith)
            requires
                k < d,
                n * d <= len + n,
                1 <= n,
        ;
        let base: usize = n * (d - 1 - k);
        let mut has_x = false;
        let mut has_z = false;
        let mut t: usize = 0;
        while t < n
            invariant
                t <= n,
                n <= 5,
                len + 8 <= usize::MAX,
                base + n <= len + n,
                len == vec@.len(),
                has_x <==> exists|j: int|
                    base <= j < base + t && 0 <= j < len && #[trigger] vec@[j] == WireValue::X,
                has_z <==> exists|j: int|
                    base <= j < base + t && 0 <= j < len && #[trigger] vec@[j] == WireValue::Z,
            decreases n - t,
        {
            let j = base + t;
            if j < len {
                match vec[j] {
                    WireValue::X => {
                        has_x = true;
                    },
                    WireValue::Z => {
                        has_z = true;
                    },
                    _ => {},
                }
            }
            t = t + 1;
        }
        let c = if has_x {
            'x'
        } else if has_z {
            'z'
        } else {
            padded[k]
        };
        proof {
            let gx = group_has(vec@, n as nat, d as nat, k as int, WireValue::X);
            let gz = group_has(vec@, n as nat, d as nat, k as int, WireValue::Z);
            assert(has_x == gx);
            assert(has_z == gz);
            let sp = spec_radix_string_n(vec@, n as nat);
            assert(sp.len() == d);
            assert(sp[k as int] == radix_digit(vec@, n as nat, d as nat, k as int));
            assert(padded@[k as int] == p[k as int]);
            assert(radix_digit(vec@, n as nat, d as nat, k as int) == (if gx {
                'x'
            } else if gz {
                'z'
            } else {
                p[k as int]
            }));
            assert(c == sp[k as int]);
        }
        out.push(c);
        k = k + 1;
    }
    assert(out@ =~= spec_radix_string_n(vec@, n as nat));
    string_from_chars(&out)
}

/// Whether `target` occurs in `vec`.
fn contains_value(vec: &Vec<WireValue>, target: WireValue) -> (b: bool)
    ensures
        b == vec@.contains(target),
{
    let mut i: usize = 0;
    while i < vec.len()
        invariant
            i <= vec.len(),
            forall|j: int| 0 <= j < i ==> vec@[j] != target,
        decreases vec.len() - i,
    {
        if vec[i] == target {
            assert(vec@[i as int] == target);
            return true;
        }
        i = i + 1;
    }
    false
}

/// The decimal numeral of a bit vector. A single digit cannot show where an `x`
/// or `z` bit is, so when one is present every digit reads `x` (or `z`).
pub fn radix_vector_dec(vec: &Vec<WireValue>) -> (s: String)
    ensures
        s@ == spec_radix_dec(vec@),
{
    let bytes = radix_value_big_uint(vec.as_slice());
    let str = biguint_str_radix(bytes.as_slice(), 10);
    let exists_x = contains_value(vec, WireValue::X);
    let exists_z = contains_value(vec, WireValue::Z);
    if exists_x || exists_z {
        let numeral = string_to_chars(&str);
        let fill = if exists_x {
            'x'
        } else {
            'z'
        };
        let mut out: Vec<char> = Vec::new();
        let mut i: usize = 0;
        while i < numeral.len()
            invariant
                i <= numeral.len(),
                out@ =~= Seq::new(i as nat, |q: int| fill),
            decreases numeral.len() - i,
        {
            out.push(fill);
            i = i + 1;
        }
        string_from_chars(&out)
    } else {
        str
    }
}

/// For bits without `x` or `z`, the base-`2^n` text is the numeral of their
/// number, zero-padded to one digit per `n` bits (rounded up).
pub proof fn lemma_radix_string_two_state(s: Seq<WireValue>, n: nat)
    requires
        1 <= n <= 5,
        0 < s.len(),
        !s.contains(WireValue::X),
        !s.contains(WireValue::Z),
    ensures
        spec_radix_string_n(s, n) == pad_zeros(
            digits(bits_value(s), pow2(n)),
            digit_count(s.len(), n),
        ),
{
    let len = s.len();
    let d = digit_count(len, n);
    assert(n * d <= len + n && d >= 1 && n * d >= len) by (nonlinear_arith)
        requires
            1 <= n,
            0 < len,
            d == len / n + if len % n != 0 {
                1int
            } else {
                0int
            },
    ;
    let v = bits_value(s);
    lemma_bits_value_bound(s);
    if len < n * d {
        lemma_pow2_strictly_increases(len, (n * d) as nat);
    }
    lemma_pow2(n);
    lemma_pow2((n * d) as nat);
    lemma_pow_multiplies(2, n, d);
    assert(v < pow(pow2(n) as int, d));
    assert(pow2(n) >= 2) by {
        lemma_pow2_strictly_increases(0, n);
        lemma2_to64();
    }
    lemma_digits_len(v, pow2(n), d);
    let p = pad_zeros(digits(v, pow2(n)), d);
    assert forall|k: int| 0 <= k < d implies radix_digit(s, n, d, k) == p[k] by {
        if group_has(s, n, d, k, WireValue::X) {
            let j = choose|j: int|
                n * (d - 1 - k) <= j < n * (d - 1 - k) + n && 0 <= j < s.len() && #[trigger] s[j]
                    == WireValue::X;
            assert(s.contains(WireValue::X));
        }
        if group_has(s, n, d, k, WireValue::Z) {
            let j = choose|j: int|
                n * (d - 1 - k) <= j < n * (d - 1 - k) + n && 0 <= j < s.len() && #[trigger] s[j]
                    == WireValue::Z;
            assert(s.contains(WireValue::Z));
        }
    }
    assert(spec_radix_string_n(s, n) =~= p);
}

/// The binary digits of the bits, most significant first, each bit read as
/// its numeric weight.
pub open spec fn bit_digits(s: Seq<WireValue>) -> Seq<char> {
    Seq::new(s.len(), |k: int| digit_char(wire_bit(s[s.len() - 1 - k])))
}

/// Padding a numeral that grew by one digit at its low end.
proof fn lemma_pad_push(x: Seq<char>, c: char, width: nat)
    requires
        1 <= width,
        x.len() <= width - 1,
    ensures
        pad_zeros(x.push(c), width) == pad_zeros(x, (width - 1) as nat).push(c),
{
    assert(pad_zeros(x.push(c), width) =~= pad_zeros(x, (width - 1) as nat).push(c));
}

/// The binary numeral of the number that `len` bits stand for, padded to
/// `len` digits, is the bits themselves (`x` and `z` counting as one).
pub proof fn lemma_binary_digits(s: Seq<WireValue>)
    requires
        0 < s.len(),
    ensures
        pad_zeros(digits(bits_value(s), 2), s.len()) == bit_digits(s),
    decreases s.len(),
{
    let len = s.len();
    let b = wire_bit(s[0]);
    let v = bits_value(s);
    if len == 1 {
        assert(s.drop_first().len() == 0);
        assert(bits_value(s.drop_first()) == 0);
        assert(v == b);
        assert(pad_zeros(digits(v, 2), 1) =~= bit_digits(s));
    } else {
        let rest = s.drop_first();
        let r = bits_value(rest);
        lemma_binary_digits(rest);
        assert(v == b + 2 * r);
        assert(bit_digits(s) =~= bit_digits(rest).push(digit_char(b))) by {
            assert forall|k: int| 0 <= k < len - 1 implies #[trigger] rest[rest.len() - 1 - k]
                == s[len - 1 - k] by {}
        }
        if v >= 2 {
            assert(v / 2 == r && v % 2 == b);
            assert(digits(v, 2) == digits(r, 2).push(digit_char(b)));
            lemma_bits_value_bound(rest);
            lemma_pow2((len - 1) as nat);
            lemma_digits_len(r, 2, (len - 1) as nat);
            lemma_pad_push(digits(r, 2), digit_char(b), len);
        } else {
            assert(r == 0);
            assert(digits(v, 2) == seq![digit_char(b)]);
            assert(digits(r, 2) == seq![digit_char(0)]);
            assert(pad_zeros(digits(v, 2), len) =~= pad_zeros(digits(r, 2), (len - 1) as nat).push(
                digit_char(b),
            ));
        }
    }
}

/// The text of a bit vector in a radix: in decimal its decimal numeral, in
/// octal and hexadecimal its base-8 and base-16 texts, and in binary its bits,
/// most significant first, one digit per bit, each `0`, `1`, `x` or `z` as
/// the bit is.
pub proof fn lemma_radix_string_bin(s: Seq<WireValue>)
    requires
        0 < s.len(),
    ensures
        spec_radix_string_n(s, 1) == spec_radix_bin(s),
        spec_radix_vector_to_string(Radix::Bin, s) == spec_radix_bin(s),
        spec_radix_vector_to_string(Radix::Dec, s) == spec_radix_dec(s),
        spec_radix_vector_to_string(Radix::Oct, s) == spec_radix_string_n(s, 3),
        spec_radix_vector_to_string(Radix::Hex, s) == spec_radix_string_n(s, 4),
{
    let len = s.len();
    assert(digit_count(len, 1) == len);
    lemma_binary_digits(s);
    lemma_pow2(1);
    assert(pow2(1) == 2) by {
        lemma2_to64();
    }
    assert forall|k: int| 0 <= k < len implies radix_digit(s, 1, len, k) == spec_radix_bin(s)[k] by {
        let j = len - 1 - k;
        assert(s[j] == WireValue::X ==> group_has(s, 1, len, k, WireValue::X));
        assert(s[j] == WireValue::Z ==> group_has(s, 1, len, k, WireValue::Z));
        if group_has(s, 1, len, k, WireValue::X) {
            let i = choose|i: int|
                1 * (len - 1 - k) <= i < 1 * (len - 1 - k) + 1 && 0 <= i < s.len() && #[trigger] s[i]
                    == WireValue::X;
            assert(i == j);
        } else if group_has(s, 1, len, k, WireValue::Z) {
            let i = choose|i: int|
                1 * (len - 1 - k) <= i < 1 * (len - 1 - k) + 1 && 0 <= i < s.len() && #[trigger] s[i]
                    == WireValue::Z;
            assert(i == j);
        } else {
            assert(bit_digits(s)[k] == digit_char(wire_bit(s[j])));
            assert(digit_char(0) == '0');
            assert(digit_char(1) == '1');
        }
    }
    assert(spec_radix_string_n(s, 1) =~= spec_radix_bin(s));
}

} // verus!
