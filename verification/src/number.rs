//! Contract integers: signed values of up to 256 bits, their decimal text
//! and the ranges of the declared widths.

use vstd::prelude::*;
use vstd::arithmetic::mul::lemma_mul_increases;
use vstd::arithmetic::power2::{lemma2_to64, lemma_pow2_adds, lemma_pow2_pos, pow2};
use vstd::utf8::is_ascii_chars;
use crate::error::{result_view, BridgeError, ErrorModel};
use crate::text::{ascii_codes, ascii_text, is_ascii_bytes, text_bytes, text_from_bytes, lemma_ascii_round_trip};
use crate::wide::{u256_limit, U256};

verus! {

/// Whether a byte is the code of a decimal digit.
pub open spec fn is_digit(b: u8) -> bool {
    48 <= b <= 57
}

/// The number that a sequence of decimal digits writes, the most significant
/// digit first.
pub open spec fn digits_value(digits: Seq<u8>) -> nat
    decreases digits.len(),
{
    if digits.len() == 0 {
        0
    } else {
        digits_value(digits.drop_last()) * 10 + (digits.last() - 48) as nat
    }
}

/// Whether every byte is a decimal digit.
pub open spec fn all_digits(digits: Seq<u8>) -> bool {
    forall|i: int| 0 <= i < digits.len() ==> is_digit(#[trigger] digits[i])
}

/// Whether the bytes start with a sign, `-` or `+`.
pub open spec fn has_sign(bytes: Seq<u8>) -> bool {
    bytes.len() > 0 && (bytes[0] == 45 || bytes[0] == 43)
}

/// The bytes after the sign, if there is one.
pub open spec fn unsigned_part(bytes: Seq<u8>) -> Seq<u8> {
    if has_sign(bytes) {
        bytes.skip(1)
    } else {
        bytes
    }
}

/// Whether the bytes are an integer literal: an optional sign, then one or
/// more decimal digits.
pub open spec fn is_literal_bytes(bytes: Seq<u8>) -> bool {
    unsigned_part(bytes).len() > 0 && all_digits(unsigned_part(bytes))
}

/// The integer that a literal writes.
pub open spec fn literal_bytes_value(bytes: Seq<u8>) -> int {
    if bytes.len() > 0 && bytes[0] == 45 {
        -(digits_value(unsigned_part(bytes)) as int)
    } else {
        digits_value(unsigned_part(bytes)) as int
    }
}

/// What reading a literal gives: the integer, a `TypeMismatch` for bytes
/// that are no literal, `OutOfRange` for a literal whose magnitude reaches two
/// to the power 256.
pub open spec fn literal_bytes_result(bytes: Seq<u8>) -> Result<int, ErrorModel> {
    if !is_literal_bytes(bytes) {
        Err(ErrorModel::TypeMismatch)
    } else if !(-u256_limit() < literal_bytes_value(bytes) < u256_limit()) {
        Err(ErrorModel::OutOfRange)
    } else {
        Ok(literal_bytes_value(bytes))
    }
}

/// What reading a text as a literal gives.
pub open spec fn literal_result(text: Seq<char>) -> Result<int, ErrorModel> {
    if is_ascii_chars(text) {
        literal_bytes_result(ascii_codes(text))
    } else {
        Err(ErrorModel::TypeMismatch)
    }
}

/// Whether a text is an integer literal.
pub open spec fn is_integer_literal(text: Seq<char>) -> bool {
    is_ascii_chars(text) && is_literal_bytes(ascii_codes(text))
}

/// The integer that a text writes, where it is an integer literal.
pub open spec fn literal_value(text: Seq<char>) -> int {
    literal_bytes_value(ascii_codes(text))
}

/// The decimal digits of a natural number, without leading zeros.
pub open spec fn decimal_digits(n: nat) -> Seq<u8>
    decreases n,
{
    if n < 10 {
        seq![(n + 48) as u8]
    } else {
        decimal_digits(n / 10).push((n % 10 + 48) as u8)
    }
}

/// The canonical literal of an integer: a `-` for a negative one, then the
/// digits of its magnitude.
pub open spec fn decimal_bytes(v: int) -> Seq<u8> {
    if v < 0 {
        seq![45u8] + decimal_digits((-v) as nat)
    } else {
        decimal_digits(v as nat)
    }
}

/// The canonical decimal text of an integer.
pub open spec fn decimal_text(v: int) -> Seq<char> {
    ascii_text(decimal_bytes(v))
}

/// Whether an integer fits a field of `width` bits, signed or unsigned.
pub open spec fn int_in_range(v: int, width: nat, signed: bool) -> bool {
    if signed {
        width >= 1 && -pow2((width - 1) as nat) <= v < pow2((width - 1) as nat)
    } else {
        0 <= v < pow2(width)
    }
}

/// A number that starts with the digits of another is at least as large.
pub proof fn lemma_digits_value_prefix(digits: Seq<u8>, k: int)
    requires
        0 <= k <= digits.len(),
        all_digits(digits),
    ensures
        digits_value(digits.take(k)) <= digits_value(digits),
    decreases digits.len(),
{
    if k == digits.len() {
        assert(digits.take(k) =~= digits);
    } else {
        lemma_digits_value_prefix(digits.drop_last(), k);
        assert(digits.drop_last().take(k) =~= digits.take(k));
        assert(is_digit(digits[digits.len() - 1]));
    }
}

/// The digits of a number are digits, and write that number.
pub proof fn lemma_decimal_digits(n: nat)
    ensures
        decimal_digits(n).len() > 0,
        all_digits(decimal_digits(n)),
        digits_value(decimal_digits(n)) == n,
        n > 0 ==> decimal_digits(n)[0] != 48,
    decreases n,
{
    if n < 10 {
        let s = decimal_digits(n);
        assert(s.drop_last() =~= Seq::<u8>::empty());
        assert(digits_value(s.drop_last()) == 0);
    } else {
        lemma_decimal_digits(n / 10);
        let s = decimal_digits(n);
        assert(s.drop_last() =~= decimal_digits(n / 10));
    }
}

/// The canonical text of an integer is a literal that writes it; so reading
/// what was written gives the integer back.
pub proof fn lemma_decimal_round_trip(v: int)
    ensures
        is_ascii_bytes(decimal_bytes(v)),
        is_literal_bytes(decimal_bytes(v)),
        literal_bytes_value(decimal_bytes(v)) == v,
        is_integer_literal(decimal_text(v)),
        literal_value(decimal_text(v)) == v,
{
    let b = decimal_bytes(v);
    if v < 0 {
        let d = decimal_digits((-v) as nat);
        lemma_decimal_digits((-v) as nat);
        assert(b.skip(1) =~= d);
        assert(b[0] == 45);
    } else {
        lemma_decimal_digits(v as nat);
        assert(is_digit(b[0]));
    }
    assert(is_ascii_bytes(b)) by {
        assert forall|i: int| 0 <= i < b.len() implies #[trigger] b[i] < 128 by {
            if v < 0 && i > 0 {
                assert(is_digit(decimal_digits((-v) as nat)[i - 1]));
            } else if v >= 0 {
                assert(is_digit(decimal_digits(v as nat)[i]));
            }
        }
    }
    lemma_ascii_round_trip(Seq::<char>::empty(), b);
}

/// Whether a text writes an amount: one or more decimal digits, after a `+`
/// or after nothing, whose number fits 64 bits. A `-` is refused, before zero
/// too.
pub open spec fn is_amount_text(text: Seq<char>) -> bool {
    is_integer_literal(text) && ascii_codes(text)[0] != 45 && literal_value(text) <= u64::MAX
}

/// Reads an amount, an unsigned number of 64 bits, from its text.
pub fn parse_amount(text: &str) -> (r: Option<u64>)
    ensures
        r is Some <==> is_amount_text(text@),
        r matches Some(amount) ==> amount == literal_value(text@),
{
    let bytes = match text_bytes(text) {
        Some(bytes) => bytes,
        None => {
            return None;
        },
    };
    if bytes.len() == 0 || bytes[0] == 45 {
        return None;
    }
    match AbiInt::parse_decimal_bytes(&bytes) {
        Ok(number) => number.to_u64(),
        Err(_) => None,
    }
}

/// A signed integer whose magnitude is below two to the power 256.
#[derive(Clone, Copy, Debug, PartialEq, Eq)]
pub struct AbiInt {
    negative: bool,
    magnitude: U256,
}

impl View for AbiInt {
    type V = int;

    closed spec fn view(&self) -> int {
        if self.negative {
            -(self.magnitude@ as int)
        } else {
            self.magnitude@ as int
        }
    }
}

impl AbiInt {
    /// The integer with the given sign and magnitude. Zero is never
    /// negative.
    pub fn new(negative: bool, magnitude: U256) -> (r: AbiInt)
        ensures
            r@ == (if negative {
                -(magnitude@ as int)
            } else {
                magnitude@ as int
            }),
    {
        AbiInt { negative: negative && !magnitude.is_zero(), magnitude }
    }

    /// The integer of a machine number.
    pub fn from_i64(x: i64) -> (r: AbiInt)
        ensures
            r@ == x,
    {
        if x < 0 {
            AbiInt { negative: true, magnitude: U256::from_u64((-(x + 1)) as u64 + 1) }
        } else {
            AbiInt { negative: false, magnitude: U256::from_u64(x as u64) }
        }
    }

    /// Whether the integer is below zero.
    pub fn is_negative(&self) -> (r: bool)
        ensures
            r == (self@ < 0),
    {
        self.negative && !self.magnitude.is_zero()
    }

    /// The absolute value.
    pub fn magnitude(&self) -> (r: U256)
        ensures
            r@ == (if self@ < 0 {
                -self@
            } else {
                self@
            }),
    {
        self.magnitude
    }

    /// Whether two integers have the same value.
    pub fn same_value(&self, other: &AbiInt) -> (r: bool)
        ensures
            r == (self@ == other@),
    {
        proof {
            crate::wide::lemma_u256_view(self.magnitude, other.magnitude);
        }
        self.magnitude == other.magnitude && (self.negative == other.negative
            || self.magnitude.is_zero())
    }

    /// Whether the integer fits a field of `width` bits. No integer fits a
    /// signed field of no bits.
    pub fn fits(&self, width: u16, signed: bool) -> (r: bool)
        ensures
            r == int_in_range(self@, width as nat, signed),
    {
        proof {
            lemma2_to64();
            lemma_pow2_adds(64, 64);
            lemma_pow2_adds(128, 64);
            lemma_pow2_adds(192, 64);
            assert(pow2(256) == u256_limit());
            lemma_pow2_pos(width as nat);
            crate::wide::lemma_u256_view(self.magnitude, self.magnitude);
            if width >= 256 {
                lemma_pow2_adds(256, (width - 256) as nat);
                lemma_pow2_pos((width - 256) as nat);
                lemma_mul_increases(pow2((width - 256) as nat) as int, pow2(256) as int);
            }
            if width >= 257 {
                lemma_pow2_adds(256, (width - 257) as nat);
                lemma_pow2_pos((width - 257) as nat);
                lemma_mul_increases(pow2((width - 257) as nat) as int, pow2(256) as int);
            }
            if width >= 1 {
                lemma_pow2_pos((width - 1) as nat);
            }
        }
        if signed {
            if width == 0 {
                false
            } else if width >= 257 {
                true
            } else {
                let bound = U256::pow2(width - 1);
                if self.negative {
                    !bound.lt(&self.magnitude)
                } else {
                    self.magnitude.lt(&bound)
                }
            }
        } else if self.is_negative() {
            false
        } else if width >= 256 {
            true
        } else {
            let bound = U256::pow2(width);
            self.magnitude.lt(&bound)
        }
    }

    /// The integer as an unsigned machine number of 64 bits, where it fits.
    pub fn to_u64(&self) -> (r: Option<u64>)
        ensures
            r is Some <==> 0 <= self@ <= u64::MAX,
            r matches Some(x) ==> x == self@,
    {
        if self.is_negative() {
            None
        } else {
            self.magnitude.to_u64()
        }
    }

    /// The integer as a machine number of eight bits, where it fits.
    pub fn to_i8(&self) -> (r: Option<i8>)
        ensures
            r is Some <==> -128 <= self@ <= 127,
            r matches Some(x) ==> x == self@,
    {
        match self.magnitude.to_u64() {
            Some(m) => if m > 128 {
                None
            } else if self.negative {
                if m == 128 {
                    Some(-128)
                } else {
                    Some(-(m as i8))
                }
            } else if m == 128 {
                None
            } else {
                Some(m as i8)
            },
            None => None,
        }
    }

    /// Reads a decimal literal from bytes: an optional sign `-` or `+`, then
    /// one or more digits. Bytes that are no literal are a `TypeMismatch`; a
    /// literal whose magnitude reaches two to the power 256 is `OutOfRange`.
    #[verifier::loop_isolation(false)]
    pub fn parse_decimal_bytes(bytes: &Vec<u8>) -> (r: Result<AbiInt, BridgeError>)
        ensures
            result_view(r) == literal_bytes_result(bytes@),
    {
        let n = bytes.len();
        let start: usize = if n > 0 && (bytes[0] == 45 || bytes[0] == 43) {
            1
        } else {
            0
        };
        let ghost digits = unsigned_part(bytes@);
        assert(digits =~= bytes@.skip(start as int));
        if start == n {
            return Err(BridgeError::TypeMismatch);
        }
        let mut i: usize = start;
        while i < n
            invariant
                start <= i <= n,
                all_digits(digits.take(i - start)),
            decreases n - i,
        {
            if !(48 <= bytes[i] && bytes[i] <= 57) {
                assert(!is_digit(digits[i - start]));
                return Err(BridgeError::TypeMismatch);
            }
            proof {
                assert forall|j: int| 0 <= j < i + 1 - start implies is_digit(
                    #[trigger] digits.take(i + 1 - start)[j],
                ) by {
                    if j < i - start {
                        assert(is_digit(digits.take(i - start)[j]));
                    }
                }
            }
            i = i + 1;
        }
        assert(digits.take(n - start) =~= digits);
        let mut acc = U256::zero();
        let mut k: usize = start;
        assert(digits.take(0) =~= Seq::<u8>::empty());
        while k < n
            invariant
                start <= k <= n,
                acc@ == digits_value(digits.take(k - start)),
            decreases n - k,
        {
            assert(is_digit(digits[k - start]));
            let d: u8 = bytes[k] - 48;
            proof {
                assert(digits.take(k + 1 - start).drop_last() =~= digits.take(k - start));
                assert(digits.take(k + 1 - start).last() == bytes[k as int]);
                lemma_digits_value_prefix(digits, k + 1 - start);
            }
            match acc.mul10_add(d) {
                Some(next) => {
                    acc = next;
                },
                None => {
                    return Err(BridgeError::OutOfRange);
                },
            }
            k = k + 1;
        }
        assert(digits.take(n - start) =~= digits);
        proof {
            crate::wide::lemma_u256_view(acc, acc);
        }
        Ok(AbiInt::new(bytes[0] == 45, acc))
    }

    /// Reads a decimal literal from a text. A text that is no literal is a
    /// `TypeMismatch`; a literal whose magnitude reaches two to the power 256
    /// is `OutOfRange`.
    pub fn parse_decimal(text: &str) -> (r: Result<AbiInt, BridgeError>)
        ensures
            result_view(r) == literal_result(text@),
    {
        match text_bytes(text) {
            Some(bytes) => AbiInt::parse_decimal_bytes(&bytes),
            None => Err(BridgeError::TypeMismatch),
        }
    }

    /// The canonical decimal text of the integer.
    pub fn to_decimal(&self) -> (r: String)
        ensures
            r@ == decimal_text(self@),
    {
        let out = self.to_decimal_bytes();
        proof {
            lemma_decimal_round_trip(self@);
        }
        text_from_bytes(&out)
    }

    /// The canonical decimal literal of the integer, as bytes.
    pub fn to_decimal_bytes(&self) -> (out: Vec<u8>)
        ensures
            out@ == decimal_bytes(self@),
    {
        let mut low: Vec<u8> = Vec::new();
        let mut rest = self.magnitude;
        let ghost n = self.magnitude@;
        while !rest.lt(&U256::from_u64(10))
            invariant
                decimal_digits(n) == decimal_digits(rest@) + low@.reverse(),
                all_digits(low@),
            decreases rest@,
        {
            let (q, d) = rest.div_rem10();
            proof {
                assert(low@.push((d + 48) as u8).reverse() =~= seq![(d + 48) as u8]
                    + low@.reverse());
                assert(decimal_digits(rest@) == decimal_digits(q@).push((d + 48) as u8));
                assert(decimal_digits(q@).push((d + 48) as u8) + low@.reverse()
                    =~= decimal_digits(q@) + (seq![(d + 48) as u8] + low@.reverse()));
            }
            low.push(d + 48);
            rest = q;
        }
        let mut out: Vec<u8> = Vec::new();
        if self.is_negative() {
            out.push(45);
        }
        let ghost sign = out@;
        let last: u64 = match rest.to_u64() {
            Some(last) => last,
            None => 0,
        };
        out.push(last as u8 + 48);
        let mut j: usize = low.len();
        while j > 0
            invariant
                j <= low.len(),
                all_digits(low@),
                out@ == sign + seq![(rest@ + 48) as u8] + low@.reverse().take(low.len() - j),
            decreases j,
        {
            j = j - 1;
            out.push(low[j]);
            proof {
                let r = low@.reverse();
                assert(r.take(low.len() - j) =~= r.take(low.len() - j - 1).push(low@[j as int]));
            }
        }
        proof {
            assert(low@.reverse().take(low.len() as int) =~= low@.reverse());
            assert(decimal_digits(rest@) =~= seq![(rest@ + 48) as u8]);
            assert(out@ =~= decimal_bytes(self@));
        }
        out
    }
}

} // verus!
