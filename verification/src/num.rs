//! Decimal numerals: the representation the encoder writes and the parse
//! the decoder applies to `:` payloads and declared lengths.

use crate::error::Error;
use crate::value::crlf_free;
use vstd::arithmetic::div_mod::lemma_fundamental_div_mod;
use vstd::prelude::*;

verus! {

/// Byte value of `'+'`, a legal leading sign of a numeral.
pub const PLUS: u8 = 43;

/// Byte value of `'-'`, the negative leading sign of a numeral.
pub const MINUS: u8 = 45;

/// The byte is an ASCII decimal digit.
pub open spec fn is_digit(b: u8) -> bool {
    48 <= b <= 57
}

/// Every byte of the sequence is an ASCII decimal digit.
pub open spec fn all_digits(s: Seq<u8>) -> bool {
    forall|i: int| 0 <= i < s.len() ==> is_digit(s[i])
}

/// The decimal digits of `n`, most significant first; a single `0` for
/// zero and no leading zero otherwise.
pub open spec fn digits_of(n: nat) -> Seq<u8>
    decreases n,
{
    if n < 10 {
        seq![(48 + n) as u8]
    } else {
        digits_of(n / 10).push((48 + n % 10) as u8)
    }
}

/// The decimal representation of `v`: a minus sign for negative values,
/// then the digits of the magnitude.
pub open spec fn int_bytes(v: int) -> Seq<u8> {
    if v < 0 {
        seq![MINUS] + digits_of((-v) as nat)
    } else {
        digits_of(v as nat)
    }
}

/// The value of a digit string, most significant first.
pub open spec fn digits_val(s: Seq<u8>) -> int
    decreases s.len(),
{
    if s.len() == 0 {
        0
    } else {
        digits_val(s.drop_last()) * 10 + (s.last() - 48)
    }
}

/// The digit part of a numeral: everything after an optional single sign.
pub open spec fn numeral_digits(s: Seq<u8>) -> Seq<u8> {
    if s.len() > 0 && (s[0] == PLUS || s[0] == MINUS) {
        s.drop_first()
    } else {
        s
    }
}

/// The numeral carries a minus sign.
pub open spec fn numeral_negative(s: Seq<u8>) -> bool {
    s.len() > 0 && s[0] == MINUS
}

/// The signed value of a numeral.
pub open spec fn numeral_val(s: Seq<u8>) -> int {
    if numeral_negative(s) {
        -digits_val(numeral_digits(s))
    } else {
        digits_val(numeral_digits(s))
    }
}

/// A numeral a 64-bit parse accepts: an optional single sign, one or more
/// digits and nothing else, and a value in the range of `i64`.
pub open spec fn parses_to_i64(s: Seq<u8>) -> bool {
    &&& numeral_digits(s).len() > 0
    &&& all_digits(numeral_digits(s))
    &&& i64::MIN <= numeral_val(s) <= i64::MAX
}

/// A digit string has a non-negative value.
pub proof fn lemma_digits_val_nonneg(s: Seq<u8>)
    requires
        all_digits(s),
    ensures
        digits_val(s) >= 0,
    decreases s.len(),
{
    if s.len() > 0 {
        assert(all_digits(s.drop_last()));
        lemma_digits_val_nonneg(s.drop_last());
    }
}

/// Dropping trailing digits can only shrink the value.
pub proof fn lemma_digits_val_prefix(s: Seq<u8>, k: int)
    requires
        all_digits(s),
        0 <= k <= s.len(),
    ensures
        digits_val(s.subrange(0, k)) <= digits_val(s),
    decreases s.len(),
{
    if k == s.len() {
        assert(s.subrange(0, k) =~= s);
    } else {
        assert(all_digits(s.drop_last()));
        assert(s.subrange(0, k) =~= s.drop_last().subrange(0, k));
        lemma_digits_val_prefix(s.drop_last(), k);
        lemma_digits_val_nonneg(s.drop_last());
    }
}

/// The digits of `n` are digits, at least one, and read back as `n`.
pub proof fn lemma_digits_of(n: nat)
    ensures
        digits_of(n).len() >= 1,
        all_digits(digits_of(n)),
        digits_val(digits_of(n)) == n,
    decreases n,
{
    if n < 10 {
        let s = digits_of(n);
        assert(s.drop_last() =~= Seq::<u8>::empty());
        assert(digits_val(Seq::<u8>::empty()) == 0);
        assert(digits_val(s) == digits_val(s.drop_last()) * 10 + (s.last() - 48));
    } else {
        lemma_digits_of(n / 10);
        lemma_fundamental_div_mod(n as int, 10);
        let d = digits_of(n / 10);
        let whole = d.push((48 + n % 10) as u8);
        assert(whole.drop_last() =~= d);
        assert(digits_val(whole) == digits_val(d) * 10 + n % 10);
    }
}

/// The decimal representation of an `i64` parses back to the same value.
pub proof fn lemma_int_bytes_parse(v: int)
    requires
        i64::MIN <= v <= i64::MAX,
    ensures
        parses_to_i64(int_bytes(v)),
        numeral_val(int_bytes(v)) == v,
{
    if v < 0 {
        lemma_digits_of((-v) as nat);
        let s = int_bytes(v);
        assert(s[0] == MINUS);
        assert(s.drop_first() =~= digits_of((-v) as nat));
    } else {
        lemma_digits_of(v as nat);
        let s = int_bytes(v);
        assert(is_digit(s[0]));
    }
}

/// A decimal representation never holds a CR or an LF byte.
pub proof fn lemma_int_bytes_crlf_free(v: int)
    ensures
        crlf_free(int_bytes(v)),
        crlf_free(digits_of(if v < 0 { (-v) as nat } else { v as nat })),
    decreases if v < 0 { -v } else { v },
{
    let n: nat = if v < 0 {
        (-v) as nat
    } else {
        v as nat
    };
    if n < 10 {
        assert(crlf_free(digits_of(n)));
    } else {
        lemma_int_bytes_crlf_free((n / 10) as int);
        let d = digits_of((n / 10) as nat);
        let whole = d.push((48 + n % 10) as u8);
        assert(digits_of(n) == whole);
        assert forall|i: int| 0 <= i < whole.len() implies whole[i] != crate::value::CR
            && whole[i] != crate::value::LF by {
            if i < d.len() {
                assert(whole[i] == d[i]);
            }
        }
    }
    assert(crlf_free(int_bytes(v)));
}

/// Parse a signed 64-bit decimal numeral, as found on a `:` line or in a
/// declared length: an optional single `+` or `-`, then one or more
/// digits; overflow of `i64` is an error, never a truncation.
pub fn parse_i64(s: &Vec<u8>) -> (r: Result<i64, Error>)
    ensures
        match r {
            Ok(v) => parses_to_i64(s@) && v as int == numeral_val(s@),
            Err(e) => !parses_to_i64(s@) && e == Error::ParseIntError,
        },
{
    let n = s.len();
    let mut idx: usize = 0;
    let mut neg = false;
    if n > 0 && (s[0] == PLUS || s[0] == MINUS) {
        neg = s[0] == MINUS;
        idx = 1;
    }
    proof {
        assert(numeral_digits(s@) =~= s@.subrange(idx as int, n as int));
        assert(numeral_negative(s@) == neg);
    }
    if idx == n {
        return Err(Error::ParseIntError);
    }
    let bound: u64 = if neg {
        9223372036854775808
    } else {
        9223372036854775807
    };
    let mut acc: u64 = 0;
    let mut i = idx;
    while i < n
        invariant
            idx <= i <= n,
            n == s@.len(),
            idx <= 1,
            bound == if neg {
                9223372036854775808u64
            } else {
                9223372036854775807u64
            },
            numeral_digits(s@) == s@.subrange(idx as int, n as int),
            numeral_negative(s@) == neg,
            all_digits(s@.subrange(idx as int, i as int)),
            acc == digits_val(s@.subrange(idx as int, i as int)),
            acc <= bound,
        decreases n - i,
    {
        let b = s[i];
        if b < 48 || b > 57 {
            proof {
                assert(s@.subrange(idx as int, n as int)[i - idx] == s@[i as int]);
            }
            return Err(Error::ParseIntError);
        }
        let d: u64 = (b - 48) as u64;
        let wide: u128 = (acc as u128) * 10 + (d as u128);
        proof {
            let pre = s@.subrange(idx as int, i as int);
            let ext = s@.subrange(idx as int, i + 1);
            assert(ext.drop_last() =~= pre);
            assert(digits_val(ext) == digits_val(pre) * 10 + (b - 48));
        }
        if wide > bound as u128 {
            proof {
                let digits = s@.subrange(idx as int, n as int);
                if all_digits(digits) {
                    lemma_digits_val_prefix(digits, i + 1 - idx);
                    assert(digits.subrange(0, i + 1 - idx) =~= s@.subrange(idx as int, i + 1));
                }
            }
            return Err(Error::ParseIntError);
        }
        acc = (wide as u64);
        i += 1;
    }
    proof {
        assert(s@.subrange(idx as int, n as int) =~= s@.subrange(idx as int, i as int));
    }
    if neg {
        if acc == 9223372036854775808 {
            Ok(i64::MIN)
        } else {
            Ok(-(acc as i64))
        }
    } else {
        Ok(acc as i64)
    }
}

} // verus!
