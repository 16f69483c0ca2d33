//! Raw token amounts, as the RPC node reports them: decimal strings that
//! are read into unscaled integer units. Amounts stay unscaled until final
//! display, so summation never loses precision.

use vstd::prelude::*;
use vstd::string::StringSliceAdditionalSpecFns;

verus! {

/// Value of the decimal digit string `s`, read left to right. Meaningful
/// only when every byte of `s` is an ASCII digit.
pub open spec fn dec_value(s: Seq<u8>) -> int
    decreases s.len(),
{
    if s.len() == 0 {
        0
    } else {
        dec_value(s.drop_last()) * 10 + (s.last() - 0x30)
    }
}

/// Every byte of `s` is an ASCII digit.
pub open spec fn all_digits(s: Seq<u8>) -> bool {
    forall|i: int| 0 <= i < s.len() ==> 0x30 <= #[trigger] s[i] <= 0x39
}

/// The raw balance encoded by the byte string `text`: its decimal value
/// when it is a well-formed number in range, and zero otherwise, which is
/// how the report treats a balance it cannot read.
pub open spec fn raw_amount_of(text: Seq<u8>) -> int {
    if text.len() > 0 && all_digits(text) && dec_value(text) <= u128::MAX {
        dec_value(text)
    } else {
        0
    }
}

proof fn lemma_dec_value_nonneg(s: Seq<u8>)
    requires
        all_digits(s),
    ensures
        dec_value(s) >= 0,
    decreases s.len(),
{
    if s.len() > 0 {
        lemma_dec_value_nonneg(s.drop_last());
    }
}

proof fn lemma_dec_value_prefix_le(s: Seq<u8>, j: int)
    requires
        all_digits(s),
        0 <= j <= s.len(),
    ensures
        dec_value(s.take(j)) <= dec_value(s),
    decreases s.len() - j,
{
    if j == s.len() {
        assert(s.take(j) =~= s);
    } else {
        let t = s.take(j + 1);
        assert(t.drop_last() =~= s.take(j));
        lemma_dec_value_nonneg(s.take(j));
        lemma_dec_value_prefix_le(s, j + 1);
    }
}

/// Reads a decimal amount string into unscaled integer units; a string
/// that is empty, has a non-digit, or overflows reads as zero.
pub fn parse_raw_amount(text: &str) -> (r: u128)
    ensures
        r == raw_amount_of(text.spec_bytes()),
{
    let bytes: &[u8] = text.as_bytes();
    let n: usize = bytes.len();
    if n == 0 {
        return 0;
    }
    let mut value: u128 = 0;
    let mut i: usize = 0;
    while i < n
        invariant
            bytes@ == text.spec_bytes(),
            n == bytes@.len(),
            0 < n,
            i <= n,
            all_digits(bytes@.take(i as int)),
            value == dec_value(bytes@.take(i as int)),
        decreases n - i,
    {
        let b = bytes[i];
        if b < 0x30 || b > 0x39 {
            assert(!all_digits(bytes@));
            return 0;
        }
        let d = (b - 0x30) as u128;
        let limit = (u128::MAX - d) / 10;
        assert(bytes@.take(i + 1).drop_last() =~= bytes@.take(i as int));
        if value > limit {
            proof {
                assert(dec_value(bytes@.take(i + 1)) > u128::MAX) by (nonlinear_arith)
                    requires
                        value > (u128::MAX - d) / 10,
                        d <= 9,
                        d == bytes@.take(i + 1).last() - 0x30,
                        value == dec_value(bytes@.take(i + 1).drop_last()),
                        dec_value(bytes@.take(i + 1)) == dec_value(bytes@.take(i + 1).drop_last())
                            * 10 + (bytes@.take(i + 1).last() - 0x30),
                ;
                if all_digits(bytes@) {
                    lemma_dec_value_prefix_le(bytes@, i + 1);
                }
            }
            return 0;
        }
        proof {
            assert(value * 10 + d <= u128::MAX) by (nonlinear_arith)
                requires
                    value <= (u128::MAX - d) / 10,
                    d <= 9,
            ;
        }
        value = value * 10 + d;
        i += 1;
    }
    proof {
        assert(bytes@.take(n as int) =~= bytes@);
        lemma_dec_value_nonneg(bytes@);
    }
    value
}

} // verus!
