//! The decimal form of signed integers used for stored counter values: an
//! `increment` on a key interprets the stored bytes as a decimal integer
//! and stores the sum back in the same form.

use vstd::prelude::*;

verus! {

/// The ASCII decimal digits of `n`, most significant first.
pub open spec fn dec_digits(n: nat) -> Seq<u8>
    decreases n,
{
    if n < 10 {
        seq![(n + 0x30) as u8]
    } else {
        dec_digits(n / 10) + seq![((n % 10) + 0x30) as u8]
    }
}

/// The canonical decimal representation of `n`: a minus sign for negative
/// values followed by the digits of the magnitude, with no leading zeros.
pub open spec fn dec_rep(n: int) -> Seq<u8> {
    if n < 0 {
        seq![0x2du8] + dec_digits((-n) as nat)
    } else {
        dec_digits(n as nat)
    }
}

/// The value of a sequence of ASCII digits, most significant first.
pub open spec fn digits_value(s: Seq<u8>) -> nat
    decreases s.len(),
{
    if s.len() == 0 {
        0
    } else {
        digits_value(s.drop_last()) * 10 + (s.last() - 0x30) as nat
    }
}

/// Whether every byte of `s` is an ASCII digit.
pub open spec fn all_digits(s: Seq<u8>) -> bool {
    forall|i: int| 0 <= i < s.len() ==> 0x30 <= #[trigger] s[i] <= 0x39
}

/// Whether `s` is a canonical unsigned decimal: non-empty, all digits, and
/// no leading zero unless the value is exactly zero.
pub open spec fn canonical_digits(s: Seq<u8>) -> bool {
    &&& s.len() > 0
    &&& all_digits(s)
    &&& (s[0] == 0x30 ==> s.len() == 1)
}

/// The integer a stored byte sequence stands for, if the bytes are a
/// canonical decimal representation; `None` otherwise.
pub open spec fn parsed_int(s: Seq<u8>) -> Option<int> {
    if canonical_digits(s) {
        Some(digits_value(s) as int)
    } else if s.len() > 1 && s[0] == 0x2d && canonical_digits(s.skip(1)) && digits_value(s.skip(1))
        > 0 {
        Some(-(digits_value(s.skip(1)) as int))
    } else {
        None
    }
}

/// Ten to the power `k`.
pub open spec fn pow10(k: nat) -> nat
    decreases k,
{
    if k == 0 {
        1nat
    } else {
        10 * pow10((k - 1) as nat)
    }
}

proof fn lemma_pow10_19()
    ensures
        pow10(19) == 10_000_000_000_000_000_000,
{
    assert(pow10(0) == 1);
    assert(pow10(1) == 10);
    assert(pow10(2) == 100);
    assert(pow10(3) == 1000);
    assert(pow10(4) == 10000);
    assert(pow10(5) == 100000);
    assert(pow10(6) == 1000000);
    assert(pow10(7) == 10000000);
    assert(pow10(8) == 100000000);
    assert(pow10(9) == 1000000000);
    assert(pow10(10) == 10000000000);
    assert(pow10(11) == 100000000000);
    assert(pow10(12) == 1000000000000);
    assert(pow10(13) == 10000000000000);
    assert(pow10(14) == 100000000000000);
    assert(pow10(15) == 1000000000000000);
    assert(pow10(16) == 10000000000000000);
    assert(pow10(17) == 100000000000000000);
    assert(pow10(18) == 1000000000000000000);
    assert(pow10(19) == 10000000000000000000);
}

proof fn lemma_pow10_mono(a: nat, b: nat)
    requires
        a <= b,
    ensures
        pow10(a) <= pow10(b),
    decreases b,
{
    if a < b {
        lemma_pow10_mono(a, (b - 1) as nat);
        assert(pow10(b) == 10 * pow10((b - 1) as nat));
    }
}

proof fn lemma_digits_value_upper(s: Seq<u8>)
    requires
        all_digits(s),
    ensures
        digits_value(s) < pow10(s.len()),
    decreases s.len(),
{
    if s.len() == 0 {
    } else {
        let p = s.drop_last();
        assert(all_digits(p));
        lemma_digits_value_upper(p);
        assert(digits_value(p) <= pow10(p.len()) - 1);
        assert(digits_value(p) * 10 <= (pow10(p.len()) - 1) * 10) by (nonlinear_arith)
            requires
                digits_value(p) <= pow10(p.len()) - 1,
        ;
        assert(pow10(s.len()) == 10 * pow10(p.len()));
    }
}

proof fn lemma_digits_value_lower(s: Seq<u8>)
    requires
        all_digits(s),
        s.len() >= 1,
        s[0] != 0x30,
    ensures
        digits_value(s) >= pow10((s.len() - 1) as nat),
    decreases s.len(),
{
    if s.len() == 1 {
        assert(digits_value(s) == (s[0] - 0x30) as nat);
    } else {
        let p = s.drop_last();
        assert(p[0] == s[0]);
        assert(all_digits(p));
        lemma_digits_value_lower(p);
        assert(digits_value(s) == digits_value(p) * 10 + (s.last() - 0x30) as nat);
        assert(digits_value(p) * 10 >= pow10((p.len() - 1) as nat) * 10) by (nonlinear_arith)
            requires
                digits_value(p) >= pow10((p.len() - 1) as nat),
        ;
        assert(pow10((s.len() - 1) as nat) == 10 * pow10((s.len() - 2) as nat));
    }
}

proof fn lemma_dec_digits_wf(n: nat)
    ensures
        canonical_digits(dec_digits(n)),
        digits_value(dec_digits(n)) == n,
        n > 0 ==> dec_digits(n)[0] != 0x30,
    decreases n,
{
    if n < 10 {
        let s = dec_digits(n);
        assert(s =~= seq![(n + 0x30) as u8]);
        assert(s.drop_last() =~= Seq::<u8>::empty());
        assert(digits_value(s.drop_last()) == 0);
        assert(digits_value(s) == digits_value(s.drop_last()) * 10 + (s.last() - 0x30) as nat);
        assert(s.last() == (n + 0x30) as u8);
        assert(digits_value(s) == n);
    } else {
        lemma_dec_digits_wf(n / 10);
        let hi = dec_digits(n / 10);
        let s = dec_digits(n);
        assert(s =~= hi + seq![((n % 10) + 0x30) as u8]);
        assert(s.drop_last() =~= hi);
        assert(s.last() == ((n % 10) + 0x30) as u8);
        assert(digits_value(s) == digits_value(hi) * 10 + n % 10);
        assert(n / 10 * 10 + n % 10 == n) by (nonlinear_arith);
        assert(s[0] == hi[0]);
        assert(n / 10 > 0);
    }
}

/// A canonical decimal representation parses back to the integer it was
/// made from: the decimal codec round-trips.
pub proof fn lemma_parse_dec_rep(n: int)
    ensures
        parsed_int(dec_rep(n)) == Some(n),
{
    if n < 0 {
        lemma_dec_digits_wf((-n) as nat);
        let s = dec_rep(n);
        let d = dec_digits((-n) as nat);
        assert(s =~= seq![0x2du8] + d);
        assert(s.skip(1) =~= d);
        assert(s[0] == 0x2d);
        assert(!canonical_digits(s)) by {
            assert(!(0x30 <= s[0] <= 0x39));
        }
    } else {
        lemma_dec_digits_wf(n as nat);
    }
}

fn push_digits(m: u64, out: &mut Vec<u8>)
    ensures
        final(out)@ == old(out)@ + dec_digits(m as nat),
    decreases m,
{
    if m < 10 {
        out.push((m as u8) + 0x30);
        proof {
            assert(out@ =~= old(out)@ + dec_digits(m as nat));
        }
    } else {
        push_digits(m / 10, out);
        out.push(((m % 10) as u8) + 0x30);
        proof {
            assert(dec_digits(m as nat) =~= dec_digits((m / 10) as nat) + seq![
                (((m as nat) % 10) + 0x30) as u8,
            ]);
            assert(out@ =~= old(out)@ + dec_digits(m as nat));
        }
    }
}

/// Encodes `n` in its canonical decimal representation.
pub fn encode_i64(n: i64) -> (r: Vec<u8>)
    ensures
        r@ == dec_rep(n as int),
{
    let mut out: Vec<u8> = Vec::new();
    if n < 0 {
        out.push(0x2d);
        // the magnitude fits in u64 even for the least i64 value
        let m: u64 = if n == i64::MIN {
            9223372036854775808u64
        } else {
            (-n) as u64
        };
        proof {
            assert(m as nat == (-(n as int)) as nat);
        }
        push_digits(m, &mut out);
        proof {
            assert(out@ =~= seq![0x2du8] + dec_digits((-(n as int)) as nat));
        }
    } else {
        push_digits(n as u64, &mut out);
        proof {
            assert(out@ =~= dec_digits((n as int) as nat));
        }
    }
    out
}

/// Decodes a stored byte sequence as a canonical decimal integer, exactly
/// when it is one and its value fits the machine's signed range.
pub fn decode_i64(bytes: &Vec<u8>) -> (r: Option<i64>)
    ensures
        match parsed_int(bytes@) {
            Some(v) => if i64::MIN <= v <= i64::MAX {
                r == Some(v as i64)
            } else {
                r is None
            },
            None => r is None,
        },
{
    let len = bytes.len();
    if len == 0 {
        return None;
    }
    let neg = bytes[0] == 0x2d;
    let start: usize = if neg {
        1
    } else {
        0
    };
    let ghost digits = bytes@.skip(start as int);
    if len == start {
        // a lone minus sign
        proof {
            assert(!(0x30 <= bytes@[0] <= 0x39));
            assert(!canonical_digits(bytes@));
        }
        return None;
    }
    if bytes[start] == 0x30 && len - start > 1 {
        // leading zero: not canonical
        proof {
            assert(digits[0] == 0x30 && digits.len() > 1);
            if !neg {
                assert(!canonical_digits(bytes@));
                assert(bytes@[0] != 0x2d);
            }
        }
        return None;
    }
    if len - start > 19 {
        // too many digits to be a canonical value in the signed 64-bit range
        proof {
            lemma_pow10_19();
            if canonical_digits(digits) {
                assert(digits[0] != 0x30);
                lemma_digits_value_lower(digits);
                lemma_pow10_mono(19, (digits.len() - 1) as nat);
                assert(digits_value(digits) >= pow10(19));
            }
            if !neg {
                assert(bytes@[0] != 0x2d);
                if canonical_digits(bytes@) {
                    assert(digits =~= bytes@);
                }
            }
        }
        return None;
    }
    let mut i = start;
    let mut acc: u64 = 0;
    while i < len
        invariant
            start <= i <= len,
            len == bytes@.len(),
            start + 19 >= len,
            start <= 1,
            start < len,
            neg == (bytes@[0] == 0x2d),
            start == (if neg {
                1int
            } else {
                0int
            }),
            digits == bytes@.skip(start as int),
            acc == digits_value(bytes@.subrange(start as int, i as int)),
            all_digits(bytes@.subrange(start as int, i as int)),
        decreases len - i,
    {
        let b = bytes[i];
        if b < 0x30 || b > 0x39 {
            // not a digit: not canonical, wherever it sits
            proof {
                assert(digits.len() == len - start);
                assert(digits[i - start] == bytes@[(i - start) + start as int]);
                assert(digits[i - start] == b);
                assert(!all_digits(digits));
                if !neg {
                    assert(bytes@[0] != 0x2d);
                    assert(digits =~= bytes@);
                } else {
                    assert(!(0x30 <= bytes@[0] <= 0x39));
                    assert(!canonical_digits(bytes@));
                }
            }
            return None;
        }
        proof {
            let pre = bytes@.subrange(start as int, i as int);
            let nxt = bytes@.subrange(start as int, i + 1 as int);
            assert(nxt.drop_last() =~= pre);
            assert(nxt.last() == b);
            lemma_digits_value_upper(pre);
            lemma_pow10_mono(pre.len(), 18);
            lemma_pow10_19();
            assert(pow10(19) == 10 * pow10(18));
            assert(digits_value(pre) * 10 <= (pow10(18) - 1) * 10) by (nonlinear_arith)
                requires
                    digits_value(pre) <= pow10(18) - 1,
            ;
        }
        acc = acc * 10 + ((b - 0x30) as u64);
        i = i + 1;
    }
    proof {
        assert(bytes@.subrange(start as int, len as int) =~= digits);
        assert(canonical_digits(digits));
    }
    if neg {
        proof {
            assert(bytes@[0] == 0x2d);
            assert(!(0x30 <= bytes@[0] <= 0x39));
            assert(!canonical_digits(bytes@));
            assert(bytes@.len() > 1);
        }
        if acc == 0 {
            // a negative zero is not canonical
            return None;
        }
        if acc > 9223372036854775808u64 {
            return None;
        }
        if acc == 9223372036854775808u64 {
            Some(i64::MIN)
        } else {
            Some(-(acc as i64))
        }
    } else {
        proof {
            assert(digits =~= bytes@);
        }
        if acc > 9223372036854775807u64 {
            return None;
        }
        Some(acc as i64)
    }
}

} // verus!
