//! Decimal numerals over byte strings: parsing, formatting, and the
//! round-trip facts the selection grammar depends on.

use vstd::prelude::*;

verus! {

/// ASCII decimal digit.
pub open spec fn is_digit(b: u8) -> bool {
    48 <= b && b <= 57
}

pub open spec fn all_digits(s: Seq<u8>) -> bool {
    forall|i: int| 0 <= i < s.len() ==> is_digit(#[trigger] s[i])
}

/// Value of a digit string, most significant digit first. Meaningful when
/// `all_digits(s)` holds.
pub open spec fn digits_val(s: Seq<u8>) -> int
    decreases s.len(),
{
    if s.len() == 0 {
        0
    } else {
        digits_val(s.drop_last()) * 10 + (s.last() - 48)
    }
}

/// Canonical decimal digits of a non-negative number.
pub open spec fn dec_digits(n: int) -> Seq<u8>
    decreases n,
{
    if n < 10 {
        seq![(48 + if n >= 0 { n } else { 0 }) as u8]
    } else {
        dec_digits(n / 10).push((48 + n % 10) as u8)
    }
}

pub proof fn lemma_digits_val_bounds(s: Seq<u8>)
    requires
        all_digits(s),
    ensures
        digits_val(s) >= 0,
        s.len() >= 1 ==> digits_val(s) >= s.last() - 48,
    decreases s.len(),
{
    if s.len() > 0 {
        assert(all_digits(s.drop_last())) by {
            assert(forall|i: int| 0 <= i < s.len() - 1 ==> is_digit(#[trigger] s.drop_last()[i]));
        }
        lemma_digits_val_bounds(s.drop_last());
    }
}

/// Appending one digit multiplies the value by ten and adds the digit.
pub proof fn lemma_digits_val_snoc(s: Seq<u8>, b: u8)
    ensures
        digits_val(s.push(b)) == digits_val(s) * 10 + (b - 48),
{
    assert(s.push(b).drop_last() =~= s);
}

/// A longer all-digit string never has a smaller value.
pub proof fn lemma_digits_val_prefix(s: Seq<u8>, j: int)
    requires
        all_digits(s),
        0 <= j <= s.len(),
    ensures
        digits_val(s) >= digits_val(s.subrange(0, j)),
    decreases s.len() - j,
{
    if j < s.len() {
        lemma_digits_val_prefix(s, j + 1);
        let sj = s.subrange(0, j);
        let sj1 = s.subrange(0, j + 1);
        assert(sj1.drop_last() =~= sj);
        assert(all_digits(sj)) by {
            assert(forall|i: int| 0 <= i < sj.len() ==> is_digit(#[trigger] sj[i]));
        }
        lemma_digits_val_bounds(sj);
        assert(digits_val(sj1) == digits_val(sj) * 10 + (s[j] - 48));
        assert(digits_val(sj) * 10 >= digits_val(sj)) by {
            assert(digits_val(sj) >= 0);
        }
    } else {
        assert(s.subrange(0, j) =~= s);
    }
}

/// The canonical digits of `n` are digits and read back as `n`.
pub proof fn lemma_dec_digits(n: int)
    requires
        n >= 0,
    ensures
        all_digits(dec_digits(n)),
        dec_digits(n).len() >= 1,
        digits_val(dec_digits(n)) == n,
    decreases n,
{
    if n < 10 {
        let s = dec_digits(n);
        assert(s =~= seq![(48 + n) as u8]);
        assert(s.drop_last() =~= Seq::<u8>::empty());
        assert(digits_val(Seq::<u8>::empty()) == 0);
        assert(digits_val(s) == digits_val(s.drop_last()) * 10 + (s.last() - 48));
        assert(s.last() == (48 + n) as u8);
        assert(digits_val(s) == n);
    } else {
        lemma_dec_digits(n / 10);
        lemma_digits_val_snoc(dec_digits(n / 10), (48 + n % 10) as u8);
        assert(dec_digits(n) == dec_digits(n / 10).push((48 + n % 10) as u8));
        assert(digits_val(dec_digits(n)) == (n / 10) * 10 + ((48 + n % 10) as u8 - 48));
        assert((48 + n % 10) as u8 - 48 == n % 10);
        assert(n / 10 * 10 + n % 10 == n);
    }
}

/// Parses a non-empty all-digit string into a `u64`; `None` exactly on an
/// empty string, a non-digit, or a value above `u64::MAX`.
pub fn parse_u64(s: &[u8]) -> (r: Option<u64>)
    ensures
        match r {
            Some(v) => s@.len() >= 1 && all_digits(s@) && digits_val(s@) == v,
            None => s@.len() == 0 || !all_digits(s@) || digits_val(s@) > u64::MAX,
        },
{
    if s.len() == 0 {
        return None;
    }
    let mut v: u64 = 0;
    let mut i: usize = 0;
    while i < s.len()
        invariant
            0 <= i <= s@.len(),
            all_digits(s@.subrange(0, i as int)),
            digits_val(s@.subrange(0, i as int)) == v,
        decreases s@.len() - i,
    {
        let b = s[i];
        proof {
            assert(s@.subrange(0, i + 1).drop_last() =~= s@.subrange(0, i as int));
        }
        if b < 48 || b > 57 {
            return None;
        }
        let d = (b - 48) as u64;
        if v > (u64::MAX - d) / 10 {
            proof {
                let p1 = s@.subrange(0, i + 1);
                lemma_digits_val_snoc(s@.subrange(0, i as int), b);
                assert(digits_val(p1) == v * 10 + d);
                assert(v * 10 + d > u64::MAX) by {
                    assert(v >= (u64::MAX - d) / 10 + 1);
                    assert(((u64::MAX - d) / 10 + 1) * 10 >= (u64::MAX - d) + 1) by (nonlinear_arith);
                    assert(v * 10 >= ((u64::MAX - d) / 10 + 1) * 10) by (nonlinear_arith)
                        requires v >= (u64::MAX - d) / 10 + 1;
                }
                if all_digits(s@) {
                    lemma_digits_val_prefix(s@, i + 1);
                }
            }
            return None;
        }
        v = v * 10 + d;
        i += 1;
    }
    proof {
        assert(s@.subrange(0, s@.len() as int) =~= s@);
    }
    Some(v)
}

/// The `i64` denoted by an optionally `-`-signed decimal string.
pub open spec fn spec_parse_i64_dec(s: Seq<u8>) -> Option<int> {
    if s.len() >= 1 && s[0] == 45 {
        let rest = s.skip(1);
        if rest.len() >= 1 && all_digits(rest) && -digits_val(rest) >= i64::MIN {
            Some(-digits_val(rest))
        } else {
            None
        }
    } else {
        if s.len() >= 1 && all_digits(s) && digits_val(s) <= i64::MAX {
            Some(digits_val(s))
        } else {
            None
        }
    }
}

/// Parses an optionally signed decimal `i64`; `None` exactly on an empty
/// or malformed string or a value out of range.
pub fn parse_i64_dec(s: &[u8]) -> (r: Option<i64>)
    ensures
        match r {
            Some(v) => spec_parse_i64_dec(s@) == Some(v as int),
            None => spec_parse_i64_dec(s@) is None,
        },
{
    if s.len() >= 1 && s[0] == 45 {
        let rest = vstd::slice::slice_subrange(s, 1, s.len());
        proof {
            assert(rest@ =~= s@.skip(1));
        }
        match parse_u64(rest) {
            Option::Some(v) => {
                if v <= 9223372036854775807 {
                    Some(-(v as i64))
                } else if v == 9223372036854775808 {
                    Some(i64::MIN)
                } else {
                    None
                }
            },
            Option::None => None,
        }
    } else {
        match parse_u64(s) {
            Option::Some(v) => {
                if v <= 9223372036854775807 {
                    Some(v as i64)
                } else {
                    None
                }
            },
            Option::None => None,
        }
    }
}

/// Formats `n` as canonical decimal digits.
pub fn format_u64(n: u64) -> (r: Vec<u8>)
    ensures
        r@ == dec_digits(n as int),
    decreases n,
{
    if n < 10 {
        let mut v: Vec<u8> = Vec::new();
        v.push(48 + n as u8);
        proof {
            assert(v@ =~= dec_digits(n as int));
        }
        v
    } else {
        let mut v = format_u64(n / 10);
        v.push(48 + (n % 10) as u8);
        v
    }
}

/// Decimal text of a signed number.
pub open spec fn spec_i64_digits(n: int) -> Seq<u8> {
    if n < 0 {
        seq![45u8] + dec_digits(-n)
    } else {
        dec_digits(n)
    }
}

/// Formats a signed number as decimal text.
pub fn format_i64(n: i64) -> (r: Vec<u8>)
    ensures
        r@ == spec_i64_digits(n as int),
{
    if n >= 0 {
        format_u64(n as u64)
    } else {
        let m: u64 = (-(n + 1)) as u64 + 1;
        let mut out: Vec<u8> = Vec::new();
        out.push(45);
        let mut d = format_u64(m);
        out.append(&mut d);
        proof {
            assert(m == -(n as int));
            assert(out@ =~= spec_i64_digits(n as int));
        }
        out
    }
}

} // verus!
