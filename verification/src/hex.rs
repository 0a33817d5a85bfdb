//! Lowercase hexadecimal encoding and decoding, verified: init-segment
//! paths carry a 20-byte hash as 40 hex characters, and sample-entry
//! hashes are reported as hex strings.

use vstd::prelude::*;

verus! {

/// Value of a lowercase hex digit, or -1 for any other byte.
pub open spec fn hex_val(b: u8) -> int {
    if 48 <= b && b <= 57 {
        b - 48
    } else if 97 <= b && b <= 102 {
        b - 97 + 10
    } else {
        -1
    }
}

pub open spec fn is_lower_hex(b: u8) -> bool {
    hex_val(b) >= 0
}

pub open spec fn all_lower_hex(s: Seq<u8>) -> bool {
    forall|i: int| 0 <= i < s.len() ==> is_lower_hex(#[trigger] s[i])
}

/// Lowercase hex digit for a value in 0..16.
pub open spec fn hex_digit(v: int) -> u8 {
    if v < 10 {
        (48 + v) as u8
    } else {
        (87 + v) as u8
    }
}

/// The bytes denoted by an even-length hex string; meaningful when
/// `all_lower_hex(s)` holds.
pub open spec fn dehexed(s: Seq<u8>) -> Seq<u8> {
    Seq::new(s.len() as nat / 2, |i: int| (hex_val(s[2 * i]) * 16 + hex_val(s[2 * i + 1])) as u8)
}

/// Lowercase hex string of a byte sequence.
pub open spec fn hex_of(b: Seq<u8>) -> Seq<u8> {
    Seq::new(
        b.len() * 2,
        |i: int|
            if i % 2 == 0 {
                hex_digit(b[i / 2] as int / 16)
            } else {
                hex_digit(b[i / 2] as int % 16)
            },
    )
}

/// Decodes exactly 40 lowercase hex characters into 20 bytes.
pub fn dehex20(s: &[u8]) -> (r: Option<[u8; 20]>)
    ensures
        match r {
            Some(b) => s@.len() == 40 && all_lower_hex(s@) && b@ == dehexed(s@),
            None => s@.len() != 40 || !all_lower_hex(s@),
        },
{
    if s.len() != 40 {
        return None;
    }
    let mut out: [u8; 20] = [0; 20];
    let mut i: usize = 0;
    while i < 20
        invariant
            0 <= i <= 20,
            s@.len() == 40,
            forall|j: int| 0 <= j < 2 * i ==> is_lower_hex(#[trigger] s@[j]),
            forall|j: int| 0 <= j < i ==> out@[j] == dehexed(s@)[j],
        decreases 20 - i,
    {
        let hi = hex_val_exec(s[2 * i]);
        let lo = hex_val_exec(s[2 * i + 1]);
        if hi < 0 || lo < 0 {
            return None;
        }
        out[i] = (hi as u8) * 16 + (lo as u8);
        i += 1;
    }
    Some(out)
}

/// Value of a lowercase hex digit, or -1.
pub fn hex_val_exec(b: u8) -> (r: i8)
    ensures
        r == hex_val(b),
{
    if 48 <= b && b <= 57 {
        (b - 48) as i8
    } else if 97 <= b && b <= 102 {
        (b - 97 + 10) as i8
    } else {
        -1
    }
}

/// Lowercase hex encoding of a byte slice.
pub fn hex_encode(b: &[u8]) -> (r: Vec<u8>)
    ensures
        r@ == hex_of(b@),
{
    let mut out: Vec<u8> = Vec::new();
    let mut i: usize = 0;
    while i < b.len()
        invariant
            0 <= i <= b@.len(),
            out@.len() == 2 * i,
            forall|j: int| 0 <= j < 2 * i ==> out@[j] == hex_of(b@)[j],
        decreases b@.len() - i,
    {
        let v = b[i];
        let hi = v / 16;
        let lo = v % 16;
        out.push(if hi < 10 { 48 + hi } else { 87 + hi });
        out.push(if lo < 10 { 48 + lo } else { 87 + lo });
        i += 1;
    }
    proof {
        assert(out@ =~= hex_of(b@));
    }
    out
}

} // verus!
