//! Lower-case hexadecimal rendering of 64-bit values.

use vstd::prelude::*;

verus! {

/// The ASCII character of the hexadecimal digit `d`.
pub open spec fn hex_digit(d: nat) -> u8
    recommends
        d < 16,
{
    if d < 10 {
        (48 + d) as u8
    } else {
        (87 + d) as u8
    }
}

/// The lower-case hexadecimal digits of `n`, most significant first, with
/// no leading zeros (zero itself is one digit).
pub open spec fn lower_hex(n: nat) -> Seq<u8>
    decreases n,
{
    if n < 16 {
        seq![hex_digit(n)]
    } else {
        lower_hex(n / 16).push(hex_digit(n % 16))
    }
}

/// The lower-case hexadecimal digits of `n` as ASCII bytes.
pub fn lower_hex_bytes(n: u64) -> (r: Vec<u8>)
    ensures
        r@ == lower_hex(n as nat),
    decreases n,
{
    let d = (n % 16) as u8;
    let c = if d < 10 {
        48 + d
    } else {
        87 + d
    };
    if n < 16 {
        vec![c]
    } else {
        let mut v = lower_hex_bytes(n / 16);
        v.push(c);
        v
    }
}

} // verus!
