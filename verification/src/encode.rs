//! Request payload encoder: renders a batch of grid coordinates as the
//! elevation provider expects them, `"latitude,longitude"` pairs joined by
//! `|`, each value printed in decimal degrees with six fractional digits
//! (the values are held in micro-degrees, so six digits are exact).
//!
//! The payload is produced as ASCII bytes; callers place them into a URL.

use vstd::prelude::*;

use crate::grid::GridCoordinate;

verus! {

/// The ASCII digit for one decimal digit value.
pub open spec fn digit_byte(d: int) -> u8 {
    (48 + d) as u8
}

/// The decimal digits of `n`, most significant first, no leading zeros
/// (a single zero for zero).
pub open spec fn dec_digits(n: nat) -> Seq<u8>
    decreases n,
{
    if n < 10 {
        seq![digit_byte(n as int)]
    } else {
        dec_digits(n / 10) + seq![digit_byte((n % 10) as int)]
    }
}

/// Exactly six decimal digits of a micro-degree fraction, zero padded.
pub open spec fn frac_digits(f: nat) -> Seq<u8> {
    seq![
        digit_byte((f / 100000 % 10) as int),
        digit_byte((f / 10000 % 10) as int),
        digit_byte((f / 1000 % 10) as int),
        digit_byte((f / 100 % 10) as int),
        digit_byte((f / 10 % 10) as int),
        digit_byte((f % 10) as int),
    ]
}

/// A micro-degree value in decimal degrees: optional minus sign, the whole
/// degrees, a dot, six fractional digits.
pub open spec fn micro_bytes(v: int) -> Seq<u8> {
    let a = if v < 0 {
        -v
    } else {
        v
    };
    let whole = dec_digits((a / 1000000) as nat) + seq![46u8] + frac_digits((a % 1000000) as nat);
    if v < 0 {
        seq![45u8] + whole
    } else {
        whole
    }
}

/// One coordinate as the provider reads it: latitude, a comma, longitude.
pub open spec fn cord_bytes(c: GridCoordinate) -> Seq<u8> {
    micro_bytes(c.latitude as int) + seq![44u8] + micro_bytes(c.longitude as int)
}

/// A whole batch: its coordinates in order, joined by `|`.
pub open spec fn locations_bytes(s: Seq<GridCoordinate>) -> Seq<u8>
    decreases s.len(),
{
    if s.len() == 0 {
        Seq::empty()
    } else if s.len() == 1 {
        cord_bytes(s[0])
    } else {
        locations_bytes(s.drop_last()) + seq![124u8] + cord_bytes(s.last())
    }
}

/// Appends the decimal digits of `n`.
fn push_dec_digits(n: u64, out: &mut Vec<u8>)
    ensures
        final(out)@ == old(out)@ + dec_digits(n as nat),
    decreases n,
{
    if n < 10 {
        out.push((n as u8) + 48);
        assert(out@ =~= old(out)@ + dec_digits(n as nat));
    } else {
        push_dec_digits(n / 10, out);
        out.push(((n % 10) as u8) + 48);
        assert(out@ =~= old(out)@ + dec_digits(n as nat));
    }
}

/// Appends one micro-degree value in decimal degrees.
fn push_micro(v: i64, out: &mut Vec<u8>)
    requires
        i64::MIN < v,
    ensures
        final(out)@ == old(out)@ + micro_bytes(v as int),
{
    let a: u64 = if v < 0 {
        out.push(45);
        (-v) as u64
    } else {
        v as u64
    };
    push_dec_digits(a / 1000000, out);
    out.push(46);
    let f: u64 = a % 1000000;
    out.push(((f / 100000 % 10) as u8) + 48);
    out.push(((f / 10000 % 10) as u8) + 48);
    out.push(((f / 1000 % 10) as u8) + 48);
    out.push(((f / 100 % 10) as u8) + 48);
    out.push(((f / 10 % 10) as u8) + 48);
    out.push(((f % 10) as u8) + 48);
    assert(out@ =~= old(out)@ + micro_bytes(v as int));
}

/// Encodes a batch of coordinates as the provider's location list:
/// `"lat,lon"` pairs, six fractional digits each, joined by `|`, in batch
/// order, as ASCII bytes.
pub fn encode_locations(batch: &Vec<GridCoordinate>) -> (r: Vec<u8>)
    requires
        forall|i: int|
            0 <= i < batch@.len() ==> i64::MIN < (#[trigger] batch@[i]).latitude && i64::MIN
                < batch@[i].longitude,
    ensures
        r@ == locations_bytes(batch@),
{
    let mut out: Vec<u8> = Vec::new();
    let n = batch.len();
    for b in 0..n
        invariant
            n == batch@.len(),
            forall|i: int|
                0 <= i < batch@.len() ==> i64::MIN < (#[trigger] batch@[i]).latitude && i64::MIN
                    < batch@[i].longitude,
            out@ == locations_bytes(batch@.take(b as int)),
    {
        if b > 0 {
            out.push(124);
        }
        let c = batch[b];
        push_micro(c.latitude, &mut out);
        out.push(44);
        push_micro(c.longitude, &mut out);
        proof {
            let t = batch@.take(b + 1 as int);
            assert(t.drop_last() =~= batch@.take(b as int));
            assert(t.last() == batch@[b as int]);
            assert(out@ =~= locations_bytes(batch@.take(b + 1 as int)));
        }
    }
    proof {
        assert(batch@.take(n as int) =~= batch@);
    }
    out
}

} // verus!
