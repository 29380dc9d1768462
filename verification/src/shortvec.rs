//! The compact count prefix of the envelope's signature table: an unsigned
//! 16-bit value, seven bits per byte, least significant group first, with
//! the high bit of a byte marking continuation, in strict (shortest) form:
//! a trailing zero byte or a fourth byte is refused.

use vstd::prelude::*;

verus! {

/// The count a byte string begins with, and how many bytes it occupies;
/// `None` when no strict-form count starts the string.
pub open spec fn sv_decode(b: Seq<u8>) -> Option<(int, int)> {
    if b.len() >= 1 && b[0] < 0x80 {
        Some((b[0] as int, 1))
    } else if b.len() >= 2 && b[1] < 0x80 && b[1] != 0 {
        Some((b[0] - 0x80 + b[1] as int * 0x80, 2))
    } else if b.len() >= 3 && b[1] >= 0x80 && 1 <= b[2] <= 3 {
        Some((b[0] - 0x80 + (b[1] - 0x80) * 0x80 + b[2] as int * 0x4000, 3))
    } else {
        None
    }
}

/// The strict encoding of a count below 2^16.
pub open spec fn sv_encode(n: int) -> Seq<u8> {
    if n < 0x80 {
        seq![n as u8]
    } else if n < 0x4000 {
        seq![(n % 0x80 + 0x80) as u8, (n / 0x80) as u8]
    } else {
        seq![(n % 0x80 + 0x80) as u8, ((n / 0x80) % 0x80 + 0x80) as u8, (n / 0x4000) as u8]
    }
}

/// Round trip: a strict encoding followed by anything decodes to the
/// encoded count, consuming exactly the encoding.
pub proof fn lemma_sv_round_trip(n: int, rest: Seq<u8>)
    requires
        0 <= n <= 0xffff,
    ensures
        sv_decode(sv_encode(n) + rest) == Some((n, sv_encode(n).len() as int)),
{
    broadcast use vstd::arithmetic::div_mod::lemma_fundamental_div_mod;

    let e = sv_encode(n);
    let t = e + rest;
    if n < 0x80 {
        assert(t[0] == n as u8);
    } else if n < 0x4000 {
        assert(t[0] == (n % 0x80 + 0x80) as u8);
        assert(t[1] == (n / 0x80) as u8);
        assert(n == 0x80 * (n / 0x80) + n % 0x80);
        assert(1 <= n / 0x80 < 0x80);
    } else {
        assert(t[0] == (n % 0x80 + 0x80) as u8);
        assert(t[1] == ((n / 0x80) % 0x80 + 0x80) as u8);
        assert(t[2] == (n / 0x4000) as u8);
        vstd::arithmetic::div_mod::lemma_div_denominator(n, 0x80, 0x80);
        assert((n / 0x80) / 0x80 == n / 0x4000);
        assert(n / 0x80 == 0x80 * ((n / 0x80) / 0x80) + (n / 0x80) % 0x80);
        assert(n == 0x80 * (n / 0x80) + n % 0x80);
        assert(1 <= n / 0x4000 <= 3);
    }
}

/// Reads the count prefix of `b`; `None` exactly when no strict-form
/// count starts it.
pub fn sv_read(b: &Vec<u8>) -> (r: Option<(u16, usize)>)
    ensures
        match r {
            Some((n, l)) => sv_decode(b@) == Some((n as int, l as int)) && l <= b@.len(),
            None => sv_decode(b@) is None,
        },
{
    if b.len() >= 1 && b[0] < 0x80 {
        Some((b[0] as u16, 1))
    } else if b.len() >= 2 && b[1] < 0x80 && b[1] != 0 {
        Some((b[0] as u16 - 0x80 + b[1] as u16 * 0x80, 2))
    } else if b.len() >= 3 && b[1] >= 0x80 && 1 <= b[2] && b[2] <= 3 {
        Some((b[0] as u16 - 0x80 + (b[1] as u16 - 0x80) * 0x80 + b[2] as u16 * 0x4000, 3))
    } else {
        None
    }
}

/// Reads the count prefix standing at offset `off` of `b`; `None` exactly
/// when no strict-form count starts there.
pub fn sv_read_at(b: &Vec<u8>, off: usize) -> (r: Option<(u16, usize)>)
    requires
        off <= b@.len(),
    ensures
        match r {
            Some((n, l)) => sv_decode(b@.skip(off as int)) == Some((n as int, l as int)) && off + l
                <= b@.len(),
            None => sv_decode(b@.skip(off as int)) is None,
        },
{
    let len = b.len();
    if len - off >= 1 && b[off] < 0x80 {
        Some((b[off] as u16, 1))
    } else if len - off >= 2 && b[off + 1] < 0x80 && b[off + 1] != 0 {
        Some((b[off] as u16 - 0x80 + b[off + 1] as u16 * 0x80, 2))
    } else if len - off >= 3 && b[off + 1] >= 0x80 && 1 <= b[off + 2] && b[off + 2] <= 3 {
        Some((b[off] as u16 - 0x80 + (b[off + 1] as u16 - 0x80) * 0x80 + b[off + 2] as u16 * 0x4000,
        3))
    } else {
        None
    }
}

/// Writes the strict encoding of a count.
pub fn sv_write(n: u16) -> (r: Vec<u8>)
    ensures
        r@ == sv_encode(n as int),
{
    let mut v: Vec<u8> = Vec::new();
    if n < 0x80 {
        v.push(n as u8);
        assert(v@ =~= sv_encode(n as int));
    } else if n < 0x4000 {
        v.push((n % 0x80 + 0x80) as u8);
        v.push((n / 0x80) as u8);
        assert(v@ =~= sv_encode(n as int));
    } else {
        v.push((n % 0x80 + 0x80) as u8);
        v.push(((n / 0x80) % 0x80 + 0x80) as u8);
        v.push((n / 0x4000) as u8);
        assert(v@ =~= sv_encode(n as int));
    }
    v
}

} // verus!
