//! Round-trip properties that tie the encoder and the decoder together.
//!
//! The digital-write encoder folds a port's eight cached pin values into a
//! bitmask and splits it into two 7-bit wire bytes; the digital-message
//! decoder reassembles the word and hands each input-mode pin its bit. The
//! lemmas here close that loop: the bit a decoder extracts is exactly the
//! cached value the encoder folded in, and the mask depends on nothing but
//! those cached values.

use vstd::prelude::*;
use crate::board::{Pin, port_mask};
use crate::decode::mask_bit;
use crate::protocol::{
    lemma_pow2_8, lemma_pow2_pos, lemma_split_roundtrip, pow2, split_hi, split_lo, word14,
};
use vstd::arithmetic::div_mod::{
    lemma_div_multiples_vanish_fancy, lemma_hoist_over_denominator, lemma_mod_multiples_vanish,
};
use vstd::arithmetic::mul::lemma_mul_is_associative;

verus! {

/// `pow2` turns addition of exponents into multiplication.
proof fn lemma_pow2_add(a: int, b: int)
    requires
        a >= 0,
        b >= 0,
    ensures
        pow2(a + b) == pow2(a) * pow2(b),
    decreases a,
{
    if a > 0 {
        lemma_pow2_add(a - 1, b);
        lemma_mul_is_associative(2, pow2(a - 1), pow2(b));
    }
}

/// A port mask over `n` pins uses exactly `n` bits.
pub proof fn lemma_port_mask_bound(pins: Seq<Pin>, port: int, n: int)
    ensures
        0 <= port_mask(pins, port, n) < pow2(n),
    decreases n,
{
    if n <= 0 {
    } else {
        lemma_port_mask_bound(pins, port, n - 1);
    }
}

/// Bit `i` of a port mask over `n > i` pins is set exactly when pin
/// `8 * port + i` has a nonzero cached value.
pub proof fn lemma_port_mask_bit(pins: Seq<Pin>, port: int, n: int, i: int)
    requires
        0 <= i < n,
    ensures
        mask_bit(port_mask(pins, port, n), i) == (if pins[8 * port + i].value != 0 {
            1int
        } else {
            0int
        }),
    decreases n,
{
    let a = port_mask(pins, port, n - 1);
    let t: int = if pins[8 * port + n - 1].value != 0 {
        pow2(n - 1)
    } else {
        0
    };
    let m = port_mask(pins, port, n);
    assert(m == a + t);
    lemma_port_mask_bound(pins, port, n - 1);
    if i == n - 1 {
        let d = pow2(i);
        lemma_pow2_pos(i);
        if t == 0 {
            lemma_div_multiples_vanish_fancy(0, a, d);
            assert(m / d == 0);
        } else {
            lemma_div_multiples_vanish_fancy(1, a, d);
            assert(d * 1 + a == m);
            assert(m / d == 1);
        }
    } else {
        lemma_port_mask_bit(pins, port, n - 1, i);
        let d = pow2(i);
        lemma_pow2_pos(i);
        if t != 0 {
            let c = pow2(n - 1 - i);
            lemma_pow2_add(i, n - 1 - i);
            assert(t == d * c);
            lemma_hoist_over_denominator(a, c, d as nat);
            assert(m / d == a / d + c);
            let e = pow2(n - 2 - i);
            assert(c == 2 * e);
            lemma_mod_multiples_vanish(e, a / d, 2);
            assert((2 * e + a / d) % 2 == (a / d) % 2);
        }
    }
}

/// Port bitmask round trip. Take a port whose eight pins all cache a value
/// of 0 or 1 - as pins written and reported through digital messages do.
/// The digital-write encoder folds those values into a mask and sends it
/// split into two 7-bit bytes; the digital-message decoder reassembles the
/// word and assigns each input-mode pin of the port bit `i` of it. That
/// bit is exactly the value the encoder saw for pin `8 * port + i`, so
/// decoding a port's own freshly encoded mask writes every input-mode pin's
/// cached value back unchanged, and the decoder's contract leaves every
/// other pin of the port untouched.
pub proof fn lemma_port_mask_roundtrip(pins: Seq<Pin>, port: int, i: int)
    requires
        0 <= port,
        8 * port + 8 <= pins.len(),
        0 <= i < 8,
        forall|j: int|
            0 <= j < 8 ==> ((#[trigger] pins[8 * port + j]).value == 0 || pins[8 * port
                + j].value == 1),
    ensures
        ({
            let m = port_mask(pins, port, 8);
            &&& 0 <= m < 256
            &&& word14(split_lo(m), split_hi(m)) == m
            &&& mask_bit(word14(split_lo(m), split_hi(m)) as int, i) == pins[8 * port
                + i].value as int
        }),
{
    let m = port_mask(pins, port, 8);
    lemma_port_mask_bound(pins, port, 8);
    lemma_pow2_8();
    lemma_split_roundtrip(m);
    lemma_port_mask_bit(pins, port, 8, i);
    assert(pins[8 * port + i].value == 0 || pins[8 * port + i].value == 1);
}

/// The digital-write encoder has no hidden state beyond the cached pin
/// values it reads: two boards whose pin caches agree on a port's eight
/// values produce the same mask, so repeating an encoder operation with
/// the same arguments on the same cache emits byte-identical output.
pub proof fn lemma_port_mask_deterministic(a: Seq<Pin>, b: Seq<Pin>, port: int, n: int)
    requires
        forall|j: int|
            0 <= j < n ==> (#[trigger] a[8 * port + j]).value == b[8 * port + j].value,
    ensures
        port_mask(a, port, n) == port_mask(b, port, n),
    decreases n,
{
    if n > 0 {
        lemma_port_mask_deterministic(a, b, port, n - 1);
    }
}

} // verus!
