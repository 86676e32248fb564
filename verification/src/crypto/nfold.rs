//! The n-fold operation of the simplified profile: stretch or shrink a byte
//! string to a wanted length so that every input bit bears on the result.
//!
//! The input is laid out end to end until the total length is the least
//! common multiple of both lengths, each copy rotated 13 bits to the right
//! of the one before. The pieces of output length are then added as
//! big-endian numbers with end-around carry.

use vstd::arithmetic::div_mod::{
    lemma_div_multiples_vanish, lemma_fundamental_div_mod, lemma_mod_multiples_basic,
};
use vstd::prelude::*;

verus! {

/// The lengths are positive and small enough for the bit positions of the
/// laid-out string to be counted in a machine word.
pub open spec fn nfold_fits(k: nat, n: nat) -> bool {
    k >= 1 && n >= 1 && (8 * k + 13) * n + 16 * k <= usize::MAX
}

/// Greatest common divisor, by Euclid's rule.
pub open spec fn gcd_spec(a: nat, b: nat) -> nat
    decreases b,
{
    if b == 0 {
        a
    } else {
        gcd_spec(b, a % b)
    }
}

/// Least common multiple of two positive lengths.
pub open spec fn lcm_spec(a: nat, b: nat) -> nat {
    if gcd_spec(a, b) == 0 {
        0
    } else {
        (a * b) / gcd_spec(a, b)
    }
}

/// Position, counted from the low end of a copy, of the input bit that
/// lands on the top bit of byte `i` of the laid-out string.
pub open spec fn top_bit_at(k: nat, i: nat) -> nat {
    (((8 * k - 1) + (8 * k + 13) * (i / k) + 8 * (k - i % k)) % (8 * k as int)) as nat
}

/// Byte `i` of the laid-out string of rotated copies of `src`.
pub open spec fn stream_byte(src: Seq<u8>, i: nat) -> u8
    recommends
        src.len() > 0,
{
    let k = src.len();
    let msbit = top_bit_at(k, i);
    let hi = src[(((k - 1) - msbit / 8) % (k as int))] as u32;
    let lo = src[((k - msbit / 8) % (k as int))] as u32;
    ((((hi << 8u32) | lo) >> (((msbit % 8) + 1) as u32)) & 0xffu32) as u8
}

/// The running sum and carry once bytes `i..total` of the laid-out string
/// have been added, last byte first, into an output of `n` bytes.
pub open spec fn fold_from(src: Seq<u8>, n: nat, total: nat, i: nat) -> (Seq<u8>, nat)
    recommends
        src.len() > 0,
        n > 0,
    decreases total - i,
{
    if i >= total {
        (Seq::new(n, |j: int| 0u8), 0)
    } else {
        let (acc, carry) = fold_from(src, n, total, i + 1);
        let pos = (i % n) as int;
        let v = carry + stream_byte(src, i) + acc[pos];
        (acc.update(pos, (v % 256) as u8), (v / 256) as nat)
    }
}

/// Adds a left-over carry into bytes `0..j` of `acc`, last byte first.
pub open spec fn carry_into(acc: Seq<u8>, carry: nat, j: nat) -> Seq<u8>
    decreases j,
{
    if j == 0 {
        acc
    } else {
        let v = carry + acc[j - 1];
        carry_into(acc.update(j - 1, (v % 256) as u8), (v / 256) as nat, (j - 1) as nat)
    }
}

/// The n-fold of `src` to `n` bytes.
pub open spec fn nfold_spec(src: Seq<u8>, n: nat) -> Seq<u8>
    recommends
        src.len() > 0,
        n > 0,
{
    let (acc, carry) = fold_from(src, n, lcm_spec(src.len(), n), 0);
    carry_into(acc, carry, n)
}

/// `x` is a multiple of `g` exactly when `g` divides it without remainder.
proof fn multiple_of(x: int, g: int)
    requires
        g > 0,
        x % g == 0,
    ensures
        x == g * (x / g),
{
    lemma_fundamental_div_mod(x, g);
}

proof fn gcd_divides(a: nat, b: nat)
    requires
        a > 0 || b > 0,
    ensures
        gcd_spec(a, b) > 0,
        a % gcd_spec(a, b) == 0,
        b % gcd_spec(a, b) == 0,
    decreases b,
{
    if b == 0 {
        lemma_mod_multiples_basic(1, a as int);
    } else {
        gcd_divides(b, a % b);
        let g = gcd_spec(b, a % b) as int;
        let q = (a / b) as int;
        let r = (a % b) as int;
        lemma_fundamental_div_mod(a as int, b as int);
        multiple_of(b as int, g);
        multiple_of(r, g);
        let bq = (b as int) / g;
        let rq = r / g;
        assert(a as int == (q * bq + rq) * g) by (nonlinear_arith)
            requires
                a as int == (b as int) * q + r,
                b as int == g * bq,
                r == g * rq,
        ;
        lemma_mod_multiples_basic(q * bq + rq, g);
    }
}

fn gcd(a: usize, b: usize) -> (g: usize)
    ensures
        g == gcd_spec(a as nat, b as nat),
{
    let mut x: usize = a;
    let mut y: usize = b;
    while y != 0
        invariant
            gcd_spec(x as nat, y as nat) == gcd_spec(a as nat, b as nat),
        decreases y,
    {
        let r: usize = x % y;
        x = y;
        y = r;
    }
    x
}

fn lcm(a: usize, b: usize) -> (l: usize)
    requires
        a >= 1,
        b >= 1,
        a * b <= usize::MAX,
    ensures
        l == lcm_spec(a as nat, b as nat),
        1 <= l <= a * b,
        l % b == 0,
{
    let g: usize = gcd(a, b);
    proof {
        gcd_divides(a as nat, b as nat);
        let gi = g as int;
        let ai = a as int;
        let bi = b as int;
        multiple_of(ai, gi);
        multiple_of(bi, gi);
        let aq = ai / gi;
        let bq = bi / gi;
        assert(ai * bi == gi * (ai * bq) && ai * bi == (aq * bi) * gi && 1 <= ai * bq <= ai * bi
            && ai * bq == aq * bi) by (nonlinear_arith)
            requires
                1 <= ai,
                1 <= bi,
                ai == gi * aq,
                bi == gi * bq,
                gi > 0,
        ;
        lemma_div_multiples_vanish(ai * bq, gi);
        lemma_mod_multiples_basic(aq, bi);
    }
    (a * b) / g
}

fn stream_byte_at(src: &[u8], i: usize, out_len: usize) -> (b: u8)
    requires
        nfold_fits(src.len() as nat, out_len as nat),
        i < src.len() * out_len,
    ensures
        b == stream_byte(src@, i as nat),
{
    let k: usize = src.len();
    let rep: usize = i / k;
    assert(rep < out_len && (8 * k + 13) * rep <= (8 * k + 13) * out_len) by (nonlinear_arith)
        requires
            1 <= k,
            i < k * out_len,
            rep == i / k,
    ;
    let bits: usize = 8 * k;
    let msbit: usize = ((bits - 1) + (bits + 13) * rep + 8 * (k - i % k)) % bits;
    assert(msbit == top_bit_at(k as nat, i as nat));
    let hi: u32 = src[((k - 1) - msbit / 8) % k] as u32;
    let lo: u32 = src[(k - msbit / 8) % k] as u32;
    let shift: u32 = ((msbit % 8) + 1) as u32;
    let word: u32 = (hi << 8u32) | lo;
    assert((word >> shift) & 0xffu32 < 256) by (bit_vector);
    ((word >> shift) & 0xffu32) as u8
}

/// Computes the n-fold of `input` to `out_len` bytes.
pub fn nfold(input: &[u8], out_len: usize) -> (out: Vec<u8>)
    requires
        nfold_fits(input.len() as nat, out_len as nat),
    ensures
        out@ == nfold_spec(input@, out_len as nat),
        out.len() == out_len,
{
    assert(input.len() * out_len <= (8 * input.len() + 13) * out_len) by (nonlinear_arith)
        requires
            input.len() >= 1,
            out_len >= 1,
    ;
    let total: usize = lcm(input.len(), out_len);
    let mut out: Vec<u8> = Vec::new();
    while out.len() < out_len
        invariant
            out.len() <= out_len,
            forall|j: int| 0 <= j < out.len() ==> out[j] == 0u8,
        decreases out_len - out.len(),
    {
        out.push(0u8);
    }
    assert(out@ =~= Seq::new(out_len as nat, |j: int| 0u8));
    let mut carry: usize = 0;
    let mut i: usize = total;
    while i > 0
        invariant
            i <= total <= input.len() * out_len,
            nfold_fits(input.len() as nat, out_len as nat),
            out.len() == out_len,
            out_len >= 1,
            carry <= 1,
            (out@, carry as nat) == fold_from(input@, out_len as nat, total as nat, i as nat),
        decreases i,
    {
        i -= 1;
        let b: u8 = stream_byte_at(input, i, out_len);
        let pos: usize = i % out_len;
        let v: usize = carry + b as usize + out[pos] as usize;
        out.set(pos, (v % 256) as u8);
        carry = v / 256;
    }
    let mut j: usize = out_len;
    while j > 0
        invariant
            j <= out_len,
            out.len() == out_len,
            carry <= 1,
            carry_into(out@, carry as nat, j as nat) == nfold_spec(input@, out_len as nat),
        decreases j,
    {
        j -= 1;
        let v: usize = carry + out[j] as usize;
        out.set(j, (v % 256) as u8);
        carry = v / 256;
    }
    out
}

} // verus!
