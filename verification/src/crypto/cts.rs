//! AES in CBC mode with ciphertext stealing: the ciphertext is exactly as
//! long as the plaintext, which must fill at least one block.
//!
//! The plaintext is padded with zeros to whole blocks and chained under an
//! all-zero initial vector. Where there is more than one block, the last
//! two ciphertext blocks change places and the result is cut to the length
//! of the plaintext.

use crate::crypto::primitives::{
    aes256_decrypt, aes256_decrypt_block, aes256_encrypt, aes256_encrypt_block,
};
use vstd::prelude::*;

verus! {

/// The octets of `a`, each combined with the octet of `b` at its place by
/// exclusive or.
pub open spec fn xor_bytes(a: Seq<u8>, b: Seq<u8>) -> Seq<u8> {
    Seq::new(a.len(), |i: int| a[i] ^ b[i])
}

/// A block of zeros: the initial vector of the chain.
pub open spec fn zero_block() -> Seq<u8> {
    Seq::new(16, |i: int| 0u8)
}

/// Blocks needed to hold `n` bytes.
pub open spec fn block_count(n: nat) -> nat {
    (n + 15) / 16
}

/// Block `j` of `data`, with zeros where `data` has ended.
pub open spec fn padded_block(data: Seq<u8>, j: nat) -> Seq<u8> {
    Seq::new(
        16,
        |i: int|
            if 16 * j + i < data.len() {
                data[16 * j + i]
            } else {
                0u8
            },
    )
}

/// What the cipher is applied to for block `j` of the chain.
pub open spec fn chain_input(key: Seq<u8>, p: Seq<u8>, j: nat) -> Seq<u8>
    decreases j, 0nat,
{
    xor_bytes(
        padded_block(p, j),
        if j == 0 {
            zero_block()
        } else {
            chain_block(key, p, (j - 1) as nat)
        },
    )
}

/// Block `j` of the plain CBC encryption of the padded plaintext.
pub open spec fn chain_block(key: Seq<u8>, p: Seq<u8>, j: nat) -> Seq<u8>
    decreases j, 1nat,
{
    aes256_encrypt(key, chain_input(key, p, j))
}

/// The ciphertext of `p` under `key`.
pub open spec fn cts_encrypt_spec(key: Seq<u8>, p: Seq<u8>) -> Seq<u8> {
    let n = p.len();
    let nb = block_count(n);
    if nb <= 1 {
        chain_block(key, p, 0)
    } else {
        Seq::new(
            n,
            |i: int|
                if i < 16 * (nb - 2) {
                    chain_block(key, p, (i / 16) as nat)[i % 16]
                } else if i < 16 * (nb - 1) {
                    chain_block(key, p, (nb - 1) as nat)[i - 16 * (nb - 2)]
                } else {
                    chain_block(key, p, (nb - 2) as nat)[i - 16 * (nb - 1)]
                },
        )
    }
}

/// Block `j` of the CBC chain, recovered from a ciphertext `c` in which the
/// last two blocks have changed places and the stolen tail is missing.
pub open spec fn stored_block(key: Seq<u8>, c: Seq<u8>, j: nat) -> Seq<u8> {
    let n = c.len();
    let nb = block_count(n);
    if nb <= 1 {
        c
    } else if j + 2 < nb {
        c.subrange((16 * j) as int, (16 * j + 16) as int)
    } else if j + 1 == nb {
        c.subrange(16 * (nb - 2), 16 * (nb - 1))
    } else {
        let kept = n - 16 * (nb - 1);
        let last = aes256_decrypt(key, c.subrange(16 * (nb - 2), 16 * (nb - 1)));
        c.subrange(16 * (nb - 1), n as int) + last.subrange(kept, 16)
    }
}

/// Block `j` of the padded plaintext that `c` holds.
pub open spec fn plain_block(key: Seq<u8>, c: Seq<u8>, j: nat) -> Seq<u8> {
    xor_bytes(
        aes256_decrypt(key, stored_block(key, c, j)),
        if j == 0 {
            zero_block()
        } else {
            stored_block(key, c, (j - 1) as nat)
        },
    )
}

/// The plaintext of `c` under `key`.
pub open spec fn cts_decrypt_spec(key: Seq<u8>, c: Seq<u8>) -> Seq<u8> {
    Seq::new(c.len(), |i: int| plain_block(key, c, (i / 16) as nat)[i % 16])
}

/// Every block of the chain over `p` is 16 bytes long and the cipher's
/// decryption takes it back to what was encrypted.
pub open spec fn chain_inverts(key: Seq<u8>, p: Seq<u8>) -> bool {
    forall|j: nat|
        j < block_count(p.len()) ==> (#[trigger] chain_block(key, p, j)).len() == 16
            && aes256_decrypt(key, chain_block(key, p, j)) == chain_input(key, p, j)
}

proof fn xor_cancels(a: u8, b: u8)
    ensures
        (a ^ b) ^ b == a,
        0u8 ^ a == a,
        a ^ 0u8 == a,
{
    assert((a ^ b) ^ b == a) by (bit_vector);
    assert(0u8 ^ a == a) by (bit_vector);
    assert(a ^ 0u8 == a) by (bit_vector);
}

/// Decryption undoes encryption, given that the block cipher's decryption
/// undoes its encryption on the blocks of the chain.
pub proof fn lemma_cts_round_trip(key: Seq<u8>, p: Seq<u8>)
    requires
        p.len() >= 16,
        chain_inverts(key, p),
    ensures
        cts_encrypt_spec(key, p).len() == p.len(),
        cts_decrypt_spec(key, cts_encrypt_spec(key, p)) == p,
{
    let n = p.len();
    let nb = block_count(n);
    let c = cts_encrypt_spec(key, p);
    assert(chain_block(key, p, 0).len() == 16);
    assert(c.len() == n);
    assert forall|j: nat| j < nb implies stored_block(key, c, j) == chain_block(key, p, j) by {
        let cb = chain_block(key, p, j);
        assert(cb.len() == 16);
        if nb <= 1 {
            assert(j == 0);
        } else if j + 2 < nb {
            assert(c.subrange((16 * j) as int, (16 * j + 16) as int) =~= cb) by {
                assert forall|t: int| 0 <= t < 16 implies c[16 * j + t] == cb[t] by {
                    assert((16 * j + t) / 16 == j as int);
                    assert((16 * j + t) % 16 == t);
                }
            }
        } else if j + 1 == nb {
            assert(c.subrange(16 * (nb - 2), 16 * (nb - 1)) =~= cb);
        } else {
            let last_cb = chain_block(key, p, (nb - 1) as nat);
            assert(last_cb.len() == 16);
            assert(c.subrange(16 * (nb - 2), 16 * (nb - 1)) =~= last_cb);
            let kept = n - 16 * (nb - 1);
            let last = aes256_decrypt(key, last_cb);
            assert(last == chain_input(key, p, (nb - 1) as nat));
            assert(chain_block(key, p, ((nb - 1) as nat - 1) as nat) == cb);
            assert forall|t: int| kept <= t < 16 implies last[t] == cb[t] by {
                xor_cancels(cb[t], 0u8);
                assert(padded_block(p, (nb - 1) as nat)[t] == 0u8);
            }
            assert(c.subrange(16 * (nb - 1), n as int) + last.subrange(kept, 16) =~= cb);
        }
    }
    assert forall|i: int| 0 <= i < n implies cts_decrypt_spec(key, c)[i] == p[i] by {
        let j = (i / 16) as nat;
        assert(j < nb);
        let cb = chain_block(key, p, j);
        assert(stored_block(key, c, j) == cb);
        assert(aes256_decrypt(key, cb) == chain_input(key, p, j));
        let prev = if j == 0 {
            zero_block()
        } else {
            chain_block(key, p, (j - 1) as nat)
        };
        if j > 0 {
            assert(stored_block(key, c, (j - 1) as nat) == prev);
            assert(prev.len() == 16);
        }
        let t = i % 16;
        xor_cancels(padded_block(p, j)[t], prev[t]);
        assert(plain_block(key, c, j)[t] == padded_block(p, j)[t]);
        assert(16 * j + t == i);
    }
    assert(cts_decrypt_spec(key, c) =~= p);
}

/// Reads block `j` of `data`, zeros standing in where `data` has ended.
fn load_block(data: &[u8], j: usize) -> (b: [u8; 16])
    requires
        16 * j <= data.len(),
    ensures
        b@ == padded_block(data@, j as nat),
{
    let mut b: [u8; 16] = [0u8; 16];
    let base: usize = 16 * j;
    let mut i: usize = 0;
    while i < 16
        invariant
            i <= 16,
            base == 16 * j,
            base <= data.len(),
            forall|t: int| 0 <= t < i ==> b[t] == padded_block(data@, j as nat)[t],
        decreases 16 - i,
    {
        if i < data.len() - base {
            b[i] = data[base + i];
        } else {
            b[i] = 0u8;
        }
        i += 1;
    }
    assert(b@ =~= padded_block(data@, j as nat));
    b
}

fn xor_block(a: &[u8; 16], b: &[u8; 16]) -> (out: [u8; 16])
    ensures
        out@ == xor_bytes(a@, b@),
{
    let mut out: [u8; 16] = [0u8; 16];
    let mut i: usize = 0;
    while i < 16
        invariant
            i <= 16,
            forall|t: int| 0 <= t < i ==> out[t] == a[t] ^ b[t],
        decreases 16 - i,
    {
        out[i] = a[i] ^ b[i];
        i += 1;
    }
    assert(out@ =~= xor_bytes(a@, b@));
    out
}

/// Encrypts `plaintext`, which fills at least one block.
pub fn cts_encrypt(key: &[u8; 32], plaintext: &[u8]) -> (out: Vec<u8>)
    requires
        plaintext.len() >= 16,
    ensures
        out@ == cts_encrypt_spec(key@, plaintext@),
        out.len() == plaintext.len(),
        chain_inverts(key@, plaintext@),
{
    let n: usize = plaintext.len();
    let nb: usize = (n - 1) / 16 + 1;
    assert(nb == block_count(n as nat));
    let mut chain: Vec<u8> = Vec::new();
    let mut prev: [u8; 16] = [0u8; 16];
    assert(prev@ =~= zero_block());
    let mut j: usize = 0;
    while j < nb
        invariant
            j <= nb,
            nb == block_count(n as nat),
            n == plaintext.len(),
            n >= 16,
            chain.len() == 16 * j,
            prev@ == if j == 0 {
                zero_block()
            } else {
                chain_block(key@, plaintext@, (j - 1) as nat)
            },
            forall|t: nat|
                t < j ==> (#[trigger] chain_block(key@, plaintext@, t)).len() == 16
                    && aes256_decrypt(key@, chain_block(key@, plaintext@, t)) == chain_input(
                    key@,
                    plaintext@,
                    t,
                ),
            forall|i: int|
                0 <= i < 16 * j ==> chain[i] == chain_block(key@, plaintext@, (i / 16) as nat)[i
                    % 16],
        decreases nb - j,
    {
        let pb: [u8; 16] = load_block(plaintext, j);
        let input: [u8; 16] = xor_block(&pb, &prev);
        assert(input@ == chain_input(key@, plaintext@, j as nat));
        let cur: [u8; 16] = aes256_encrypt_block(key, &input);
        assert(cur@ == chain_block(key@, plaintext@, j as nat));
        let ghost before = chain@;
        let mut i: usize = 0;
        while i < 16
            invariant
                i <= 16,
                chain@ == before + cur@.subrange(0, i as int),
            decreases 16 - i,
        {
            chain.push(cur[i]);
            assert(chain@ =~= before + cur@.subrange(0, i + 1));
            i += 1;
        }
        assert(cur@.subrange(0, 16) =~= cur@);
        assert forall|i: int| 0 <= i < 16 * (j + 1) implies chain[i] == chain_block(
            key@,
            plaintext@,
            (i / 16) as nat,
        )[i % 16] by {
            if i >= 16 * j {
                assert(i / 16 == j as int);
                assert(chain[i] == cur@[i - 16 * j]);
            }
        }
        prev = cur;
        j += 1;
    }
    let mut out: Vec<u8> = Vec::new();
    let mut i: usize = 0;
    while i < n
        invariant
            i <= n,
            n == plaintext.len(),
            n >= 16,
            nb == block_count(n as nat),
            chain.len() == 16 * nb,
            out.len() == i,
            forall|t: int|
                0 <= t < 16 * nb ==> chain[t] == chain_block(key@, plaintext@, (t / 16) as nat)[t
                    % 16],
            forall|t: int|
                0 <= t < i ==> out[t] == if nb <= 1 {
                    chain[t]
                } else if t < 16 * (nb - 2) {
                    chain[t]
                } else if t < 16 * (nb - 1) {
                    chain[t + 16]
                } else {
                    chain[t - 16]
                },
        decreases n - i,
    {
        let src: usize = if nb <= 1 || i < 16 * (nb - 2) {
            i
        } else if i < 16 * (nb - 1) {
            i + 16
        } else {
            i - 16
        };
        out.push(chain[src]);
        i += 1;
    }
    proof {
        let spec_out = cts_encrypt_spec(key@, plaintext@);
        assert(chain_block(key@, plaintext@, 0).len() == 16);
        assert forall|t: int| 0 <= t < n implies out[t] == spec_out[t] by {
            if nb <= 1 {
                assert(t / 16 == 0 && t % 16 == t);
            } else if t < 16 * (nb - 2) {
            } else if t < 16 * (nb - 1) {
                assert((t + 16) / 16 == nb - 1);
                assert((t + 16) % 16 == t - 16 * (nb - 2));
            } else {
                assert((t - 16) / 16 == nb - 2);
                assert((t - 16) % 16 == t - 16 * (nb - 1));
            }
        }
        assert(out@ =~= spec_out);
    }
    out
}

/// Reads 16 bytes of `data` from `start`.
fn copy_block(data: &[u8], start: usize) -> (b: [u8; 16])
    requires
        start + 16 <= data.len(),
    ensures
        b@ == data@.subrange(start as int, start + 16),
{
    let mut b: [u8; 16] = [0u8; 16];
    let mut i: usize = 0;
    while i < 16
        invariant
            i <= 16,
            start + 16 <= data.len(),
            forall|t: int| 0 <= t < i ==> b[t] == data[start + t],
        decreases 16 - i,
    {
        b[i] = data[start + i];
        i += 1;
    }
    assert(b@ =~= data@.subrange(start as int, start + 16));
    b
}

/// Recovers block `j` of the CBC chain from the ciphertext.
fn load_stored_block(key: &[u8; 32], c: &[u8], j: usize) -> (b: [u8; 16])
    requires
        c.len() >= 16,
        j < block_count(c.len() as nat),
    ensures
        b@ == stored_block(key@, c@, j as nat),
{
    let n: usize = c.len();
    let nb: usize = (n - 1) / 16 + 1;
    if nb <= 1 {
        let b = copy_block(c, 0);
        assert(c@.subrange(0, 16) =~= c@);
        b
    } else if j + 2 < nb {
        copy_block(c, 16 * j)
    } else if j + 1 == nb {
        copy_block(c, 16 * (nb - 2))
    } else {
        let kept: usize = n - 16 * (nb - 1);
        let swapped: [u8; 16] = copy_block(c, 16 * (nb - 2));
        let last: [u8; 16] = aes256_decrypt_block(key, &swapped);
        let mut b: [u8; 16] = [0u8; 16];
        let mut i: usize = 0;
        while i < 16
            invariant
                i <= 16,
                1 <= kept <= 16,
                n == c.len(),
                nb >= 2,
                kept == n - 16 * (nb - 1),
                forall|t: int|
                    0 <= t < i ==> b[t] == if t < kept {
                        c[16 * (nb - 1) + t]
                    } else {
                        last[t]
                    },
            decreases 16 - i,
        {
            if i < kept {
                b[i] = c[16 * (nb - 1) + i];
            } else {
                b[i] = last[i];
            }
            i += 1;
        }
        assert(b@ =~= c@.subrange(16 * (nb - 1), n as int) + last@.subrange(kept as int, 16));
        b
    }
}

/// Decrypts `ciphertext`, which fills at least one block.
pub fn cts_decrypt(key: &[u8; 32], ciphertext: &[u8]) -> (out: Vec<u8>)
    requires
        ciphertext.len() >= 16,
    ensures
        out@ == cts_decrypt_spec(key@, ciphertext@),
        out.len() == ciphertext.len(),
{
    let n: usize = ciphertext.len();
    let nb: usize = (n - 1) / 16 + 1;
    let mut out: Vec<u8> = Vec::new();
    let mut prev: [u8; 16] = [0u8; 16];
    assert(prev@ =~= zero_block());
    let mut j: usize = 0;
    while j < nb
        invariant
            j <= nb,
            nb == block_count(n as nat),
            n == ciphertext.len(),
            n >= 16,
            out.len() == if 16 * j <= n {
                16 * j
            } else {
                n as int
            },
            prev@ == if j == 0 {
                zero_block()
            } else {
                stored_block(key@, ciphertext@, (j - 1) as nat)
            },
            forall|i: int|
                0 <= i < out.len() ==> out[i] == plain_block(key@, ciphertext@, (i / 16) as nat)[i
                    % 16],
        decreases nb - j,
    {
        let cb: [u8; 16] = load_stored_block(key, ciphertext, j);
        let mixed: [u8; 16] = aes256_decrypt_block(key, &cb);
        let pb: [u8; 16] = xor_block(&mixed, &prev);
        assert(pb@ == plain_block(key@, ciphertext@, j as nat));
        let mut i: usize = 0;
        while i < 16 && out.len() < n
            invariant
                i <= 16,
                n == ciphertext.len(),
                16 * j < n,
                out.len() == if 16 * j + i <= n {
                    16 * j + i
                } else {
                    n as int
                },
                16 * j + i <= n || i == 16,
                pb@ == plain_block(key@, ciphertext@, j as nat),
                forall|t: int|
                    0 <= t < out.len() ==> out[t] == plain_block(
                        key@,
                        ciphertext@,
                        (t / 16) as nat,
                    )[t % 16],
            decreases 16 - i,
        {
            out.push(pb[i]);
            i += 1;
        }
        prev = cb;
        j += 1;
    }
    assert(out@ =~= cts_decrypt_spec(key@, ciphertext@));
    out
}

} // verus!
