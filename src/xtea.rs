//! XTEA: a 32-round block cipher over 8-byte big-endian blocks with a 128-bit key.
use vstd::prelude::*;

use crate::parse::{be_u32_at, read_u32};
use vstd::wrapping::u32_specs::{wrapping_add, wrapping_sub};

verus! {

pub const DELTA: u32 = 0x9E37_79B9;

pub const ROUNDS: usize = 32;

/// The round sum after the first `DELTA` has been added 32 times.
pub const FINAL_SUM: u32 = 0xC6EF_3720;

/// The round sum after `i` rounds.
pub open spec fn round_sum(i: nat) -> u32
    decreases i,
{
    if i == 0 {
        0
    } else {
        wrapping_add(round_sum((i - 1) as nat), DELTA)
    }
}

pub open spec fn mix(v: u32, sum: u32, k: u32) -> u32 {
    wrapping_add((v << 4u32) ^ (v >> 5u32), v) ^ wrapping_add(sum, k)
}

pub open spec fn key_lo(key: Seq<u32>, s: u32) -> u32 {
    key[(s & 3u32) as int]
}

pub open spec fn key_hi(key: Seq<u32>, s: u32) -> u32 {
    key[((s >> 11u32) & 3u32) as int]
}

/// One enciphering round from round sum `s`.
pub open spec fn enc_step(v: (u32, u32), s: u32, key: Seq<u32>) -> (u32, u32) {
    let a = wrapping_add(v.0, mix(v.1, s, key_lo(key, s)));
    let s2 = wrapping_add(s, DELTA);
    let b = wrapping_add(v.1, mix(a, s2, key_hi(key, s2)));
    (a, b)
}

/// One deciphering round from round sum `s2`, undoing the round that ended there.
pub open spec fn dec_step(v: (u32, u32), s2: u32, key: Seq<u32>) -> (u32, u32) {
    let b = wrapping_sub(v.1, mix(v.0, s2, key_hi(key, s2)));
    let s = wrapping_sub(s2, DELTA);
    let a = wrapping_sub(v.0, mix(b, s, key_lo(key, s)));
    (a, b)
}

pub open spec fn enc_rounds(v: (u32, u32), key: Seq<u32>, n: nat) -> (u32, u32)
    decreases n,
{
    if n == 0 {
        v
    } else {
        enc_step(enc_rounds(v, key, (n - 1) as nat), round_sum((n - 1) as nat), key)
    }
}

pub open spec fn dec_rounds(v: (u32, u32), key: Seq<u32>, n: nat) -> (u32, u32)
    decreases n,
{
    if n == 0 {
        v
    } else {
        dec_rounds(dec_step(v, round_sum(n), key), key, (n - 1) as nat)
    }
}

/// Byte `k` (0 = most significant) of the big-endian form of `x`.
pub open spec fn be_byte(x: u32, k: int) -> u8 {
    if k == 0 {
        (x / 0x100_0000) as u8
    } else if k == 1 {
        ((x / 0x1_0000) % 0x100) as u8
    } else if k == 2 {
        ((x / 0x100) % 0x100) as u8
    } else {
        (x % 0x100) as u8
    }
}

/// `s` with every whole 8-byte block replaced by what `f` makes of its two
/// big-endian words; trailing bytes stay as they are.
pub open spec fn map_blocks(s: Seq<u8>, key: Seq<u32>, enc: bool) -> Seq<u8> {
    Seq::new(
        s.len(),
        |i: int|
            if i < (s.len() / 8) * 8 {
                let j = i / 8;
                let v = (be_u32_at(s, 8 * j) as u32, be_u32_at(s, 8 * j + 4) as u32);
                let w = if enc {
                    enc_rounds(v, key, 32)
                } else {
                    dec_rounds(v, key, 32)
                };
                if i % 8 < 4 {
                    be_byte(w.0, i % 8)
                } else {
                    be_byte(w.1, i % 8 - 4)
                }
            } else {
                s[i]
            },
    )
}

pub open spec fn enciphered(s: Seq<u8>, key: Seq<u32>) -> Seq<u8> {
    map_blocks(s, key, true)
}

pub open spec fn deciphered(s: Seq<u8>, key: Seq<u32>) -> Seq<u8> {
    map_blocks(s, key, false)
}

proof fn lemma_step_inverse(v: (u32, u32), s: u32, key: Seq<u32>)
    ensures
        dec_step(enc_step(v, s, key), wrapping_add(s, DELTA), key) == v,
{
}

proof fn lemma_rounds_inverse(v: (u32, u32), key: Seq<u32>, n: nat)
    ensures
        dec_rounds(enc_rounds(v, key, n), key, n) == v,
    decreases n,
{
    if n > 0 {
        lemma_step_inverse(enc_rounds(v, key, (n - 1) as nat), round_sum((n - 1) as nat), key);
        lemma_rounds_inverse(v, key, (n - 1) as nat);
    }
}

pub(crate) proof fn lemma_be_bytes(x: u32)
    ensures
        be_byte(x, 0) as int * 16777216 + be_byte(x, 1) as int * 65536 + be_byte(x, 2) as int * 256
            + be_byte(x, 3) as int == x,
{
    assert(be_byte(x, 0) as int * 16777216 + be_byte(x, 1) as int * 65536 + be_byte(x, 2) as int
        * 256 + be_byte(x, 3) as int == x) by (nonlinear_arith);
}

proof fn lemma_bytes_be(b0: u8, b1: u8, b2: u8, b3: u8)
    ensures
        ({
            let x = (b0 as int * 16777216 + b1 as int * 65536 + b2 as int * 256 + b3 as int) as u32;
            be_byte(x, 0) == b0 && be_byte(x, 1) == b1 && be_byte(x, 2) == b2 && be_byte(x, 3) == b3
        }),
{
    let x = b0 as int * 16777216 + b1 as int * 65536 + b2 as int * 256 + b3 as int;
    assert(x / 0x100_0000 == b0) by (nonlinear_arith)
        requires
            x == b0 as int * 16777216 + b1 as int * 65536 + b2 as int * 256 + b3 as int,
            0 <= b1 < 256,
            0 <= b2 < 256,
            0 <= b3 < 256,
    ;
    assert((x / 0x1_0000) % 0x100 == b1) by (nonlinear_arith)
        requires
            x == b0 as int * 16777216 + b1 as int * 65536 + b2 as int * 256 + b3 as int,
            0 <= b0 < 256,
            0 <= b1 < 256,
            0 <= b2 < 256,
            0 <= b3 < 256,
    ;
    assert((x / 0x100) % 0x100 == b2) by (nonlinear_arith)
        requires
            x == b0 as int * 16777216 + b1 as int * 65536 + b2 as int * 256 + b3 as int,
            0 <= b0 < 256,
            0 <= b1 < 256,
            0 <= b2 < 256,
            0 <= b3 < 256,
    ;
    assert(x % 0x100 == b3) by (nonlinear_arith)
        requires
            x == b0 as int * 16777216 + b1 as int * 65536 + b2 as int * 256 + b3 as int,
            0 <= b0 < 256,
            0 <= b1 < 256,
            0 <= b2 < 256,
            0 <= b3 < 256,
    ;
}

/// Bytes appended after `s` that do not complete another whole block are left as
/// they are.
pub proof fn lemma_map_blocks_append(s: Seq<u8>, t: Seq<u8>, key: Seq<u32>, enc: bool)
    requires
        s.len() % 8 + t.len() < 8,
    ensures
        map_blocks(s + t, key, enc) == map_blocks(s, key, enc) + t,
{
    let st = s + t;
    let l = s.len() as int;
    assert((st.len() / 8) * 8 == (l / 8) * 8) by (nonlinear_arith)
        requires
            st.len() == l + t.len(),
            l % 8 + t.len() < 8,
            l >= 0,
    ;
    assert forall|i: int| 0 <= i < st.len() implies map_blocks(st, key, enc)[i] == (map_blocks(s, key, enc) + t)[i] by {
        if i < (l / 8) * 8 {
            let j = i / 8;
            assert(8 * j + 8 <= (l / 8) * 8) by (nonlinear_arith)
                requires
                    j == i / 8,
                    0 <= i < (l / 8) * 8,
            ;
            assert(st[8 * j] == s[8 * j] && st[8 * j + 1] == s[8 * j + 1] && st[8 * j + 2] == s[8 * j + 2]
                && st[8 * j + 3] == s[8 * j + 3]);
            assert(st[8 * j + 4] == s[8 * j + 4] && st[8 * j + 5] == s[8 * j + 5] && st[8 * j + 6] == s[8
                * j + 6] && st[8 * j + 7] == s[8 * j + 7]);
        }
    }
    assert(map_blocks(st, key, enc) =~= map_blocks(s, key, enc) + t);
}

/// Deciphering with the key that enciphered gives back the original bytes.
pub proof fn lemma_decipher_encipher(s: Seq<u8>, key: Seq<u32>)
    ensures
        deciphered(enciphered(s, key), key) == s,
{
    let e = enciphered(s, key);
    let d = deciphered(e, key);
    assert forall|i: int| 0 <= i < s.len() implies d[i] == s[i] by {
        if i < (s.len() / 8) * 8 {
            let j = i / 8;
            let v = (be_u32_at(s, 8 * j) as u32, be_u32_at(s, 8 * j + 4) as u32);
            let w = enc_rounds(v, key, 32);
            assert(0 <= j && 8 * j + 8 <= (s.len() / 8) * 8);
            assert(e[8 * j] == be_byte(w.0, 0));
            assert(e[8 * j + 1] == be_byte(w.0, 1));
            assert(e[8 * j + 2] == be_byte(w.0, 2));
            assert(e[8 * j + 3] == be_byte(w.0, 3));
            assert(e[8 * j + 4] == be_byte(w.1, 0));
            assert(e[8 * j + 5] == be_byte(w.1, 1));
            assert(e[8 * j + 6] == be_byte(w.1, 2));
            assert(e[8 * j + 7] == be_byte(w.1, 3));
            lemma_be_bytes(w.0);
            lemma_be_bytes(w.1);
            lemma_rounds_inverse(v, key, 32);
            lemma_bytes_be(s[8 * j], s[8 * j + 1], s[8 * j + 2], s[8 * j + 3]);
            lemma_bytes_be(s[8 * j + 4], s[8 * j + 5], s[8 * j + 6], s[8 * j + 7]);
            assert(i - 8 * j == i % 8);
        }
    }
    assert(d =~= s);
}


fn mix_exec(v: u32, sum: u32, k: u32) -> (r: u32)
    ensures
        r == mix(v, sum, k),
{
    ((v << 4u32) ^ (v >> 5u32)).wrapping_add(v) ^ sum.wrapping_add(k)
}

fn key_index_lo(s: u32) -> (r: usize)
    ensures
        r == (s & 3u32) as usize,
        r < 4,
{
    assert((s & 3u32) < 4) by (bit_vector);
    (s & 3u32) as usize
}

fn key_index_hi(s: u32) -> (r: usize)
    ensures
        r == ((s >> 11u32) & 3u32) as usize,
        r < 4,
{
    assert(((s >> 11u32) & 3u32) < 4) by (bit_vector);
    ((s >> 11u32) & 3u32) as usize
}

fn encipher_block(v0: u32, v1: u32, key: &[u32; 4]) -> (r: (u32, u32))
    ensures
        r == enc_rounds((v0, v1), key@, 32),
{
    let mut a = v0;
    let mut b = v1;
    let mut sum: u32 = 0;
    let mut i: usize = 0;
    while i < ROUNDS
        invariant
            i <= 32,
            (a, b) == enc_rounds((v0, v1), key@, i as nat),
            sum == round_sum(i as nat),
        decreases 32 - i,
    {
        let k1 = key[key_index_lo(sum)];
        a = a.wrapping_add(mix_exec(b, sum, k1));
        sum = sum.wrapping_add(DELTA);
        let k2 = key[key_index_hi(sum)];
        b = b.wrapping_add(mix_exec(a, sum, k2));
        i = i + 1;
    }
    (a, b)
}

fn decipher_block(v0: u32, v1: u32, key: &[u32; 4]) -> (r: (u32, u32))
    ensures
        r == dec_rounds((v0, v1), key@, 32),
{
    let mut a = v0;
    let mut b = v1;
    let mut sum: u32 = FINAL_SUM;
    let mut i: usize = 32;
    proof {
        reveal_with_fuel(round_sum, 33);
    }
    while i > 0
        invariant
            i <= 32,
            dec_rounds((a, b), key@, i as nat) == dec_rounds((v0, v1), key@, 32),
            sum == round_sum(i as nat),
        decreases i,
    {
        let k2 = key[key_index_hi(sum)];
        b = b.wrapping_sub(mix_exec(a, sum, k2));
        sum = sum.wrapping_sub(DELTA);
        let k1 = key[key_index_lo(sum)];
        a = a.wrapping_sub(mix_exec(b, sum, k1));
        i = i - 1;
    }
    (a, b)
}

fn put_u32(bytes: &mut Vec<u8>, p: usize, x: u32)
    requires
        p + 4 <= old(bytes)@.len(),
    ensures
        final(bytes)@.len() == old(bytes)@.len(),
        forall|i: int|
            0 <= i < old(bytes)@.len() ==> #[trigger] final(bytes)@[i] == if p <= i < p + 4 {
                be_byte(x, i - p)
            } else {
                old(bytes)@[i]
            },
{
    let _ = bytes.len();
    bytes.set(p, (x / 0x100_0000) as u8);
    bytes.set(p + 1, ((x / 0x1_0000) % 0x100) as u8);
    bytes.set(p + 2, ((x / 0x100) % 0x100) as u8);
    bytes.set(p + 3, (x % 0x100) as u8);
}

fn apply_blocks(bytes: &mut Vec<u8>, key: &[u32; 4], enc: bool)
    ensures
        final(bytes)@ == map_blocks(old(bytes)@, key@, enc),
{
    let ghost orig = bytes@;
    let len = bytes.len();
    let n = len / 8;
    assert(8 * n <= len) by (nonlinear_arith)
        requires
            n == len / 8,
    ;
    let mut j: usize = 0;
    while j < n
        invariant
            bytes@.len() == orig.len(),
            n == orig.len() / 8,
            8 * n <= orig.len(),
            orig.len() == len,
            j <= n,
            forall|i: int| 0 <= i < 8 * j ==> #[trigger] bytes@[i] == map_blocks(orig, key@, enc)[i],
            forall|i: int| 8 * j <= i < orig.len() ==> #[trigger] bytes@[i] == orig[i],
        decreases n - j,
    {
        let p = 8 * j;
        let v0 = match read_u32(bytes.as_slice(), p) {
            Some(v) => v,
            None => 0,
        };
        let v1 = match read_u32(bytes.as_slice(), p + 4) {
            Some(v) => v,
            None => 0,
        };
        let w = if enc {
            encipher_block(v0, v1, key)
        } else {
            decipher_block(v0, v1, key)
        };
        put_u32(bytes, p, w.0);
        put_u32(bytes, p + 4, w.1);
        proof {
            assert forall|i: int| 8 * j <= i < 8 * j + 8 implies #[trigger] bytes@[i] == map_blocks(
                orig,
                key@,
                enc,
            )[i] by {
                assert(i / 8 == j as int);
            }
        }
        j = j + 1;
    }
    assert(bytes@ =~= map_blocks(orig, key@, enc));
}

/// Enciphers every whole 8-byte block of `bytes` in place.
pub fn encipher(bytes: &mut Vec<u8>, key: &[u32; 4])
    ensures
        final(bytes)@ == enciphered(old(bytes)@, key@),
{
    apply_blocks(bytes, key, true);
}

/// Deciphers every whole 8-byte block of `bytes` in place.
pub fn decipher(bytes: &mut Vec<u8>, key: &[u32; 4])
    ensures
        final(bytes)@ == deciphered(old(bytes)@, key@),
{
    apply_blocks(bytes, key, false);
}

} // verus!
