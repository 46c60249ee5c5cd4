//! The 160-bit block hash: 64-byte blocks, five 32-bit chaining words,
//! an 80-word message schedule and 80 rounds per block.
use vstd::prelude::*;
use vstd::wrapping::u32_specs;
use vstd::wrapping::u64_specs;

verus! {

/// The five chaining words `(h0, h1, h2, h3, h4)`.
pub type State = (u32, u32, u32, u32, u32);

pub open spec fn add32(x: u32, y: u32) -> u32 {
    u32_specs::wrapping_add(x, y)
}

/// Left rotation of a 32-bit word by `n` bits, `0 < n < 32`.
pub open spec fn rotl(x: u32, n: u32) -> u32 {
    (x << n) | (x >> ((32 - n) as u32))
}

pub open spec fn initial_state() -> State {
    (0x67452301u32, 0xEFCDAB89u32, 0x98BADCFEu32, 0x10325476u32, 0xC3D2E1F0u32)
}

/// The big-endian word that starts at byte `i` of `b`.
pub open spec fn be_word(b: Seq<u8>, i: int) -> u32 {
    ((b[i] as u32) << 24u32) | ((b[i + 1] as u32) << 16u32) | ((b[i + 2] as u32) << 8u32) | (
    b[i + 3] as u32)
}

pub open spec fn be32(x: u32) -> Seq<u8> {
    seq![(x >> 24u32) as u8, (x >> 16u32) as u8, (x >> 8u32) as u8, x as u8]
}

pub open spec fn be64(x: u64) -> Seq<u8> {
    seq![
        (x >> 56u64) as u8,
        (x >> 48u64) as u8,
        (x >> 40u64) as u8,
        (x >> 32u64) as u8,
        (x >> 24u64) as u8,
        (x >> 16u64) as u8,
        (x >> 8u64) as u8,
        x as u8,
    ]
}

/// Word `t` of the message schedule of a 64-byte block.
pub open spec fn schedule(blk: Seq<u8>, t: nat) -> u32
    decreases t,
{
    if t < 16 {
        be_word(blk, 4 * t as int)
    } else {
        rotl(
            schedule(blk, (t - 3) as nat) ^ schedule(blk, (t - 8) as nat) ^ schedule(
                blk,
                (t - 14) as nat,
            ) ^ schedule(blk, (t - 16) as nat),
            1,
        )
    }
}

/// The boolean function of round `t`.
pub open spec fn round_f(t: int, b: u32, c: u32, d: u32) -> u32 {
    if t < 20 {
        (b & c) | (!b & d)
    } else if t < 40 {
        b ^ c ^ d
    } else if t < 60 {
        (b & c) | (b & d) | (c & d)
    } else {
        b ^ c ^ d
    }
}

/// The additive constant of round `t`.
pub open spec fn round_k(t: int) -> u32 {
    if t < 20 {
        0x5A827999u32
    } else if t < 40 {
        0x6ED9EBA1u32
    } else if t < 60 {
        0x8F1BBCDCu32
    } else {
        0xCA62C1D6u32
    }
}

/// One round `t` with schedule word `w`.
pub open spec fn round(s: State, t: int, w: u32) -> State {
    let temp = add32(
        add32(add32(add32(rotl(s.0, 5), round_f(t, s.1, s.2, s.3)), s.4), round_k(t)),
        w,
    );
    (temp, s.0, rotl(s.1, 30), s.2, s.3)
}

/// The working state after the first `n` rounds over a block.
pub open spec fn rounds(h: State, blk: Seq<u8>, n: nat) -> State
    decreases n,
{
    if n == 0 {
        h
    } else {
        round(rounds(h, blk, (n - 1) as nat), n - 1, schedule(blk, (n - 1) as nat))
    }
}

/// The chaining state after one 64-byte block.
pub open spec fn compress(h: State, blk: Seq<u8>) -> State {
    let s = rounds(h, blk, 80);
    (add32(h.0, s.0), add32(h.1, s.1), add32(h.2, s.2), add32(h.3, s.3), add32(h.4, s.4))
}

/// The chaining state after the first `n` blocks of `m`.
pub open spec fn absorb(m: Seq<u8>, n: nat) -> State
    decreases n,
{
    if n == 0 {
        initial_state()
    } else {
        compress(absorb(m, (n - 1) as nat), m.subrange(64 * (n - 1), 64 * n as int))
    }
}

/// How many zero bytes follow the `0x80` separator.
pub open spec fn zero_fill(len: nat) -> nat {
    ((119 - (len % 64) as int) % 64) as nat
}

/// The message bit length, modulo 2^64.
pub open spec fn bit_length(len: nat) -> u64 {
    u64_specs::wrapping_mul(len as u64, 8)
}

/// The message with separator, zero fill and big-endian bit length.
pub open spec fn padded(msg: Seq<u8>) -> Seq<u8> {
    msg + seq![0x80u8] + Seq::new(zero_fill(msg.len()), |i: int| 0u8) + be64(
        bit_length(msg.len()),
    )
}

pub open spec fn state_bytes(h: State) -> Seq<u8> {
    be32(h.0) + be32(h.1) + be32(h.2) + be32(h.3) + be32(h.4)
}

/// The 20-byte digest of `msg`.
pub open spec fn digest(msg: Seq<u8>) -> Seq<u8> {
    let p = padded(msg);
    state_bytes(absorb(p, p.len() / 64))
}

pub fn left_rotate(value: u32, shift: u32) -> (r: u32)
    requires
        0 < shift < 32,
    ensures
        r == rotl(value, shift),
{
    (value << shift) | (value >> (32 - shift))
}

fn push_be32(out: &mut Vec<u8>, x: u32)
    ensures
        final(out)@ == old(out)@ + be32(x),
{
    out.push((x >> 24) as u8);
    out.push((x >> 16) as u8);
    out.push((x >> 8) as u8);
    out.push(x as u8);
    assert(final(out)@ =~= old(out)@ + be32(x));
}

/// The 80 schedule words of the block at `base`.
fn expand(m: &Vec<u8>, base: usize) -> (w: Vec<u32>)
    requires
        base + 64 <= m@.len(),
    ensures
        w@.len() == 80,
        forall|t: int| 0 <= t < 80 ==> w@[t] == schedule(m@.subrange(base as int, base + 64), t as nat),
{
    let ghost blk = m@.subrange(base as int, base + 64);
    let len = m.len();
    let mut w: Vec<u32> = Vec::new();
    let mut i: usize = 0;
    while i < 16
        invariant
            i <= 16,
            blk == m@.subrange(base as int, base + 64),
            base + 64 <= m@.len(),
            len == m@.len(),
            w@.len() == i,
            forall|t: int| 0 <= t < i ==> w@[t] == schedule(blk, t as nat),
        decreases 16 - i,
    {
        let s = base + i * 4;
        let word = ((m[s] as u32) << 24) | ((m[s + 1] as u32) << 16) | ((m[s + 2] as u32) << 8) | (
        m[s + 3] as u32);
        assert(blk[4 * i as int] == m@[s as int]);
        assert(blk[4 * i + 1] == m@[s + 1]);
        assert(blk[4 * i + 2] == m@[s + 2]);
        assert(blk[4 * i + 3] == m@[s + 3]);
        w.push(word);
        i += 1;
    }
    while i < 80
        invariant
            16 <= i <= 80,
            w@.len() == i,
            forall|t: int| 0 <= t < i ==> w@[t] == schedule(blk, t as nat),
        decreases 80 - i,
    {
        let x = left_rotate(w[i - 3] ^ w[i - 8] ^ w[i - 14] ^ w[i - 16], 1);
        w.push(x);
        i += 1;
    }
    w
}

/// One block at `base` folded into the chaining state `h`.
fn compress_block(h: State, m: &Vec<u8>, base: usize) -> (r: State)
    requires
        base + 64 <= m@.len(),
    ensures
        r == compress(h, m@.subrange(base as int, base + 64)),
{
    let ghost blk = m@.subrange(base as int, base + 64);
    let w = expand(m, base);
    let (mut a, mut b, mut c, mut d, mut e) = h;
    let mut i: usize = 0;
    while i < 80
        invariant
            i <= 80,
            w@.len() == 80,
            forall|t: int| 0 <= t < 80 ==> w@[t] == schedule(blk, t as nat),
            (a, b, c, d, e) == rounds(h, blk, i as nat),
        decreases 80 - i,
    {
        let f: u32;
        let k: u32;
        if i < 20 {
            f = (b & c) | (!b & d);
            k = 0x5A827999;
        } else if i < 40 {
            f = b ^ c ^ d;
            k = 0x6ED9EBA1;
        } else if i < 60 {
            f = (b & c) | (b & d) | (c & d);
            k = 0x8F1BBCDC;
        } else {
            f = b ^ c ^ d;
            k = 0xCA62C1D6;
        }
        let temp = left_rotate(a, 5).wrapping_add(f).wrapping_add(e).wrapping_add(k).wrapping_add(
            w[i],
        );
        e = d;
        d = c;
        c = left_rotate(b, 30);
        b = a;
        a = temp;
        i += 1;
    }
    (h.0.wrapping_add(a), h.1.wrapping_add(b), h.2.wrapping_add(c), h.3.wrapping_add(d), h.4.wrapping_add(e))
}

proof fn lemma_padded_len(len: nat)
    ensures
        (len + 1 + zero_fill(len) + 8) % 64 == 0,
{
}

/// The digest of `data`.
pub fn sha1(data: &[u8]) -> (r: Vec<u8>)
    ensures
        r@ == digest(data@),
        r@.len() == 20,
{
    let mut p: Vec<u8> = Vec::new();
    let mut i: usize = 0;
    while i < data.len()
        invariant
            i <= data@.len(),
            p@ == data@.subrange(0, i as int),
        decreases data@.len() - i,
    {
        p.push(data[i]);
        i += 1;
    }
    p.push(0x80);
    let zeros: usize = (119 - data.len() % 64) % 64;
    let mut j: usize = 0;
    while j < zeros
        invariant
            j <= zeros,
            zeros == zero_fill(data@.len()),
            p@ == data@ + seq![0x80u8] + Seq::new(j as nat, |k: int| 0u8),
        decreases zeros - j,
    {
        p.push(0);
        j += 1;
        assert(p@ =~= data@ + seq![0x80u8] + Seq::new(j as nat, |k: int| 0u8));
    }
    let bits: u64 = (data.len() as u64).wrapping_mul(8);
    p.push((bits >> 56) as u8);
    p.push((bits >> 48) as u8);
    p.push((bits >> 40) as u8);
    p.push((bits >> 32) as u8);
    p.push((bits >> 24) as u8);
    p.push((bits >> 16) as u8);
    p.push((bits >> 8) as u8);
    p.push(bits as u8);
    assert(p@ =~= padded(data@));
    proof {
        lemma_padded_len(data@.len());
    }
    let nblocks = p.len() / 64;
    let mut h: State = (0x67452301, 0xEFCDAB89, 0x98BADCFE, 0x10325476, 0xC3D2E1F0);
    let mut n: usize = 0;
    while n < nblocks
        invariant
            n <= nblocks,
            nblocks == p@.len() / 64,
            p@.len() % 64 == 0,
            p@.len() <= usize::MAX,
            h == absorb(p@, n as nat),
        decreases nblocks - n,
    {
        assert((n + 1) * 64 <= p@.len()) by (nonlinear_arith)
            requires
                n < nblocks,
                nblocks == p@.len() / 64,
        ;
        h = compress_block(h, &p, n * 64);
        n += 1;
    }
    let mut out: Vec<u8> = Vec::new();
    push_be32(&mut out, h.0);
    push_be32(&mut out, h.1);
    push_be32(&mut out, h.2);
    push_be32(&mut out, h.3);
    push_be32(&mut out, h.4);
    assert(out@ =~= state_bytes(h));
    out
}

} // verus!
