//! Keyed message authentication over the block hash, with the standard
//! inner and outer pads.
use vstd::prelude::*;
use crate::sha1::{digest, sha1};

verus! {

/// The key brought to one 64-byte block: hashed first if it is longer,
/// then filled up with zero bytes.
pub open spec fn block_key(key: Seq<u8>) -> Seq<u8> {
    let k = if key.len() > 64 {
        digest(key)
    } else {
        key
    };
    k + Seq::new((64 - k.len()) as nat, |i: int| 0u8)
}

/// Each byte of a 64-byte key XORed with `pad`.
pub open spec fn xor_pad(k: Seq<u8>, pad: u8) -> Seq<u8> {
    Seq::new(64, |i: int| k[i] ^ pad)
}

/// `hash(outer_pad || hash(inner_pad || msg))`.
pub open spec fn mac(key: Seq<u8>, msg: Seq<u8>) -> Seq<u8> {
    let k = block_key(key);
    digest(xor_pad(k, 0x5c) + digest(xor_pad(k, 0x36) + msg))
}

/// `b` appended to `out`.
pub fn append_bytes(out: &mut Vec<u8>, b: &[u8])
    ensures
        final(out)@ == old(out)@ + b@,
{
    let mut i: usize = 0;
    while i < b.len()
        invariant
            i <= b@.len(),
            out@ == old(out)@ + b@.subrange(0, i as int),
        decreases b@.len() - i,
    {
        out.push(b[i]);
        i += 1;
        assert(out@ =~= old(out)@ + b@.subrange(0, i as int));
    }
    assert(b@.subrange(0, b@.len() as int) =~= b@);
}

fn xor_block(k: &Vec<u8>, pad: u8) -> (r: Vec<u8>)
    requires
        k@.len() == 64,
    ensures
        r@ == xor_pad(k@, pad),
{
    let mut r: Vec<u8> = Vec::new();
    let mut i: usize = 0;
    while i < 64
        invariant
            i <= 64,
            k@.len() == 64,
            r@ == xor_pad(k@, pad).subrange(0, i as int),
        decreases 64 - i,
    {
        r.push(k[i] ^ pad);
        i += 1;
        assert(r@ =~= xor_pad(k@, pad).subrange(0, i as int));
    }
    assert(r@ =~= xor_pad(k@, pad));
    r
}

/// The 20-byte MAC of `data` under `key`.
pub fn hmac_sha1(key: &[u8], data: &[u8]) -> (r: Vec<u8>)
    ensures
        r@ == mac(key@, data@),
        r@.len() == 20,
{
    let mut k: Vec<u8> = if key.len() > 64 {
        sha1(key)
    } else {
        vstd::slice::slice_to_vec(key)
    };
    let ghost k0 = k@;
    while k.len() < 64
        invariant
            k0.len() <= 64,
            k0.len() <= k@.len() <= 64,
            k@ == k0 + Seq::new((k@.len() - k0.len()) as nat, |i: int| 0u8),
        decreases 64 - k@.len(),
    {
        k.push(0);
        assert(k@ =~= k0 + Seq::new((k@.len() - k0.len()) as nat, |i: int| 0u8));
    }
    assert(k@ =~= block_key(key@));
    let ipad = xor_block(&k, 0x36);
    let opad = xor_block(&k, 0x5c);
    let mut inner = ipad;
    append_bytes(&mut inner, data);
    let inner_hash = sha1(inner.as_slice());
    let mut outer = opad;
    append_bytes(&mut outer, inner_hash.as_slice());
    sha1(outer.as_slice())
}

} // verus!
