//! Base-32 secrets (RFC 4648 alphabet, no padding).
use vstd::prelude::*;

verus! {

/// The case folding of `str::to_uppercase`.
pub uninterp spec fn upper_of(s: Seq<char>) -> Seq<char>;

/// Relies on `str::to_uppercase`: the result depends on the characters alone.
#[verifier::external_body]
fn uppercase(s: &str) -> (r: String)
    ensures
        r@ == upper_of(s@),
{
    s.to_uppercase()
}

/// The 5-bit value of an alphabet character, `None` for any other.
pub open spec fn b32_value(c: char) -> Option<u64> {
    if 'A' <= c && c <= 'Z' {
        Some((c as u64 - 'A' as u64) as u64)
    } else if '2' <= c && c <= '7' {
        Some((c as u64 - '2' as u64 + 26) as u64)
    } else {
        None
    }
}

/// Bit buffer, count of pending bits and bytes emitted after reading `s`:
/// each alphabet character shifts five bits in, and every time eight
/// bits are pending the top eight leave as one byte.
pub open spec fn decode_state(s: Seq<char>) -> (u64, nat, Seq<u8>)
    decreases s.len(),
{
    if s.len() == 0 {
        (0, 0, seq![])
    } else {
        let (buf, bits, out) = decode_state(s.drop_last());
        match b32_value(s.last()) {
            None => (buf, bits, out),
            Some(v) => {
                let nb = (buf << 5u64) | v;
                if bits + 5 >= 8 {
                    let rest = (bits + 5 - 8) as nat;
                    (nb, rest, out.push(((nb >> rest as u64) & 0xffu64) as u8))
                } else {
                    (nb, bits + 5, out)
                }
            },
        }
    }
}

/// The bytes that `s` decodes to; characters outside the alphabet
/// (spaces among them) are skipped, trailing bits are dropped.
pub open spec fn base32_decode(s: Seq<char>) -> Seq<u8> {
    decode_state(s).2
}

fn char_value(c: char) -> (r: Option<u64>)
    ensures
        r == b32_value(c),
{
    if 'A' <= c && c <= 'Z' {
        Some(c as u64 - 'A' as u64)
    } else if '2' <= c && c <= '7' {
        Some(c as u64 - '2' as u64 + 26)
    } else {
        None
    }
}

/// Decodes text already folded to upper case.
pub fn decode_upper(s: &str) -> (r: Vec<u8>)
    ensures
        r@ == base32_decode(s@),
{
    let n = s.unicode_len();
    let mut out: Vec<u8> = Vec::new();
    let mut buffer: u64 = 0;
    let mut bits: u64 = 0;
    let mut i: usize = 0;
    while i < n
        invariant
            i <= n,
            n == s@.len(),
            decode_state(s@.subrange(0, i as int)) == (buffer, bits as nat, out@),
        decreases n - i,
    {
        let c = s.get_char(i);
        proof {
            let pre = s@.subrange(0, i + 1);
            assert(pre.drop_last() =~= s@.subrange(0, i as int));
            assert(pre.last() == c);
            lemma_bits_balance(s@.subrange(0, i as int));
        }
        match char_value(c) {
            None => {},
            Some(v) => {
                buffer = (buffer << 5) | v;
                bits = bits + 5;
                if bits >= 8 {
                    bits = bits - 8;
                    out.push(((buffer >> bits) & 0xff) as u8);
                }
            },
        }
        i += 1;
    }
    assert(s@.subrange(0, n as int) =~= s@);
    out
}

/// Decodes a secret: folds it to upper case, then decodes.
pub fn decode_base32(input: &str) -> (r: Vec<u8>)
    ensures
        r@ == base32_decode(upper_of(input@)),
{
    let upper = uppercase(input);
    decode_upper(upper.as_str())
}

/// How many characters of `s` belong to the alphabet.
pub open spec fn alphabet_count(s: Seq<char>) -> nat
    decreases s.len(),
{
    if s.len() == 0 {
        0
    } else {
        alphabet_count(s.drop_last()) + if b32_value(s.last()) is Some {
            1nat
        } else {
            0nat
        }
    }
}

/// Every alphabet character carries five bits and only whole bytes are
/// emitted, so `s` decodes to `floor(5 * k / 8)` bytes for `k` alphabet
/// characters.
pub proof fn lemma_decode_length(s: Seq<char>)
    ensures
        base32_decode(s).len() == 5 * alphabet_count(s) / 8,
{
    lemma_bits_balance(s);
    let (buf, bits, out) = decode_state(s);
    let c = alphabet_count(s);
    assert(out.len() == 5 * c / 8) by (nonlinear_arith)
        requires
            out.len() * 8 + bits == 5 * c,
            bits < 8,
    ;
}

proof fn lemma_bits_balance(s: Seq<char>)
    ensures
        decode_state(s).2.len() * 8 + decode_state(s).1 == 5 * alphabet_count(s),
        decode_state(s).1 < 8,
    decreases s.len(),
{
    if s.len() > 0 {
        lemma_bits_balance(s.drop_last());
    }
}

} // verus!
