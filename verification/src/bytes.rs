//! Big-endian encoding and decoding of 32-bit words.
//!
//! Every multi-byte field of the bytecode image is big-endian: the most
//! significant byte comes first.

use vstd::prelude::*;
use vstd::string::StringSliceAdditionalSpecFns;

verus! {

/// The four big-endian bytes of a 32-bit word, most significant byte first:
/// byte `i` is `(v >> ((3 - i) * 8)) & 0xFF`.
pub open spec fn be_word_bytes(v: u32) -> Seq<u8> {
    seq![
        ((v >> 24u32) & 0xFF) as u8,
        ((v >> 16u32) & 0xFF) as u8,
        ((v >> 8u32) & 0xFF) as u8,
        (v & 0xFF) as u8,
    ]
}

/// The 16-bit value read from two big-endian bytes.
pub open spec fn be_half_value(b0: u8, b1: u8) -> u16 {
    (((b0 as u16) << 8u16) | (b1 as u16)) as u16
}

/// The 32-bit value read from four big-endian bytes.
pub open spec fn be_word_value(b0: u8, b1: u8, b2: u8, b3: u8) -> u32 {
    (((b0 as u32) << 24u32) | ((b1 as u32) << 16u32) | ((b2 as u32) << 8u32) | (b3 as u32)) as u32
}

/// The 32-bit value read from the first four entries of a byte sequence.
pub open spec fn be_word_of_seq(b: Seq<u8>) -> u32
    recommends
        b.len() >= 4,
{
    be_word_value(b[0], b[1], b[2], b[3])
}

/// Decoding the four bytes emitted by the big-endian encoder gives the
/// encoded word back, for every 32-bit word.
pub proof fn lemma_be_round_trip(v: u32)
    ensures
        be_word_of_seq(be_word_bytes(v)) == v,
{
    assert((((((v >> 24u32) & 0xFF) as u8) as u32) << 24u32 | ((((v >> 16u32) & 0xFF) as u8)
        as u32) << 16u32 | ((((v >> 8u32) & 0xFF) as u8) as u32) << 8u32 | (((v & 0xFF) as u8)
        as u32)) as u32 == v) by (bit_vector);
}

/// Appends the four big-endian bytes of `v` to `out`.
pub fn push_be_word(out: &mut Vec<u8>, v: u32)
    ensures
        final(out)@ == old(out)@ + be_word_bytes(v),
{
    proof {
        assert((v >> 24u32) & 0xFF < 256 && (v >> 16u32) & 0xFF < 256 && (v >> 8u32) & 0xFF < 256
            && v & 0xFF < 256) by (bit_vector);
    }
    out.push(((v >> 24u32) & 0xFF) as u8);
    out.push(((v >> 16u32) & 0xFF) as u8);
    out.push(((v >> 8u32) & 0xFF) as u8);
    out.push((v & 0xFF) as u8);
    proof {
        assert(out@ =~= old(out)@ + be_word_bytes(v));
    }
}

/// ASCII lower case of one byte: `A` through `Z` map to `a` through `z`;
/// every other byte is unchanged.
pub open spec fn lower_byte(b: u8) -> u8 {
    if 65 <= b <= 90 {
        (b + 32) as u8
    } else {
        b
    }
}

/// ASCII lower case of a byte sequence.
pub open spec fn ascii_lower(s: Seq<u8>) -> Seq<u8> {
    s.map_values(|b: u8| lower_byte(b))
}

/// The ASCII lower case of a byte string.
pub fn ascii_lower_vec(s: &[u8]) -> (r: Vec<u8>)
    ensures
        r@ == ascii_lower(s@),
{
    let mut r: Vec<u8> = Vec::new();
    let mut i: usize = 0;
    while i < s.len()
        invariant
            i <= s@.len(),
            r@.len() == i,
            forall|j: int| 0 <= j < i ==> r@[j] == lower_byte(s@[j]),
        decreases s@.len() - i,
    {
        let b = s[i];
        r.push(if 65 <= b && b <= 90 { b + 32 } else { b });
        i += 1;
    }
    proof {
        assert(r@ =~= ascii_lower(s@));
    }
    r
}

/// Whether two byte strings hold the same bytes.
pub fn bytes_eq(a: &[u8], b: &[u8]) -> (r: bool)
    ensures
        r == (a@ == b@),
{
    if a.len() != b.len() {
        return false;
    }
    let mut i: usize = 0;
    while i < a.len()
        invariant
            i <= a@.len(),
            a@.len() == b@.len(),
            forall|j: int| 0 <= j < i ==> a@[j] == b@[j],
        decreases a@.len() - i,
    {
        if a[i] != b[i] {
            return false;
        }
        i += 1;
    }
    proof {
        assert(a@ =~= b@);
    }
    true
}

/// A copy of a byte string that provably holds the same bytes.
pub fn dup_bytes(v: &Vec<u8>) -> (r: Vec<u8>)
    ensures
        r@ == v@,
{
    let mut r: Vec<u8> = Vec::new();
    let mut i: usize = 0;
    while i < v.len()
        invariant
            i <= v@.len(),
            r@ =~= v@.take(i as int),
        decreases v@.len() - i,
    {
        r.push(v[i]);
        i += 1;
        proof {
            assert(r@ =~= v@.take(i as int));
        }
    }
    proof {
        assert(v@.take(v@.len() as int) =~= v@);
    }
    r
}

/// Appends all of `src` to `out`.
pub fn push_bytes(out: &mut Vec<u8>, src: &Vec<u8>)
    ensures
        final(out)@ == old(out)@ + src@,
{
    let mut i: usize = 0;
    proof {
        assert(out@ =~= old(out)@ + src@.take(0));
    }
    while i < src.len()
        invariant
            i <= src@.len(),
            out@ == old(out)@ + src@.take(i as int),
        decreases src@.len() - i,
    {
        out.push(src[i]);
        i += 1;
        proof {
            assert(out@ =~= old(out)@ + src@.take(i as int));
        }
    }
    proof {
        assert(src@.take(src@.len() as int) =~= src@);
    }
}

/// Whether a byte string spells the same text as a string literal.
pub fn bytes_eq_str(a: &[u8], s: &str) -> (r: bool)
    ensures
        r == (a@ == s.spec_bytes()),
{
    let sb: &[u8] = s.as_bytes();
    if a.len() != sb.len() {
        return false;
    }
    let mut i: usize = 0;
    while i < a.len()
        invariant
            i <= a@.len(),
            a@.len() == sb@.len(),
            sb@ == s.spec_bytes(),
            forall|j: int| 0 <= j < i ==> a@[j] == sb@[j],
        decreases a@.len() - i,
    {
        if a[i] != sb[i] {
            return false;
        }
        i += 1;
    }
    proof {
        assert(a@ =~= sb@);
    }
    true
}

/// The big-endian bytes of a 32-bit two's-complement value:
/// `b[i] = (value >> ((3 - i) * 8)) & 0xFF`.
pub fn val_to_bytes(value: i32) -> (r: Vec<u8>)
    ensures
        r@ == be_word_bytes(value as u32),
{
    let v: u32 = value as u32;
    let mut rv: Vec<u8> = Vec::new();
    push_be_word(&mut rv, v);
    proof {
        assert(rv@ =~= be_word_bytes(value as u32));
    }
    rv
}

} // verus!
