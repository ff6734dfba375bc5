//! The trusted boundary to the `bit_vec` crate, which stores a glyph's
//! bitmap rows. A row's contents are modelled as a `Seq<bool>` through
//! `bits_of`; the wrappers state what the crate's documentation promises.

use vstd::prelude::*;

verus! {

/// Declares `bit_vec::BitVec` so that it can stand in fields and
/// signatures; its values stay opaque and are read through `bits_of`.
#[verifier::external_type_specification]
#[verifier::external_body]
#[verifier::reject_recursive_types(B)]
pub struct ExBitVec<B>(bit_vec::BitVec<B>);

/// The bits that a `BitVec` holds, in order.
pub uninterp spec fn bits_of(v: bit_vec::BitVec) -> Seq<bool>;

/// The eight bits of one byte, most significant first.
pub open spec fn byte_bits(b: u8) -> Seq<bool> {
    seq![
        b & 0x80 != 0,
        b & 0x40 != 0,
        b & 0x20 != 0,
        b & 0x10 != 0,
        b & 0x08 != 0,
        b & 0x04 != 0,
        b & 0x02 != 0,
        b & 0x01 != 0,
    ]
}

/// The bits of a byte sequence, each byte contributing eight bits, most
/// significant first.
pub open spec fn bytes_to_bits(bs: Seq<u8>) -> Seq<bool>
    decreases bs.len(),
{
    if bs.len() == 0 {
        Seq::<bool>::empty()
    } else {
        bytes_to_bits(bs.drop_last()) + byte_bits(bs.last())
    }
}

/// Relies on `bit_vec::BitVec::from_bytes`: each byte becomes eight bits,
/// with the most significant bits of each byte coming first.
#[verifier::external_body]
pub fn bitvec_from_bytes(bytes: &Vec<u8>) -> (r: bit_vec::BitVec)
    ensures
        bits_of(r) == bytes_to_bits(bytes@),
{
    bit_vec::BitVec::from_bytes(bytes)
}

/// Relies on `bit_vec::BitVec::len`: the number of bits held.
#[verifier::external_body]
pub fn bitvec_len(v: &bit_vec::BitVec) -> (r: usize)
    ensures
        r == bits_of(*v).len(),
{
    v.len()
}

/// Relies on `bit_vec::BitVec::get`: the bit at index `i`, or `None` if
/// `i` is out of bounds.
#[verifier::external_body]
pub fn bitvec_get(v: &bit_vec::BitVec, i: usize) -> (r: Option<bool>)
    ensures
        r == if i < bits_of(*v).len() {
            Some(bits_of(*v)[i as int])
        } else {
            None::<bool>
        },
{
    v.get(i)
}

} // verus!
