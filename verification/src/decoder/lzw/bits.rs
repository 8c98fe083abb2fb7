//! The code stream as bits: `bitter`'s little-endian reader, and what its
//! calls are taken to do.

use bitter::BitReader;
use bitter::LittleEndianReader;
use vstd::arithmetic::power2::pow2;
use vstd::prelude::*;

verus! {

/// `bitter::LittleEndianReader`: a cursor over a byte slice. Nothing is
/// known of what it holds but through `unread_bits`.
#[verifier::external_type_specification]
#[verifier::external_body]
pub struct ExLittleEndianReader<'a>(LittleEndianReader<'a>);

/// The bits that a reader has not handed out yet, in the order in which it
/// will hand them out.
pub uninterp spec fn unread_bits(reader: LittleEndianReader) -> Seq<bool>;

/// Bit `i` of a byte sequence: bit 0 of a byte comes first, earlier bytes come
/// before later ones.
pub open spec fn bit_at(data: Seq<u8>, i: int) -> bool {
    (data[i / 8] as nat / pow2((i % 8) as nat)) % 2 == 1
}

/// The bits of a byte sequence, least significant bit of each byte first.
pub open spec fn bits_of(data: Seq<u8>) -> Seq<bool> {
    Seq::new(8 * data.len(), |i: int| bit_at(data, i))
}

/// The number that a bit sequence spells, its first bit weighing least.
pub open spec fn bits_value(bits: Seq<bool>) -> nat
    decreases bits.len(),
{
    if bits.len() == 0 {
        0
    } else {
        (if bits[0] { 1nat } else { 0nat }) + 2 * bits_value(bits.skip(1))
    }
}

/// `bitter::LittleEndianReader::new`: a reader over `data` that has handed
/// out nothing yet.
#[verifier::external_body]
pub(crate) fn new_reader<'a>(data: &'a [u8]) -> (reader: LittleEndianReader<'a>)
    ensures
        unread_bits(reader) == bits_of(data@),
{
    LittleEndianReader::new(data)
}

/// `bitter::BitReader::read_bits` on a little-endian reader: where `n` bits
/// are left it hands out the next `n` as a number, first bit weighing least,
/// and moves past them; where fewer are left it returns `None` and the reader
/// stays as it was.
#[verifier::external_body]
pub(crate) fn read_bits(reader: &mut LittleEndianReader<'_>, n: u32) -> (res: Option<u16>)
    requires
        1 <= n <= 16,
    ensures
        match res {
            Some(value) => {
                &&& n <= unread_bits(*old(reader)).len()
                &&& value == bits_value(unread_bits(*old(reader)).take(n as int))
                &&& unread_bits(*final(reader)) == unread_bits(*old(reader)).skip(n as int)
            },
            None => {
                &&& n > unread_bits(*old(reader)).len()
                &&& unread_bits(*final(reader)) == unread_bits(*old(reader))
            },
        },
{
    match reader.read_bits(n) {
        Some(v) => Some(v as u16),
        None => None,
    }
}

} // verus!
