//! What holds of the format on every input.

use super::grammar::{logical_screen_descriptor_of, spec_logical_screen_descriptor};
use super::types::LogicalScreenDescriptor;
use vstd::prelude::*;

verus! {

/// The packed byte of a logical screen descriptor: from the top bit down,
/// the table flag, three bits of colour resolution, the sort flag, three
/// bits of table size.
pub open spec fn logical_screen_packed_byte(descriptor: LogicalScreenDescriptor) -> u8 {
    ((if descriptor.global_color_table_flag {
        128int
    } else {
        0int
    }) + 16 * descriptor.color_resolution + (if descriptor.sort_flag {
        8int
    } else {
        0int
    }) + descriptor.global_color_table_size) as u8
}

/// The seven bytes that a logical screen descriptor is written as.
pub open spec fn logical_screen_descriptor_bytes(descriptor: LogicalScreenDescriptor) -> Seq<u8> {
    seq![
        (descriptor.canvas_width % 256) as u8,
        (descriptor.canvas_width / 256) as u8,
        (descriptor.canvas_height % 256) as u8,
        (descriptor.canvas_height / 256) as u8,
        logical_screen_packed_byte(descriptor),
        descriptor.background_color_index,
        descriptor.pixel_aspect_ratio,
    ]
}

/// Reading a logical screen descriptor and writing it again gives back the
/// seven bytes that were read.
pub proof fn lemma_logical_screen_descriptor_round_trip(s: Seq<u8>)
    requires
        s.len() >= 7,
    ensures
        spec_logical_screen_descriptor(s) matches Ok((descriptor, taken)) && taken == 7
            && descriptor.wf() && logical_screen_descriptor_bytes(descriptor) == s.take(7),
{
    let descriptor = logical_screen_descriptor_of(s);
    assert(logical_screen_packed_byte(descriptor) == s[4]);
    assert(logical_screen_descriptor_bytes(descriptor) =~= s.take(7));
}

/// Writing a logical screen descriptor whose three-bit fields hold three
/// bits, and reading it again, gives back the descriptor.
pub proof fn lemma_logical_screen_descriptor_read_back(descriptor: LogicalScreenDescriptor)
    requires
        descriptor.wf(),
    ensures
        spec_logical_screen_descriptor(logical_screen_descriptor_bytes(descriptor)) == Ok::<
            (LogicalScreenDescriptor, nat),
            super::errors::ParseErrorView,
        >((descriptor, 7)),
{
    let s = logical_screen_descriptor_bytes(descriptor);
    let read = logical_screen_descriptor_of(s);
    assert(read.canvas_width == descriptor.canvas_width);
    assert(read.canvas_height == descriptor.canvas_height);
    assert(read == descriptor);
}

} // verus!
