//! The binary fuse filter of the `xorf` crate, as far as this library relies
//! on it. Nothing in this file is proved: each item states what the crate's
//! source shows of the function it names.

use vstd::prelude::*;

verus! {

/// The filter type of `xorf`: a descriptor of four integers and a table of
/// 32-bit slots.
#[verifier::external_type_specification]
#[verifier::external_body]
pub struct ExBinaryFuse32(xorf::BinaryFuse32);

/// How a table of slots is cut into segments, and the seed by which keys are
/// hashed into it.
#[derive(Clone, Copy, Debug, PartialEq, Eq, Structural)]
pub struct Layout {
    pub seed: u64,
    pub segment_length: u32,
    pub segment_length_mask: u32,
    pub segment_count_length: u32,
}

/// Most keys that one filter is built from. `xorf` makes the table nine
/// eighths as long as the list, rounded up to whole segments of 262144
/// slots, and computes that length in 32 bits: for this many keys it is
/// 16383 segments, the most that fit, and for one more it is 16384.
pub const MAX_KEYS: usize = 3_817_515_691;

/// The slot table of a filter (its field `fingerprints`).
pub uninterp spec fn fuse_table(f: xorf::BinaryFuse32) -> Seq<u32>;

/// The descriptor of a filter (its field `descriptor`).
pub uninterp spec fn fuse_layout(f: xorf::BinaryFuse32) -> Layout;

/// What `Filter::contains` answers for `key` on a filter with this layout
/// and table: whether the three slots that the key hashes to, combined by
/// exclusive or, give the key's 32-bit check value.
pub uninterp spec fn fuse_matches(layout: Layout, table: Seq<u32>, key: u64) -> bool;

/// Whether `n` is a power of two.
pub open spec fn is_power_of_two(n: nat) -> bool
    decreases n,
{
    n == 1 || (n > 1 && n % 2 == 0 && is_power_of_two(n / 2))
}

/// Whether a table of `slots` slots can be read under `layout` without
/// leaving it: the segment length is a power of two, the mask is one less,
/// the segments that a key's first slot falls in are whole and at least one,
/// and two more segments follow them.
pub open spec fn layout_fits(layout: Layout, slots: nat) -> bool {
    &&& is_power_of_two(layout.segment_length as nat)
    &&& layout.segment_length_mask == layout.segment_length - 1
    &&& layout.segment_count_length > 0
    &&& layout.segment_count_length % layout.segment_length == 0
    &&& layout.segment_count_length + 2 * layout.segment_length <= slots
    &&& layout.segment_count_length + 2 * layout.segment_length <= u32::MAX
}

/// `Filter::contains` of `BinaryFuse32`: a function of descriptor, table and
/// key. It reads the table at three places, all below
/// `segment_count_length + 2 * segment_length` on a layout that fits.
#[verifier::external_body]
pub(crate) fn fuse_contains(f: &xorf::BinaryFuse32, key: u64) -> (r: bool)
    requires
        layout_fits(fuse_layout(*f), fuse_table(*f).len()),
    ensures
        r == fuse_matches(fuse_layout(*f), fuse_table(*f), key),
{
    xorf::Filter::contains(f, &key)
}

/// `Filter::len` of `BinaryFuse32`: the number of slots in the table.
#[verifier::external_body]
pub(crate) fn fuse_len(f: &xorf::BinaryFuse32) -> (r: usize)
    ensures
        r == fuse_table(*f).len(),
{
    xorf::Filter::len(f)
}

/// Reads the four fields of a filter's descriptor.
#[verifier::external_body]
pub(crate) fn fuse_layout_of(f: &xorf::BinaryFuse32) -> (r: Layout)
    ensures
        r == fuse_layout(*f),
{
    Layout {
        seed: f.descriptor.seed,
        segment_length: f.descriptor.segment_length,
        segment_length_mask: f.descriptor.segment_length_mask,
        segment_count_length: f.descriptor.segment_count_length,
    }
}

/// Reads one slot of a filter's table.
#[verifier::external_body]
pub(crate) fn fuse_slot(f: &xorf::BinaryFuse32, i: usize) -> (r: u32)
    requires
        i < fuse_table(*f).len(),
    ensures
        r == fuse_table(*f)[i as int],
{
    f.fingerprints[i]
}

/// Makes a filter of `xorf` out of a descriptor and a table.
#[verifier::external_body]
pub(crate) fn fuse_from_parts(layout: Layout, table: Vec<u32>) -> (r: xorf::BinaryFuse32)
    ensures
        fuse_layout(r) == layout,
        fuse_table(r) == table@,
{
    xorf::BinaryFuse32 {
        descriptor: xorf::Descriptor {
            seed: layout.seed,
            segment_length: layout.segment_length,
            segment_length_mask: layout.segment_length_mask,
            segment_count_length: layout.segment_count_length,
        },
        fingerprints: table.into_boxed_slice(),
    }
}

} // verus!
