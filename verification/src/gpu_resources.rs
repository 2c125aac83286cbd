//! Generation-stamped handles and the paged resource pool behind them.
//!
//! A handle is a 64-bit word holding three 16-bit fields: a page number, a
//! slot index within the page, and a version stamp.  The top 16 bits are
//! always zero.  A handle resolves only while the version stored in the slot
//! it names equals the version encoded in the handle, so a handle that has
//! been deleted keeps failing even after its slot is handed out again.

use vstd::prelude::*;

verus! {

/// Number of slots in one pool page.  Growth appends whole pages, so slots
/// never move and previously issued handles stay valid.
pub const PAGE_SIZE: usize = 10;

/// Highest page number that fits in the 16-bit page field.
pub const MAX_PAGE: usize = 0xFFFF;

/// Highest version stamp that fits in the 16-bit version field.  A slot that
/// reaches this version is retired instead of being reused, so a version
/// never wraps around.
pub const MAX_VERSION: u64 = 0xFFFF;

/// Page number encoded in a handle.
pub open spec fn page_of(h: u64) -> u64 {
    (h >> 32) & 0xFFFF
}

/// Slot index encoded in a handle.
pub open spec fn slot_of(h: u64) -> u64 {
    (h >> 16) & 0xFFFF
}

/// Version stamp encoded in a handle.
pub open spec fn version_of(h: u64) -> u64 {
    h & 0xFFFF
}

/// A handle never carries anything in its top 16 bits.
pub open spec fn canonical(h: u64) -> bool {
    h >> 48 == 0
}

/// The 64-bit word formed from a page number, a slot index and a version.
pub open spec fn encode_spec(page: u64, index: u64, version: u64) -> u64 {
    (page << 32) | (index << 16) | version
}

/// Packing three in-range fields and unpacking them again is the identity.
pub proof fn lemma_encode_decode(page: u64, index: u64, version: u64)
    requires
        page < 0x10000,
        index < 0x10000,
        version < 0x10000,
    ensures
        page_of(encode_spec(page, index, version)) == page,
        slot_of(encode_spec(page, index, version)) == index,
        version_of(encode_spec(page, index, version)) == version,
        canonical(encode_spec(page, index, version)),
{
    assert(((page << 32) | (index << 16) | version) >> 32 & 0xFFFF == page
        && ((page << 32) | (index << 16) | version) >> 16 & 0xFFFF == index
        && ((page << 32) | (index << 16) | version) & 0xFFFF == version
        && ((page << 32) | (index << 16) | version) >> 48 == 0) by (bit_vector)
        requires
            page < 0x10000,
            index < 0x10000,
            version < 0x10000,
    ;
}

/// The null sentinel `u64::MAX` carries set bits in its top 16 bits, so it
/// is not canonical and can never be issued or resolved by any pool.
pub proof fn lemma_null_word_not_canonical()
    ensures
        !canonical(u64::MAX),
{
    assert(0xFFFF_FFFF_FFFF_FFFFu64 >> 48 != 0) by (bit_vector);
}

/// A canonical handle is exactly the packing of its three fields, so two
/// canonical handles with equal fields are equal.
pub proof fn lemma_decode_encode(h: u64)
    requires
        canonical(h),
    ensures
        encode_spec(page_of(h), slot_of(h), version_of(h)) == h,
        page_of(h) < 0x10000,
        slot_of(h) < 0x10000,
        version_of(h) < 0x10000,
{
    assert((((h >> 32) & 0xFFFF) << 32) | (((h >> 16) & 0xFFFF) << 16) | (h & 0xFFFF) == h
        && (h >> 32) & 0xFFFF < 0x10000
        && (h >> 16) & 0xFFFF < 0x10000
        && h & 0xFFFF < 0x10000) by (bit_vector)
        requires
            h >> 48 == 0,
    ;
}

/// Packs a page number, a slot index and a version into one handle word.
pub(crate) fn encode(page: u64, index: u64, version: u64) -> (h: u64)
    requires
        page < 0x10000,
        index < 0x10000,
        version < 0x10000,
    ensures
        h == encode_spec(page, index, version),
        page_of(h) == page,
        slot_of(h) == index,
        version_of(h) == version,
        canonical(h),
{
    proof {
        lemma_encode_decode(page, index, version);
    }
    (page << 32) | (index << 16) | version
}

/// Unpacks a handle into its page number, slot index and version.
pub(crate) fn decode_as_usize(id: u64) -> (r: (usize, usize, u64))
    ensures
        r.0 == page_of(id),
        r.1 == slot_of(id),
        r.2 == version_of(id),
        r.0 < 0x10000,
        r.1 < 0x10000,
        r.2 < 0x10000,
{
    assert((id >> 32) & 0xFFFF < 0x10000 && (id >> 16) & 0xFFFF < 0x10000 && id & 0xFFFF < 0x10000)
        by (bit_vector);
    (((id >> 32) & 0xFFFF) as usize, ((id >> 16) & 0xFFFF) as usize, id & 0xFFFF)
}

/// Opaque identifier of a pooled buffer.
#[derive(Clone, Copy, Debug, PartialEq, Eq, Hash, Structural)]
pub struct BufferID {
    pub id: u64,
}

/// Opaque identifier of a pooled image.
#[derive(Clone, Copy, Debug, PartialEq, Eq, Hash, Structural)]
pub struct ImageID {
    pub id: u64,
}

/// Opaque identifier of a pooled sampler.
#[derive(Clone, Copy, Debug, PartialEq, Eq, Hash, Structural)]
pub struct SamplerID {
    pub id: u64,
}

/// Opaque identifier of a pooled image view.
#[derive(Clone, Copy, Debug, PartialEq, Eq, Hash, Structural)]
pub struct ImageViewID {
    pub id: u64,
}

impl BufferID {
    /// True of the identifier that names no buffer.
    pub open spec fn is_null(self) -> bool {
        self.id == u64::MAX
    }

    /// The identifier that names no buffer.
    pub fn null() -> (r: BufferID)
        ensures
            r.is_null(),
    {
        BufferID { id: u64::MAX }
    }
}

impl ImageID {
    /// True of the identifier that names no image.
    pub open spec fn is_null(self) -> bool {
        self.id == u64::MAX
    }

    /// The identifier that names no image.
    pub fn null() -> (r: ImageID)
        ensures
            r.is_null(),
    {
        ImageID { id: u64::MAX }
    }
}

impl SamplerID {
    /// True of the identifier that names no sampler.
    pub open spec fn is_null(self) -> bool {
        self.id == u64::MAX
    }

    /// The identifier that names no sampler.
    pub fn null() -> (r: SamplerID)
        ensures
            r.is_null(),
    {
        SamplerID { id: u64::MAX }
    }
}

impl ImageViewID {
    /// True of the identifier that names no image view.
    pub open spec fn is_null(self) -> bool {
        self.id == u64::MAX
    }

    /// The identifier that names no image view.
    pub fn null() -> (r: ImageViewID)
        ensures
            r.is_null(),
    {
        ImageViewID { id: u64::MAX }
    }
}

} // verus!
