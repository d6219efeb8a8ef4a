//! Sizes and layouts for allocations that carry their own length: every
//! block starts with a header that records the size of the payload behind it.

use vstd::prelude::*;

verus! {

/// The alignment of every block.
pub const DEFAULT_ALIGN: usize = 16;

/// The size and the alignment of a block of memory.
#[derive(Clone, Copy, Debug, PartialEq, Eq, Structural)]
pub struct PayloadLayout {
    /// The number of bytes in the block.
    pub size: usize,
    /// The alignment of the block, a power of two.
    pub align: usize,
}

/// The number of bytes in the header of a block: the size of a `usize`.
pub open spec fn spec_header_size() -> nat {
    vstd::layout::size_of::<usize>()
}

/// `size` rounded up to the next multiple of `align`.
pub open spec fn rounded_up(size: int, align: int) -> int {
    (size + align - 1) / align * align
}

/// Whether a block of `size` bytes at the default alignment can be laid
/// out: rounded up to the alignment, its size does not exceed `isize::MAX`.
pub open spec fn fits(size: int) -> bool {
    rounded_up(size, DEFAULT_ALIGN as int) <= isize::MAX
}

/// The payload size that an allocation of `nmemb` items of `size` bytes
/// asks for: their product, and one byte where the product is zero or does
/// not fit a `usize`.
pub open spec fn zeroed_payload(nmemb: usize, size: usize) -> usize {
    if 0 < nmemb * size <= usize::MAX {
        (nmemb * size) as usize
    } else {
        1
    }
}

/// The payload size that a reallocation to `size` bytes asks for: at least one byte.
pub open spec fn resized_payload(size: usize) -> usize {
    if size == 0 {
        1
    } else {
        size
    }
}

/// The number of bytes in the header of a block.
pub fn header_size() -> (bytes: usize)
    ensures
        bytes == spec_header_size(),
        bytes == 4 || bytes == 8,
{
    core::mem::size_of::<usize>()
}

/// The layout of a block that holds a header and `size` bytes of payload,
/// or `None` when the two do not fit a `usize` or the block cannot be laid out.
pub fn layout_for_payload(size: usize) -> (layout: Option<PayloadLayout>)
    ensures
        layout is Some <==> fits(size + spec_header_size()),
        layout matches Some(l) ==> l.size == size + spec_header_size() && l.align
            == DEFAULT_ALIGN,
{
    let header = header_size();
    proof {
        lemma_fits(size + header);
    }
    match size.checked_add(header) {
        None => None,
        Some(total) => {
            if total > isize::MAX as usize - (DEFAULT_ALIGN - 1) {
                None
            } else {
                Some(PayloadLayout { size: total, align: DEFAULT_ALIGN })
            }
        },
    }
}

/// A size can be laid out exactly when it leaves room below `isize::MAX`
/// for rounding up.
pub proof fn lemma_fits(size: int)
    requires
        size >= 0,
    ensures
        fits(size) <==> size <= isize::MAX - (DEFAULT_ALIGN - 1),
{
    let top = isize::MAX as int;
    assert(top == 0x7fff_ffff || top == 0x7fff_ffff_ffff_ffff) by {
        assert(isize::BITS == 32 || isize::BITS == 64);
    }
    assert(rounded_up(size, 16) <= top <==> size <= top - 15) by (nonlinear_arith)
        requires
            size >= 0,
            top == 0x7fff_ffff || top == 0x7fff_ffff_ffff_ffff,
    ;
}

/// The payload size that an allocation of `nmemb` zeroed items of `size`
/// bytes asks for.
pub fn calloc_payload(nmemb: usize, size: usize) -> (payload: usize)
    ensures
        payload == zeroed_payload(nmemb, size),
        payload > 0,
{
    match nmemb.checked_mul(size) {
        Some(bytes) => if bytes > 0 {
            bytes
        } else {
            1
        },
        None => 1,
    }
}

/// The payload size that a reallocation to `size` bytes asks for.
pub fn realloc_payload(size: usize) -> (payload: usize)
    ensures
        payload == resized_payload(size),
        payload > 0,
{
    if size == 0 {
        1
    } else {
        size
    }
}

/// The number of bytes at the end of a block that grew from `old_size` to
/// `new_size` bytes that are new, and have to be cleared: none when it shrank.
pub fn grown_tail(old_size: usize, new_size: usize) -> (extra: usize)
    ensures
        extra == if new_size > old_size {
            new_size - old_size
        } else {
            0
        },
{
    if new_size > old_size {
        new_size - old_size
    } else {
        0
    }
}

} // verus!
