use vstd::prelude::*;

verus! {

/// The page that holds the byte at `position`, for pages of `page_size` bytes.
pub open spec fn page_no_of(position: nat, page_size: nat) -> nat
    recommends
        page_size > 0,
{
    position / page_size
}

/// Where the byte at `position` stands inside its page.
pub open spec fn offset_in_page_of(position: nat, page_size: nat) -> nat
    recommends
        page_size > 0,
{
    position % page_size
}

/// Number of the page that holds the byte at `page_blob_position`.
pub fn get_page_no_from_page_blob_position(page_blob_position: usize, page_size: usize) -> (r:
    usize)
    requires
        page_size > 0,
    ensures
        r == page_no_of(page_blob_position as nat, page_size as nat),
{
    page_blob_position / page_size
}

/// Offset of the byte at `page_blob_position` from the start of its page.
pub fn get_position_within_page(page_blob_position: usize, page_size: usize) -> (r: usize)
    requires
        page_size > 0,
    ensures
        r == offset_in_page_of(page_blob_position as nat, page_size as nat),
        r < page_size,
{
    let page_no = get_page_no_from_page_blob_position(page_blob_position, page_size);
    proof {
        lemma_position_splits(page_blob_position as nat, page_size as nat);
    }
    page_blob_position - page_no * page_size
}

/// A position is its page's start plus its offset in that page, and the offset
/// is less than the page size.
pub proof fn lemma_position_splits(position: nat, page_size: nat)
    requires
        page_size > 0,
    ensures
        page_no_of(position, page_size) * page_size + offset_in_page_of(position, page_size)
            == position,
        offset_in_page_of(position, page_size) < page_size,
{
    vstd::arithmetic::div_mod::lemma_fundamental_div_mod(position as int, page_size as int);
    vstd::arithmetic::mul::lemma_mul_is_commutative(
        (position / page_size) as int,
        page_size as int,
    );
}

} // verus!
