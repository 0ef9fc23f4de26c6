//! The layer's matrix-vector products.

use crate::lists::views;
use crate::matvec::Rounding;
use crate::packed::{PackedView, ProjAccum};
use crate::pages::{BytesPage, PageView};
use vstd::prelude::*;

verus! {

/// The accumulator after one page.
pub open spec fn after_page(
    state: PackedView,
    page: PageView,
    row: PageView,
    in_width: u32,
) -> PackedView {
    crate::matvec::after_page(Rounding::NearestEven, state, page, row, in_width)
}

/// The product of a paged matrix with a packed row.
pub open spec fn matvec_spec(
    pages: Seq<PageView>,
    row: PageView,
    in_width: u32,
    out_len: u32,
) -> PackedView {
    crate::matvec::matvec_spec(Rounding::NearestEven, pages, row, in_width, out_len)
}

/// Folds one weight page into the output accumulator.
pub fn mac_weight_page(page: &BytesPage, state: ProjAccum, row: &BytesPage, in_width: u32) -> (r:
    ProjAccum)
    ensures
        r@ == after_page(state@, page@, row@, in_width),
{
    crate::matvec::mac_weight_page(Rounding::NearestEven, page, state, row, in_width)
}

/// The product of a paged matrix with a packed row: a sweep over the pages.
pub fn matvec(pages: &Vec<BytesPage>, row: &BytesPage, in_width: u32, out_len: u32) -> (r:
    ProjAccum)
    ensures
        r@ == matvec_spec(views(pages@), row@, in_width, out_len),
{
    crate::matvec::matvec(Rounding::NearestEven, pages, row, in_width, out_len)
}

} // verus!
