//! What paging and packing mean for the numbers that are kept in bytes.

use crate::pages::{lanes_at, lanes_of, le_nat, packed, page_index, pow256, region};
use vstd::prelude::*;

verus! {

/// A table row is read whole from the one page that its byte offset names, and is the
/// row that the table holds, provided that a page is a whole number of rows.
pub proof fn a_row_is_read_whole(
    matrix: Seq<i32>,
    vocab: u32,
    token_id: u32,
    width: u32,
    page_size: u64,
)
    requires
        width > 0,
        matrix.len() == vocab * width,
        4 * matrix.len() <= u64::MAX,
        token_id < vocab,
        page_size > 0,
        page_size as int % (4 * width) == 0,
    ensures
        ({
            let off = token_id * width * 4;
            let table = region(packed(matrix), page_size);
            let page = page_index(off as u64, page_size) as int;
            &&& 0 <= off <= u64::MAX
            &&& page < table.pages.len()
            &&& lanes_at(table.pages[page], off as u64, width) == Ok::<Seq<i32>, Seq<char>>(
                matrix.subrange(token_id * width, (token_id + 1) * width),
            )
        }),
{
    let w = width as int;
    let t = token_id as int;
    let ps = page_size as int;
    let bytes = packed(matrix);
    let len = bytes.len() as int;
    let off = token_id * width * 4;
    assert(off == 4 * (t * w)) by (nonlinear_arith)
        requires
            off == t * w * 4,
    ;
    assert(0 <= t * w && t * w + w == (t + 1) * w && (t + 1) * w <= vocab * w) by (nonlinear_arith)
        requires
            0 <= t < vocab,
            w > 0,
    ;
    assert(off + 4 * w <= len);
    crate::pages::paging_keeps_every_byte(bytes, page_size, off as u64);
    let i = page_index(off as u64, page_size) as int;
    let page = region(bytes, page_size).pages[i];
    vstd::arithmetic::div_mod::lemma_fundamental_div_mod(off, ps);
    assert(i * ps == ps * i) by (nonlinear_arith);
    let stride = 4 * w;
    // The row starts a whole number of strides into its page, so it ends within it.
    let local = off - i * ps;
    let rows = ps / stride;
    vstd::arithmetic::div_mod::lemma_fundamental_div_mod(ps, stride);
    assert(local == (t - i * rows) * stride && ps == rows * stride) by (nonlinear_arith)
        requires
            local == off - i * ps,
            off == 4 * (t * w),
            ps == stride * rows,
            stride == 4 * w,
    ;
    assert(local + stride <= ps) by (nonlinear_arith)
        requires
            local == (t - i * rows) * stride,
            ps == rows * stride,
            0 <= local < ps,
            stride > 0,
    ;
    assert(page.bytes.len() >= local + stride);
    assert(page.bytes.subrange(local, local + stride) =~= bytes.subrange(
        4 * (t * w),
        4 * ((t + 1) * w),
    ));
    crate::pages::lanes_of_a_piece(matrix, t * w, (t + 1) * w);
}

/// Four bytes are one lane, least significant byte first, in two's complement.
pub proof fn lanes_are_little_endian(bytes: Seq<u8>, i: int)
    requires
        bytes.len() % 4 == 0,
        0 <= 4 * i < bytes.len(),
    ensures
        lanes_of(bytes) is Ok,
        ({
            let n = bytes[4 * i] + 256 * bytes[4 * i + 1] + 65536 * bytes[4 * i + 2] + 16777216
                * bytes[4 * i + 3];
            let lane = (lanes_of(bytes)->Ok_0)[i];
            &&& n < 0x8000_0000 ==> lane == n
            &&& n >= 0x8000_0000 ==> lane == n - 0x1_0000_0000
        }),
{
    reveal_with_fuel(le_nat, 5);
    reveal_with_fuel(pow256, 5);
    assert(pow256(4) == 0x1_0000_0000);
    let n = bytes[4 * i] + 256 * bytes[4 * i + 1] + 65536 * bytes[4 * i + 2] + 16777216
        * bytes[4 * i + 3];
    assert(le_nat(bytes, 4 * i, 4) == n);
}

/// A packed row takes four bytes a lane, and reads back as the row.
pub proof fn a_packed_row_reads_back(values: Seq<i32>)
    ensures
        packed(values).len() == 4 * values.len(),
        lanes_of(packed(values)) == Ok::<Seq<i32>, Seq<char>>(values),
{
    crate::pages::unpack_undoes_pack(values);
}

/// A region's pages follow each other: page `i` starts at `i` pages' bytes, every page
/// but the last is full, and the last ends where the region ends.
pub proof fn pages_tile_a_region(data: Seq<u8>, page_size: u64, i: int)
    requires
        page_size > 0,
        data.len() <= u64::MAX,
        0 <= i < region(data, page_size).pages.len(),
    ensures
        ({
            let r = region(data, page_size);
            let n = r.pages.len() as int;
            let start = i * page_size;
            &&& r.byte_len == data.len()
            &&& r.page_size == page_size
            &&& (n - 1) * page_size < data.len() <= n * page_size
            &&& r.pages[i].index == i
            &&& r.pages[i].offset == start
            &&& i < n - 1 ==> r.pages[i].bytes == data.subrange(start, start + page_size)
            &&& i == n - 1 ==> r.pages[i].bytes == data.subrange(start, data.len() as int)
        }),
{
    let p = page_size as int;
    let len = data.len() as int;
    let n = region(data, page_size).pages.len() as int;
    let k = (len + p - 1) / p;
    vstd::arithmetic::div_mod::lemma_fundamental_div_mod(len + p - 1, p);
    vstd::arithmetic::div_mod::lemma_mod_bound(len + p - 1, p);
    let q = k;
    assert(p * q == q * p && (q - 1) * p == q * p - p) by (nonlinear_arith);
    assert(q * p <= len + p - 1 < q * p + p);
    assert(q >= 0) by (nonlinear_arith)
        requires
            len + p - 1 < q * p + p,
            len >= 0,
            p > 0,
    ;
    assert(n == q);
    assert(0 <= i * p && (i < n - 1 ==> i * p + p <= (n - 1) * p) && i * p <= (n - 1) * p)
        by (nonlinear_arith)
        requires
            0 <= i < n,
            p > 0,
    ;
    assert(i <= i * p) by (nonlinear_arith)
        requires
            0 <= i,
            p >= 1,
    ;
    if i == n - 1 {
        assert(i * p == (n - 1) * p);
    }
}

} // verus!
