//! Byte pages and paged byte regions.
//!
//! A weight matrix or table is a byte region cut into pages of one size, and
//! a computed vector is a page of its own. Lanes are stored little-endian,
//! `i32` for Q16.16 values and `i64` for accumulators.

use crate::lists::views;
use crate::text::{dec, decimal, outcome};
use vstd::prelude::*;

verus! {

/// Page size of every region in the chain: a multiple of every row width the
/// chain is imported with.
pub const PAGE_SIZE: u64 = 196608;

/// One page: its index and byte offset within its region, and its bytes.
pub struct BytesPage {
    pub index: u64,
    pub offset: u64,
    pub bytes: Vec<u8>,
}

/// A page as a mathematical value.
#[verifier::ext_equal]
pub struct PageView {
    pub index: u64,
    pub offset: u64,
    pub bytes: Seq<u8>,
}

impl View for BytesPage {
    type V = PageView;

    open spec fn view(&self) -> PageView {
        PageView { index: self.index, offset: self.offset, bytes: self.bytes@ }
    }
}

/// A byte region cut into pages.
pub struct Bytes {
    pub pages: Vec<BytesPage>,
    pub byte_len: u64,
    pub page_size: u64,
}

/// A region as a mathematical value.
#[verifier::ext_equal]
pub struct RegionView {
    pub pages: Seq<PageView>,
    pub byte_len: u64,
    pub page_size: u64,
}

impl View for Bytes {
    type V = RegionView;

    open spec fn view(&self) -> RegionView {
        RegionView {
            pages: views(self.pages@),
            byte_len: self.byte_len,
            page_size: self.page_size,
        }
    }
}

/// A computed vector's page: index and offset zero.
pub open spec fn standalone(bytes: Seq<u8>) -> PageView {
    PageView { index: 0, offset: 0, bytes }
}

/// How many pages of `page_size` bytes hold `len` bytes.
pub open spec fn page_count(len: int, page_size: int) -> int {
    (len + page_size - 1) / page_size
}

/// Page `i` of a region.
pub open spec fn region_page(data: Seq<u8>, page_size: int, i: int) -> PageView {
    let start = i * page_size;
    let end = if start + page_size < data.len() {
        start + page_size
    } else {
        data.len() as int
    };
    PageView { index: i as u64, offset: start as u64, bytes: data.subrange(start, end) }
}

/// A region's bytes cut into pages: all full but perhaps the last.
pub open spec fn region_pages(data: Seq<u8>, page_size: int) -> Seq<PageView> {
    Seq::new(page_count(data.len() as int, page_size) as nat, |i: int| region_page(data, page_size, i))
}

/// The region that holds `data` in pages of `page_size` bytes.
pub open spec fn region(data: Seq<u8>, page_size: u64) -> RegionView {
    RegionView {
        pages: region_pages(data, page_size as int),
        byte_len: data.len() as u64,
        page_size,
    }
}

/// Byte `k` of the two's-complement representation of `v`, least significant
/// first, in `width` bytes.
pub open spec fn le_byte(v: int, width: nat, k: int) -> u8 {
    ((v % pow256(width)) / pow256(k as nat) % 256) as u8
}

/// Powers of 256.
pub open spec fn pow256(n: nat) -> int
    decreases n,
{
    if n == 0 {
        1
    } else {
        256 * pow256((n - 1) as nat)
    }
}

/// The unsigned number whose little-endian bytes start at `at`.
pub open spec fn le_nat(bytes: Seq<u8>, at: int, width: nat) -> int
    decreases width,
{
    if width == 0 {
        0
    } else {
        bytes[at] + 256 * le_nat(bytes, at + 1, (width - 1) as nat)
    }
}

/// The signed number whose little-endian bytes start at `at`.
pub open spec fn le_int(bytes: Seq<u8>, at: int, width: nat) -> int {
    let u = le_nat(bytes, at, width);
    if 2 * u >= pow256(width) {
        u - pow256(width)
    } else {
        u
    }
}

/// Q16.16 lanes as little-endian bytes.
pub open spec fn packed(values: Seq<i32>) -> Seq<u8> {
    Seq::new(4 * values.len(), |i: int| le_byte(values[i / 4] as int, 4, i % 4))
}

/// Accumulator lanes as little-endian bytes.
pub open spec fn packed_wide(values: Seq<i64>) -> Seq<u8> {
    Seq::new(8 * values.len(), |i: int| le_byte(values[i / 8] as int, 8, i % 8))
}

/// Little-endian bytes as Q16.16 lanes; a trailing partial lane is dropped.
pub open spec fn unpacked(bytes: Seq<u8>) -> Seq<i32> {
    Seq::new(bytes.len() / 4, |i: int| le_int(bytes, 4 * i, 4) as i32)
}

/// Little-endian bytes as accumulator lanes.
pub open spec fn unpacked_wide(bytes: Seq<u8>) -> Seq<i64> {
    Seq::new(bytes.len() / 8, |i: int| le_int(bytes, 8 * i, 8) as i64)
}

/// The lanes of a page, or why it has none.
pub open spec fn lanes_of(bytes: Seq<u8>) -> Result<Seq<i32>, Seq<char>> {
    if bytes.len() % 4 != 0 {
        Err("page length "@ + dec(bytes.len()) + " is not i32-aligned"@)
    } else {
        Ok(unpacked(bytes))
    }
}

/// The accumulator lanes of a page, or why it has none.
pub open spec fn wide_lanes_of(bytes: Seq<u8>) -> Result<Seq<i64>, Seq<char>> {
    if bytes.len() % 8 != 0 {
        Err("page length "@ + dec(bytes.len()) + " is not i64-aligned"@)
    } else {
        Ok(unpacked_wide(bytes))
    }
}

/// The row of `n` lanes at region byte `byte_off`, read from one page, or why
/// the page does not hold it.
pub open spec fn lanes_at(page: PageView, byte_off: u64, n: u32) -> Result<Seq<i32>, Seq<char>> {
    let local = byte_off - page.offset;
    if local < 0 {
        Err("row offset is before this page"@)
    } else if local + 4 * n > page.bytes.len() {
        Err(
            "row at byte "@ + dec(byte_off as nat) + " spans past this page (local "@ + dec(
                local as nat,
            ) + ", need "@ + dec((4 * n) as nat) + ", have "@ + dec(page.bytes.len()) + ")"@,
        )
    } else {
        Ok(unpacked(page.bytes.subrange(local, local + 4 * n)))
    }
}

/// The page that holds a byte of a region.
pub open spec fn page_index(byte_offset: u64, page_size: u64) -> u64 {
    if page_size == 0 {
        0
    } else {
        byte_offset / page_size
    }
}

proof fn lemma_pow256()
    ensures
        pow256(0) == 1,
        pow256(1) == 0x100,
        pow256(2) == 0x1_0000,
        pow256(3) == 0x100_0000,
        pow256(4) == 0x1_0000_0000,
        pow256(5) == 0x100_0000_0000,
        pow256(6) == 0x1_0000_0000_0000,
        pow256(7) == 0x100_0000_0000_0000,
        pow256(8) == 0x1_0000_0000_0000_0000,
{
    reveal_with_fuel(pow256, 9);
}

impl BytesPage {
    /// Byte offset of this page within its region.
    pub fn offset(&self) -> (r: u64)
        ensures
            r == self@.offset,
    {
        self.offset
    }

    /// The page's bytes.
    pub fn as_slice(&self) -> (r: &[u8])
        ensures
            r@ == self@.bytes,
    {
        self.bytes.as_slice()
    }

    /// How many bytes the page holds.
    pub fn len(&self) -> (r: usize)
        ensures
            r == self@.bytes.len(),
    {
        self.bytes.len()
    }

    /// Another page with the same contents.
    pub fn copy(&self) -> (r: BytesPage)
        ensures
            r@ == self@,
    {
        BytesPage { index: self.index, offset: self.offset, bytes: self.bytes.clone() }
    }
}

impl Clone for BytesPage {
    fn clone(&self) -> (r: BytesPage)
        ensures
            r@ == self@,
    {
        self.copy()
    }
}

/// Packs Q16.16 lanes into a page of their own.
pub fn pack_i32s(values: &[i32]) -> (page: BytesPage)
    ensures
        page@ == standalone(packed(values@)),
{
    let mut bytes: Vec<u8> = Vec::new();
    let mut i: usize = 0;
    while i < values.len()
        invariant
            i <= values.len(),
            bytes@.len() == 4 * i,
            forall|j: int| 0 <= j < bytes@.len() ==> bytes@[j] == le_byte(values@[j / 4] as int, 4, j % 4),
        decreases values.len() - i,
    {
        let v: i32 = values[i];
        let u: u64 = if v < 0 {
            (v as i64 + 0x1_0000_0000) as u64
        } else {
            v as u64
        };
        proof {
            lemma_pow256();
        }
        bytes.push((u % 256) as u8);
        bytes.push((u / 0x100 % 256) as u8);
        bytes.push((u / 0x1_0000 % 256) as u8);
        bytes.push((u / 0x100_0000 % 256) as u8);
        i += 1;
    }
    assert(bytes@ =~= packed(values@));
    BytesPage { index: 0, offset: 0, bytes }
}

/// Packs accumulators into a page of their own.
pub fn pack_i64s(values: &[i64]) -> (page: BytesPage)
    ensures
        page@ == standalone(packed_wide(values@)),
{
    let mut bytes: Vec<u8> = Vec::new();
    let mut i: usize = 0;
    while i < values.len()
        invariant
            i <= values.len(),
            bytes@.len() == 8 * i,
            forall|j: int| 0 <= j < bytes@.len() ==> bytes@[j] == le_byte(values@[j / 8] as int, 8, j % 8),
        decreases values.len() - i,
    {
        let v: i64 = values[i];
        let u: u64 = if v < 0 {
            (v as i128 + 0x1_0000_0000_0000_0000) as u64
        } else {
            v as u64
        };
        proof {
            lemma_pow256();
        }
        bytes.push((u % 256) as u8);
        bytes.push((u / 0x100 % 256) as u8);
        bytes.push((u / 0x1_0000 % 256) as u8);
        bytes.push((u / 0x100_0000 % 256) as u8);
        bytes.push((u / 0x1_0000_0000 % 256) as u8);
        bytes.push((u / 0x100_0000_0000 % 256) as u8);
        bytes.push((u / 0x1_0000_0000_0000 % 256) as u8);
        bytes.push((u / 0x100_0000_0000_0000 % 256) as u8);
        i += 1;
    }
    assert(bytes@ =~= packed_wide(values@));
    BytesPage { index: 0, offset: 0, bytes }
}

/// The signed lane whose bytes start at `at`.
fn read_i32(bytes: &[u8], at: usize) -> (v: i32)
    requires
        at + 4 <= bytes@.len(),
    ensures
        v == le_int(bytes@, at as int, 4),
{
    proof {
        lemma_pow256();
        reveal_with_fuel(le_nat, 5);
    }
    let u: u64 = bytes[at] as u64 + 256 * (bytes[at + 1] as u64 + 256 * (bytes[at + 2] as u64 + 256 * (
    bytes[at + 3] as u64)));
    if u >= 0x8000_0000 {
        (u as i64 - 0x1_0000_0000) as i32
    } else {
        u as i32
    }
}

/// The signed accumulator whose bytes start at `at`.
fn read_i64(bytes: &[u8], at: usize) -> (v: i64)
    requires
        at + 8 <= bytes@.len(),
    ensures
        v == le_int(bytes@, at as int, 8),
{
    proof {
        lemma_pow256();
        reveal_with_fuel(le_nat, 9);
    }
    let low: u64 = bytes[at] as u64 + 256 * (bytes[at + 1] as u64 + 256 * (bytes[at + 2] as u64 + 256
        * (bytes[at + 3] as u64)));
    let high: u64 = bytes[at + 4] as u64 + 256 * (bytes[at + 5] as u64 + 256 * (bytes[at + 6] as u64
        + 256 * (bytes[at + 7] as u64)));
    let u: u64 = low + 0x1_0000_0000 * high;
    if u >= 0x8000_0000_0000_0000 {
        (u as i128 - 0x1_0000_0000_0000_0000) as i64
    } else {
        u as i64
    }
}

fn read_lanes(bytes: &[u8]) -> (lanes: Vec<i32>)
    requires
        bytes@.len() % 4 == 0,
    ensures
        lanes@ == unpacked(bytes@),
{
    let mut lanes: Vec<i32> = Vec::new();
    let mut at: usize = 0;
    while at < bytes.len()
        invariant
            at <= bytes.len(),
            bytes@.len() % 4 == 0,
            at == 4 * lanes@.len(),
            forall|j: int| 0 <= j < lanes@.len() ==> lanes@[j] == le_int(bytes@, 4 * j, 4),
        decreases bytes.len() - at,
    {
        lanes.push(read_i32(bytes, at));
        at += 4;
    }
    assert(lanes@ =~= unpacked(bytes@));
    lanes
}

/// The Q16.16 lanes of a page. A page that is not a whole number of lanes is
/// an error.
pub fn unpack_i32s(page: &BytesPage) -> (r: Result<Vec<i32>, String>)
    ensures
        outcome(r, lanes_of(page@.bytes)),
{
    let bytes: &[u8] = page.as_slice();
    if bytes.len() % 4 != 0 {
        return Err(
            String::from_str("page length ").concat(decimal(bytes.len() as u64).as_str()).concat(
                " is not i32-aligned",
            ),
        );
    }
    Ok(read_lanes(bytes))
}

/// The accumulators of a page. A page that is not a whole number of them is
/// an error.
pub fn unpack_i64s(page: &BytesPage) -> (r: Result<Vec<i64>, String>)
    ensures
        outcome(r, wide_lanes_of(page@.bytes)),
{
    let bytes: &[u8] = page.as_slice();
    if bytes.len() % 8 != 0 {
        return Err(
            String::from_str("page length ").concat(decimal(bytes.len() as u64).as_str()).concat(
                " is not i64-aligned",
            ),
        );
    }
    let mut lanes: Vec<i64> = Vec::new();
    let mut at: usize = 0;
    while at < bytes.len()
        invariant
            at <= bytes.len(),
            bytes@.len() % 8 == 0,
            at == 8 * lanes@.len(),
            forall|j: int| 0 <= j < lanes@.len() ==> lanes@[j] == le_int(bytes@, 8 * j, 8),
        decreases bytes.len() - at,
    {
        lanes.push(read_i64(bytes, at));
        at += 8;
    }
    assert(lanes@ =~= unpacked_wide(bytes@));
    Ok(lanes)
}

/// Reads `n_values` lanes starting at region byte `byte_off` inside `page`.
pub fn unpack_i32s_at(page: &BytesPage, byte_off: u64, n_values: u32) -> (r: Result<
    Vec<i32>,
    String,
>)
    ensures
        outcome(r, lanes_at(page@, byte_off, n_values)),
{
    if byte_off < page.offset() {
        return Err(String::from_str("row offset is before this page"));
    }
    let local: u64 = byte_off - page.offset();
    let need: u64 = n_values as u64 * 4;
    let have: u64 = page.len() as u64;
    if local > have || need > have - local {
        return Err(
            String::from_str("row at byte ").concat(decimal(byte_off).as_str()).concat(
                " spans past this page (local ",
            ).concat(decimal(local).as_str()).concat(", need ").concat(
                decimal(need).as_str(),
            ).concat(", have ").concat(decimal(have).as_str()).concat(")"),
        );
    }
    let bytes: &[u8] = page.as_slice();
    Ok(read_lanes(&bytes[local as usize..(local + need) as usize]))
}

/// Page index containing a byte offset.
pub fn page_of(byte_offset: u64, page_size: u64) -> (r: u64)
    ensures
        r == page_index(byte_offset, page_size),
{
    if page_size == 0 {
        0
    } else {
        byte_offset / page_size
    }
}

/// A page of a region, by its index.
pub fn page_at(values: &Bytes, page_idx: u64) -> (page: BytesPage)
    requires
        page_idx < values@.pages.len(),
    ensures
        page@ == values@.pages[page_idx as int],
{
    assert(page_idx < values.pages.len());
    values.pages[page_idx as usize].copy()
}

proof fn lemma_page_count_end(len: int, page_size: int, i: int)
    requires
        page_size > 0,
        len >= 0,
        i >= 0,
        i * page_size < len,
    ensures
        i < page_count(len, page_size),
{
    assert(i < (len + page_size - 1) / page_size) by (nonlinear_arith)
        requires
            page_size > 0,
            i * page_size < len,
    ;
}

impl Bytes {
    /// Cuts `data` into pages of `page_size` bytes.
    pub fn paged(data: &[u8], page_size: u64) -> (r: Bytes)
        requires
            page_size > 0,
        ensures
            r@ == region(data@, page_size),
    {
        let len: usize = data.len();
        let ghost p = page_size as int;
        let mut pages: Vec<BytesPage> = Vec::new();
        let mut start: usize = 0;
        let mut done: bool = len == 0;
        proof {
            lemma_page_count_empty(p);
            if len > 0 {
                lemma_page_count_end(len as int, p, 0);
            }
        }
        while !done
            invariant
                page_size > 0,
                p == page_size,
                len == data@.len(),
                done ==> pages@.len() == page_count(len as int, p),
                !done ==> pages@.len() * p == start && start < len,
                forall|j: int|
                    0 <= j < pages@.len() ==> (#[trigger] pages@[j])@ == region_page(data@, p, j),
            decreases
                (if done {
                    0int
                } else {
                    1int
                }),
                len - start,
        {
            let end: usize = if page_size < (len - start) as u64 {
                start + page_size as usize
            } else {
                len
            };
            let ghost i = pages@.len() as int;
            let page: BytesPage = BytesPage {
                index: pages.len() as u64,
                offset: start as u64,
                bytes: vstd::slice::slice_to_vec(&data[start..end]),
            };
            assert(page@ =~= region_page(data@, p, i));
            pages.push(page);
            if end == len {
                assert(i + 1 == (len as int + p - 1) / p) by (nonlinear_arith)
                    requires
                        p > 0,
                        i * p == start,
                        start < len,
                        len - start <= p,
                ;
                done = true;
            } else {
                assert((i + 1) * p == i * p + p) by (nonlinear_arith);
                start = end;
            }
        }
        assert(views(pages@) =~= region_pages(data@, p));
        Bytes { pages, byte_len: len as u64, page_size }
    }
}

proof fn lemma_page_count_empty(page_size: int)
    requires
        page_size > 0,
    ensures
        page_count(0, page_size) == 0,
{
    vstd::arithmetic::div_mod::lemma_basic_div(page_size - 1, page_size);
}

/// Cutting a region into pages loses no byte and repeats none: byte `b` of the
/// region is found on page `page_index(b, page_size)`, at its distance from that
/// page's offset.
pub proof fn paging_keeps_every_byte(data: Seq<u8>, page_size: u64, b: u64)
    requires
        page_size > 0,
        data.len() <= u64::MAX,
        b < data.len(),
    ensures
        ({
            let pages = region(data, page_size).pages;
            let i = page_index(b, page_size) as int;
            &&& 0 <= i < pages.len()
            &&& pages[i].offset <= b < pages[i].offset + pages[i].bytes.len()
            &&& pages[i].bytes[b - pages[i].offset] == data[b as int]
        }),
{
    let p = page_size as int;
    let i = page_index(b, page_size) as int;
    vstd::arithmetic::div_mod::lemma_fundamental_div_mod(b as int, p);
    assert(i * p == p * i) by (nonlinear_arith);
    lemma_page_count_end(data.len() as int, p, i);
    assert(0 <= i * p <= b && b < i * p + p);
}

/// Packing lanes and reading them back gives the lanes.
pub proof fn unpack_undoes_pack(values: Seq<i32>)
    ensures
        lanes_of(packed(values)) == Ok::<Seq<i32>, Seq<char>>(values),
{
    let bytes = packed(values);
    assert forall|i: int| 0 <= i < values.len() implies #[trigger] unpacked(bytes)[i] == values[i] by {
        lemma_packed_lane(values, i);
    }
    assert(unpacked(bytes) =~= values);
}

proof fn lemma_packed_lane(values: Seq<i32>, i: int)
    requires
        0 <= i < values.len(),
    ensures
        le_int(packed(values), 4 * i, 4) == values[i],
{
    let bytes = packed(values);
    lemma_pow256();
    let u = values[i] as int % 0x1_0000_0000;
    assert forall|k: int| 0 <= k < 4 implies #[trigger] bytes[4 * i + k] == u / pow256(k as nat) % 256 by {
        assert((4 * i + k) / 4 == i && (4 * i + k) % 4 == k);
    }
    assert(bytes[4 * i + 0] == u % 256);
    assert(bytes[4 * i + 1] == u / 0x100 % 256);
    assert(bytes[4 * i + 2] == u / 0x1_0000 % 256);
    assert(bytes[4 * i + 3] == u / 0x100_0000 % 256);
    lemma_four_bytes(u);
    assert(le_nat(bytes, 4 * i, 4) == u) by {
        reveal_with_fuel(le_nat, 5);
    }
}

/// The lanes of a lane-aligned piece of a packed row are that piece of the row.
pub proof fn lanes_of_a_piece(values: Seq<i32>, a: int, b: int)
    requires
        0 <= a <= b <= values.len(),
    ensures
        lanes_of(packed(values).subrange(4 * a, 4 * b)) == Ok::<Seq<i32>, Seq<char>>(
            values.subrange(a, b),
        ),
{
    assert(packed(values).subrange(4 * a, 4 * b) =~= packed(values.subrange(a, b)));
    unpack_undoes_pack(values.subrange(a, b));
}

/// Reading a page's lanes and packing them again gives the page's bytes.
pub proof fn pack_undoes_unpack(bytes: Seq<u8>)
    requires
        bytes.len() % 4 == 0,
    ensures
        packed(unpacked(bytes)) == bytes,
{
    let values = unpacked(bytes);
    assert forall|j: int| 0 <= j < bytes.len() implies #[trigger] packed(values)[j] == bytes[j] by {
        lemma_unpacked_byte(bytes, j);
    }
    assert(packed(values) =~= bytes);
}

proof fn lemma_bytes_of_four(b0: int, b1: int, b2: int, b3: int)
    requires
        0 <= b0 < 256,
        0 <= b1 < 256,
        0 <= b2 < 256,
        0 <= b3 < 256,
    ensures
        ({
            let u = b0 + 256 * (b1 + 256 * (b2 + 256 * b3));
            &&& 0 <= u < 0x1_0000_0000
            &&& u % 256 == b0
            &&& u / 0x100 % 256 == b1
            &&& u / 0x1_0000 % 256 == b2
            &&& u / 0x100_0000 % 256 == b3
        }),
{
    let u = b0 + 256 * (b1 + 256 * (b2 + 256 * b3));
    assert(u / 0x100 == b1 + 256 * b2 + 0x1_0000 * b3);
    assert(u / 0x1_0000 == b2 + 256 * b3);
    assert(u / 0x100_0000 == b3);
}

proof fn lemma_unpacked_byte(bytes: Seq<u8>, j: int)
    requires
        bytes.len() % 4 == 0,
        0 <= j < bytes.len(),
    ensures
        packed(unpacked(bytes))[j] == bytes[j],
{
    let values = unpacked(bytes);
    let i = j / 4;
    let k = j % 4;
    lemma_pow256();
    lemma_bytes_of_four(
        bytes[4 * i] as int,
        bytes[4 * i + 1] as int,
        bytes[4 * i + 2] as int,
        bytes[4 * i + 3] as int,
    );
    let u = le_nat(bytes, 4 * i, 4);
    assert(u == bytes[4 * i] + 256 * (bytes[4 * i + 1] + 256 * (bytes[4 * i + 2] + 256 * (bytes[4
        * i + 3])))) by {
        reveal_with_fuel(le_nat, 5);
    }
    let v = le_int(bytes, 4 * i, 4);
    assert(v == u || v == u - 0x1_0000_0000);
    assert(v % 0x1_0000_0000 == u);
    assert(values[i] == v);
    assert(j == 4 * i + k);
    assert(packed(values)[j] == u / pow256(k as nat) % 256);
}

proof fn lemma_four_bytes(w: int)
    requires
        0 <= w < 0x1_0000_0000,
    ensures
        w == w % 256 + 256 * (w / 0x100 % 256 + 256 * (w / 0x1_0000 % 256 + 256 * (w / 0x100_0000
            % 256))),
{
}

/// Adding a multiple of 256 units of size `c` changes neither the quotient's low
/// byte nor anything below it.
proof fn lemma_low_byte(low: int, c: int, k: int, high: int)
    requires
        0 < c,
    ensures
        (c * (256 * (k * high)) + low) / c % 256 == low / c % 256,
{
    let m = 256 * (k * high);
    vstd::arithmetic::div_mod::lemma_div_multiples_vanish_fancy(m + low / c, low % c, c);
    vstd::arithmetic::div_mod::lemma_fundamental_div_mod(low, c);
    vstd::arithmetic::div_mod::lemma_mod_bound(low, c);
    assert(c * m + low == c * (m + low / c) + low % c) by (nonlinear_arith)
        requires
            low == c * (low / c) + low % c,
    ;
    assert((c * m + low) / c == m + low / c);
    assert((256 * (k * high) + low / c) % 256 == low / c % 256);
}

proof fn lemma_low_bytes(u: int)
    requires
        0 <= u,
    ensures
        u % 256 == u % 0x1_0000_0000 % 256,
        u / 0x100 % 256 == u % 0x1_0000_0000 / 0x100 % 256,
        u / 0x1_0000 % 256 == u % 0x1_0000_0000 / 0x1_0000 % 256,
        u / 0x100_0000 % 256 == u % 0x1_0000_0000 / 0x100_0000 % 256,
{
    let low = u % 0x1_0000_0000;
    let high = u / 0x1_0000_0000;
    vstd::arithmetic::div_mod::lemma_fundamental_div_mod(u, 0x1_0000_0000);
    lemma_low_byte(low, 1, 0x100_0000, high);
    lemma_low_byte(low, 0x100, 0x1_0000, high);
    lemma_low_byte(low, 0x1_0000, 0x100, high);
    lemma_low_byte(low, 0x100_0000, 1, high);
}

proof fn lemma_high_bytes(u: int)
    requires
        0 <= u,
    ensures
        u / 0x100_0000_0000 == u / 0x1_0000_0000 / 0x100,
        u / 0x1_0000_0000_0000 == u / 0x1_0000_0000 / 0x1_0000,
        u / 0x100_0000_0000_0000 == u / 0x1_0000_0000 / 0x100_0000,
{
}

/// Packing accumulators and reading them back gives the accumulators.
pub proof fn unpack_undoes_pack_wide(values: Seq<i64>)
    ensures
        wide_lanes_of(packed_wide(values)) == Ok::<Seq<i64>, Seq<char>>(values),
{
    let bytes = packed_wide(values);
    assert forall|i: int| 0 <= i < values.len() implies #[trigger] unpacked_wide(bytes)[i]
        == values[i] by {
        lemma_packed_wide_lane(values, i);
    }
    assert(unpacked_wide(bytes) =~= values);
}

proof fn lemma_packed_wide_lane(values: Seq<i64>, i: int)
    requires
        0 <= i < values.len(),
    ensures
        le_int(packed_wide(values), 8 * i, 8) == values[i],
{
    let bytes = packed_wide(values);
    lemma_pow256();
    let u = values[i] as int % 0x1_0000_0000_0000_0000;
    let low = u % 0x1_0000_0000;
    let high = u / 0x1_0000_0000;
    lemma_low_bytes(u);
    lemma_high_bytes(u);
    assert forall|k: int| 0 <= k < 8 implies (8 * i + k) / 8 == i && #[trigger] ((8 * i + k) % 8) == k by {}
    assert forall|k: int| 0 <= k < 8 implies #[trigger] bytes[8 * i + k] == u / pow256(k as nat) % 256 by {
        assert((8 * i + k) % 8 == k);
    }
    assert(bytes[8 * i + 0] == low % 256);
    assert(bytes[8 * i + 1] == low / 0x100 % 256);
    assert(bytes[8 * i + 2] == low / 0x1_0000 % 256);
    assert(bytes[8 * i + 3] == low / 0x100_0000 % 256);
    assert(bytes[8 * i + 4] == high % 256);
    assert(bytes[8 * i + 5] == high / 0x100 % 256);
    assert(bytes[8 * i + 6] == high / 0x1_0000 % 256);
    assert(bytes[8 * i + 7] == high / 0x100_0000 % 256);
    lemma_four_bytes(low);
    lemma_four_bytes(high);
    assert(le_nat(bytes, 8 * i + 4, 4) == high) by {
        reveal_with_fuel(le_nat, 5);
    }
    assert(le_nat(bytes, 8 * i, 8) == low + 0x1_0000_0000 * le_nat(bytes, 8 * i + 4, 4)) by {
        assert(le_nat(bytes, 8 * i + 3, 5) == bytes[8 * i + 3] + 256 * le_nat(bytes, 8 * i + 4, 4));
        assert(le_nat(bytes, 8 * i + 2, 6) == bytes[8 * i + 2] + 256 * le_nat(bytes, 8 * i + 3, 5));
        assert(le_nat(bytes, 8 * i + 1, 7) == bytes[8 * i + 1] + 256 * le_nat(bytes, 8 * i + 2, 6));
    }
}

} // verus!
