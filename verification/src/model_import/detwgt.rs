//! Reader for the deterministic weight artifact, version 2.
//!
//! ```text
//!   header:  magic "DNWGTV0\0" | detwgt_version u32 | spec_version u32 | tensor_count u64
//!   tensor:  name_len u32 | name | rank u32 | dims u64 x rank | element_count u64
//!            | element_width u32 | payload_len u64 | max_row_mass u64
//!            | zero padding to a 64-byte offset | payload
//! ```
//!
//! The canonical value of every weight is its sign-extended Q16.16 bit pattern;
//! a tensor stored in 16 bits is widened on read. Loading is fail-closed: any
//! deviation from the layout is an error.

use crate::model_import::order::{
    bytes_le_total, bytes_le_transitive, text_in_order, text_le,
};
use crate::lists::views;
use crate::pages::{le_int, le_nat};
use crate::text::{dec, decimal, outcome};
use vstd::prelude::*;
use vstd::slice::slice_to_vec;
use vstd::utf8::{decode_utf8, encode_utf8, valid_utf8};

verus! {

/// The artifact's first eight bytes.
pub open spec fn magic() -> Seq<u8> {
    seq![68u8, 78u8, 87u8, 71u8, 84u8, 86u8, 48u8, 0u8]
}

/// The artifact version this reader takes.
pub const DETWGT_VERSION: u32 = 2;

/// The numeric contract version this reader takes.
pub const DET_NUM_SPEC_VERSION: u32 = 1;

/// Payloads start at multiples of this.
pub const PAYLOAD_ALIGNMENT: usize = 64;

/// One tensor: its shape and its canonical Q16.16 values, row-major.
pub struct Tensor {
    pub dims: Vec<u64>,
    pub values: Vec<i32>,
}

/// A tensor as a mathematical value.
#[verifier::ext_equal]
pub struct TensorView {
    pub dims: Seq<u64>,
    pub values: Seq<i32>,
}

impl View for Tensor {
    type V = TensorView;

    open spec fn view(&self) -> TensorView {
        TensorView { dims: self.dims@, values: self.values@ }
    }
}

/// Rows `start..end` of a tensor, flattened, or why it has none.
pub open spec fn tensor_rows(t: TensorView, start: int, end: int, message: Seq<char>) -> Result<
    Seq<i32>,
    Seq<char>,
> {
    if t.dims.len() == 0 {
        Err("tensor has no dimensions"@)
    } else {
        let cols = t.dims.last() as int;
        if start * cols <= end * cols <= t.values.len() {
            Ok(t.values.subrange(start * cols, end * cols))
        } else {
            Err(message)
        }
    }
}

/// The message for a row that is not there.
pub open spec fn row_message(idx: nat) -> Seq<char> {
    "row "@ + dec(idx) + " out of range"@
}

/// The message for rows that are not there.
pub open spec fn rows_message(start: nat, end: nat) -> Seq<char> {
    "rows "@ + dec(start) + ".."@ + dec(end) + " out of range"@
}

/// Columns `start..end` of every row of the given width, flattened.
pub open spec fn columns(values: Seq<i32>, cols: int, start: int, end: int, rows: nat) -> Seq<i32>
    decreases rows,
{
    if rows == 0 {
        Seq::empty()
    } else {
        columns(values, cols, start, end, (rows - 1) as nat) + values.subrange(
            (rows - 1) * cols + start,
            (rows - 1) * cols + end,
        )
    }
}

/// A column slice of a tensor, or why it has none.
pub open spec fn tensor_columns(t: TensorView, start: int, end: int) -> Result<
    Seq<i32>,
    Seq<char>,
> {
    if t.dims.len() == 0 {
        Err("tensor has no dimensions"@)
    } else {
        let cols = t.dims.last() as int;
        if end > cols {
            Err(
                "columns "@ + dec(start as nat) + ".."@ + dec(end as nat)
                    + " out of range for width "@ + dec(cols as nat),
            )
        } else {
            Ok(columns(t.values, cols, start, end, (t.values.len() as int / cols) as nat))
        }
    }
}

impl Tensor {
    fn span(&self, start: usize, end: usize) -> (r: Result<Option<(usize, usize)>, String>)
        ensures
            match r {
                Err(s) => self@.dims.len() == 0 && s@ == "tensor has no dimensions"@,
                Ok(None) => self@.dims.len() > 0 && !(start * (self@.dims.last() as int) <= end * (
                self@.dims.last() as int) <= self@.values.len()),
                Ok(Some((a, b))) => {
                    &&& self@.dims.len() > 0
                    &&& a == start * (self@.dims.last() as int)
                    &&& b == end * (self@.dims.last() as int)
                    &&& a <= b <= self@.values.len()
                },
            },
    {
        if self.dims.len() == 0 {
            return Err(String::from_str("tensor has no dimensions"));
        }
        let cols: u64 = self.dims[self.dims.len() - 1];
        let ghost c = cols as int;
        proof {
            assert(0 <= start * c <= 0xffff_ffff_ffff_ffff * 0xffff_ffff_ffff_ffff)
                by (nonlinear_arith)
                requires
                    0 <= start <= 0xffff_ffff_ffff_ffff,
                    0 <= c <= 0xffff_ffff_ffff_ffff,
            ;
            assert(0 <= end * c <= 0xffff_ffff_ffff_ffff * 0xffff_ffff_ffff_ffff)
                by (nonlinear_arith)
                requires
                    0 <= end <= 0xffff_ffff_ffff_ffff,
                    0 <= c <= 0xffff_ffff_ffff_ffff,
            ;
        }
        let a: u128 = start as u128 * cols as u128;
        let b: u128 = end as u128 * cols as u128;
        if a <= b && b <= self.values.len() as u128 {
            Ok(Some((a as usize, b as usize)))
        } else {
            Ok(None)
        }
    }

    /// Row `idx` of a tensor.
    pub fn row(&self, idx: usize) -> (r: Result<&[i32], String>)
        requires
            idx < usize::MAX,
        ensures
            outcome(r, tensor_rows(self@, idx as int, idx + 1, row_message(idx as nat))),
    {
        match self.span(idx, idx + 1) {
            Err(e) => Err(e),
            Ok(None) => Err(
                String::from_str("row ").concat(decimal(idx as u64).as_str()).concat(
                    " out of range",
                ),
            ),
            Ok(Some((a, b))) => Ok(&self.values[a..b]),
        }
    }

    /// Rows `start..end` of a tensor, flattened.
    pub fn rows(&self, start: usize, end: usize) -> (r: Result<Vec<i32>, String>)
        ensures
            outcome(
                r,
                tensor_rows(
                    self@,
                    start as int,
                    end as int,
                    rows_message(start as nat, end as nat),
                ),
            ),
    {
        match self.span(start, end) {
            Err(e) => Err(e),
            Ok(None) => Err(
                String::from_str("rows ").concat(decimal(start as u64).as_str()).concat(
                    "..",
                ).concat(decimal(end as u64).as_str()).concat(" out of range"),
            ),
            Ok(Some((a, b))) => Ok(slice_to_vec(&self.values[a..b])),
        }
    }

    /// Columns `start..end` of every row, flattened: a per-layer slice of a table
    /// that packs the layers side by side.
    pub fn column_slice(&self, start: usize, end: usize) -> (r: Result<Vec<i32>, String>)
        requires
            self@.dims.len() > 0 && end <= self@.dims.last() ==> start <= end
                && self@.dims.last() > 0,
        ensures
            outcome(r, tensor_columns(self@, start as int, end as int)),
    {
        if self.dims.len() == 0 {
            return Err(String::from_str("tensor has no dimensions"));
        }
        let cols: u64 = self.dims[self.dims.len() - 1];
        if end as u64 > cols {
            return Err(
                String::from_str("columns ").concat(decimal(start as u64).as_str()).concat(
                    "..",
                ).concat(decimal(end as u64).as_str()).concat(" out of range for width ").concat(
                    decimal(cols).as_str(),
                ),
            );
        }
        let rows: u64 = self.values.len() as u64 / cols;
        let ghost c = cols as int;
        let ghost len = self.values@.len() as int;
        proof {
            vstd::arithmetic::div_mod::lemma_fundamental_div_mod(len, c);
            assert(rows * c <= len) by (nonlinear_arith)
                requires
                    len == c * rows + len % c,
                    len % c >= 0,
            ;
        }
        let mut out: Vec<i32> = Vec::new();
        let mut row: u64 = 0;
        while row < rows
            invariant
                row <= rows,
                c == cols,
                len == self.values@.len(),
                start <= end <= c,
                c > 0,
                rows * c <= len,
                out@ == columns(self.values@, c, start as int, end as int, row as nat),
            decreases rows - row,
        {
            assert(0 <= row * c && row * c + c <= rows * c) by (nonlinear_arith)
                requires
                    0 <= row < rows,
                    c > 0,
            ;
            assert(self.values.len() <= usize::MAX);
            let base: usize = (row * cols) as usize;
            let mut piece: Vec<i32> = slice_to_vec(&self.values[base + start..base + end]);
            out.append(&mut piece);
            row += 1;
        }
        Ok(out)
    }
}

/// Every tensor of an artifact, by name, in name order.
pub struct Artifact {
    names: Vec<String>,
    tensors: Vec<Tensor>,
}

/// Texts in ascending order, without repetition.
pub open spec fn strictly_ascending(names: Seq<Seq<char>>) -> bool {
    forall|i: int, j: int|
        #![trigger names[i], names[j]]
        0 <= i < j < names.len() ==> text_le(names[i], names[j]) && names[i] != names[j]
}

/// A table from names to the tensors at the same places.
pub open spec fn table(names: Seq<Seq<char>>, tensors: Seq<TensorView>) -> Map<
    Seq<char>,
    TensorView,
> {
    Map::new(
        |name: Seq<char>| names.contains(name),
        |name: Seq<char>| tensors[names.index_of(name)],
    )
}

impl Artifact {
    /// The tensors by name.
    pub closed spec fn tensors(self) -> Map<Seq<char>, TensorView> {
        table(views(self.names@), views(self.tensors@))
    }

    /// The names are in ascending order without repetition, and each has its
    /// tensor.
    #[verifier::type_invariant]
    spec fn well_formed(self) -> bool {
        &&& self.names@.len() == self.tensors@.len()
        &&& strictly_ascending(views(self.names@))
    }

    /// The tensor of a name.
    pub fn get(&self, name: &str) -> (r: Result<&Tensor, String>)
        ensures
            outcome(r, tensor_of(self.tensors(), name@)),
    {
        proof {
            use_type_invariant(self);
        }
        let ghost names = views(self.names@);
        let wanted: String = String::from_str(name);
        let mut i: usize = 0;
        while i < self.names.len()
            invariant
                i <= self.names.len(),
                self.names@.len() == self.tensors@.len(),
                names == views(self.names@),
                strictly_ascending(names),
                wanted@ == name@,
                forall|j: int| 0 <= j < i ==> #[trigger] names[j] != name@,
            decreases self.names.len() - i,
        {
            if self.names[i] == wanted {
                proof {
                    lemma_place(names, i as int);
                }
                return Ok(&self.tensors[i]);
            }
            assert(names[i as int] == self.names@[i as int]@);
            i += 1;
        }
        Err(
            String::from_str("model artifact has no tensor '").concat(name).concat("'"),
        )
    }

    /// The names of all tensors, in order.
    pub fn names(&self) -> (r: &Vec<String>)
        ensures
            strictly_ascending(views(r@)),
            forall|name: Seq<char>|
                #![auto]
                views(r@).contains(name) <==> self.tensors().contains_key(name),
    {
        proof {
            use_type_invariant(self);
        }
        &self.names
    }
}

/// The tensor of a name, or the message that there is none.
pub open spec fn tensor_of(tensors: Map<Seq<char>, TensorView>, name: Seq<char>) -> Result<
    TensorView,
    Seq<char>,
> {
    if tensors.contains_key(name) {
        Ok(tensors[name])
    } else {
        Err("model artifact has no tensor '"@ + name + "'"@)
    }
}

proof fn lemma_place(names: Seq<Seq<char>>, i: int)
    requires
        strictly_ascending(names),
        0 <= i < names.len(),
    ensures
        names.contains(names[i]),
        names.index_of(names[i]) == i,
{
    let k = names.index_of(names[i]);
    assert(names.contains(names[i]));
    assert(0 <= k < names.len() && names[k] == names[i]);
    if k < i {
        assert(names[k] != names[i]);
    } else if i < k {
        assert(names[i] != names[k]);
    }
}

/// The message that `String::from_utf8` fails with on a byte string.
pub uninterp spec fn utf8_error(bytes: Seq<u8>) -> Seq<char>;

/// `String::from_utf8` of the standard library: succeeds exactly on valid UTF-8,
/// with the text that the bytes encode. The wording of its error is left to the
/// name [`utf8_error`].
#[verifier::external_body]
pub(crate) fn decode_text(bytes: &[u8]) -> (r: Result<String, String>)
    ensures
        match r {
            Ok(s) => valid_utf8(bytes@) && s@ == decode_utf8(bytes@),
            Err(e) => !valid_utf8(bytes@) && e@ == utf8_error(bytes@),
        },
{
    String::from_utf8(bytes.to_vec()).map_err(|error| error.to_string())
}

/// A position in a byte string.
pub struct Cursor<'a> {
    pub bytes: &'a [u8],
    pub offset: usize,
}

impl<'a> Cursor<'a> {
    /// The position lies within the bytes.
    pub open spec fn well_formed(self) -> bool {
        self.offset <= self.bytes@.len()
    }

    /// The start of a byte string.
    pub fn new(bytes: &'a [u8]) -> (r: Self)
        ensures
            r.bytes@ == bytes@,
            r.offset == 0,
            r.well_formed(),
    {
        Cursor { bytes, offset: 0 }
    }

    /// The next `len` bytes.
    pub fn take(&mut self, len: u64) -> (r: Result<&'a [u8], String>)
        requires
            old(self).well_formed(),
        ensures
            final(self).bytes@ == old(self).bytes@,
            final(self).well_formed(),
            match r {
                Ok(slice) => {
                    &&& old(self).offset + len <= old(self).bytes@.len()
                    &&& final(self).offset == old(self).offset + len
                    &&& slice@ == old(self).bytes@.subrange(
                        old(self).offset as int,
                        old(self).offset + len,
                    )
                },
                Err(s) => {
                    &&& old(self).offset + len > old(self).bytes@.len()
                    &&& s@ == "artifact ended mid-record"@
                    &&& final(self).offset == old(self).offset
                },
            },
    {
        let left: usize = self.bytes.len() - self.offset;
        if len > left as u64 {
            return Err(String::from_str("artifact ended mid-record"));
        }
        let start: usize = self.offset;
        self.offset = start + len as usize;
        let bytes: &'a [u8] = self.bytes;
        Ok(&bytes[start..start + len as usize])
    }

    /// The next four bytes as a little-endian number.
    pub fn u32(&mut self) -> (r: Result<u32, String>)
        requires
            old(self).well_formed(),
        ensures
            final(self).bytes@ == old(self).bytes@,
            final(self).well_formed(),
            match r {
                Ok(v) => {
                    &&& old(self).offset + 4 <= old(self).bytes@.len()
                    &&& final(self).offset == old(self).offset + 4
                    &&& v == le_nat(old(self).bytes@, old(self).offset as int, 4)
                },
                Err(s) => {
                    &&& old(self).offset + 4 > old(self).bytes@.len()
                    &&& s@ == "artifact ended mid-record"@
                },
            },
    {
        let b: &[u8] = match self.take(4) {
            Ok(b) => b,
            Err(e) => return Err(e),
        };
        proof {
            reveal_with_fuel(le_nat, 5);
        }
        Ok(
            b[0] as u32 + 256 * (b[1] as u32) + 65536 * (b[2] as u32) + 16777216 * (b[3] as u32),
        )
    }

    /// The next eight bytes as a little-endian number.
    pub fn u64(&mut self) -> (r: Result<u64, String>)
        requires
            old(self).well_formed(),
        ensures
            final(self).bytes@ == old(self).bytes@,
            final(self).well_formed(),
            match r {
                Ok(v) => {
                    &&& old(self).offset + 8 <= old(self).bytes@.len()
                    &&& final(self).offset == old(self).offset + 8
                    &&& v == le_nat(old(self).bytes@, old(self).offset as int, 8)
                },
                Err(s) => {
                    &&& old(self).offset + 8 > old(self).bytes@.len()
                    &&& s@ == "artifact ended mid-record"@
                },
            },
    {
        let b: &[u8] = match self.take(8) {
            Ok(b) => b,
            Err(e) => return Err(e),
        };
        proof {
            reveal_with_fuel(le_nat, 9);
        }
        let low: u64 = b[0] as u64 + 256 * (b[1] as u64 + 256 * (b[2] as u64 + 256 * (b[3] as u64)));
        let high: u64 = b[4] as u64 + 256 * (b[5] as u64 + 256 * (b[6] as u64 + 256 * (b[7] as u64)));
        Ok(low + 0x1_0000_0000 * high)
    }

    /// Skips to the next payload boundary, refusing padding that is not zero.
    pub fn align_to(&mut self, alignment: usize, name: &String) -> (r: Result<(), String>)
        requires
            old(self).well_formed(),
            alignment > 0,
        ensures
            final(self).bytes@ == old(self).bytes@,
            final(self).well_formed(),
            match padded(old(self).bytes@, old(self).offset as int, alignment as int, name@) {
                Ok(next) => r is Ok && final(self).offset == next,
                Err(e) => r matches Err(s) && s@ == e,
            },
    {
        let over: usize = self.offset % alignment;
        let padding: usize = (alignment - over) % alignment;
        let ghost start = self.offset as int;
        let skipped: &[u8] = match self.take(padding as u64) {
            Ok(b) => b,
            Err(e) => return Err(e),
        };
        let mut i: usize = 0;
        while i < skipped.len()
            invariant
                i <= skipped.len(),
                forall|j: int| 0 <= j < i ==> skipped@[j] == 0,
                skipped@ == self.bytes@.subrange(start, start + padding),
                self.bytes@ == old(self).bytes@,
                0 <= start,
                start + padding <= self.bytes@.len(),
                start == old(self).offset,
                padding == padding_of(start, alignment as int),
                self.well_formed(),
            decreases skipped.len() - i,
        {
            if skipped[i] != 0 {
                assert(self.bytes@[start + i] != 0);
                return Err(
                    String::from_str("tensor '").concat(name.as_str()).concat(
                        "' has non-zero padding",
                    ),
                );
            }
            i += 1;
        }
        assert forall|k: int| start <= k < start + padding implies self.bytes@[k] == 0 by {
            assert(skipped@[k - start] == 0);
        }
        Ok(())
    }

    /// Whether nothing is left.
    pub fn at_end(&self) -> (r: bool)
        ensures
            r == (self.offset == self.bytes@.len()),
    {
        self.offset == self.bytes.len()
    }
}

/// How many bytes it is to the next multiple of `alignment`.
pub open spec fn padding_of(offset: int, alignment: int) -> int {
    (alignment - offset % alignment) % alignment
}

/// The next multiple of `alignment`, or why it cannot be skipped to.
pub open spec fn padded(bytes: Seq<u8>, offset: int, alignment: int, name: Seq<char>) -> Result<
    int,
    Seq<char>,
> {
    let next = offset + padding_of(offset, alignment);
    if next > bytes.len() {
        Err("artifact ended mid-record"@)
    } else if exists|k: int| offset <= k < next && #[trigger] bytes[k] != 0 {
        Err("tensor '"@ + name + "' has non-zero padding"@)
    } else {
        Ok(next)
    }
}

/// The product of a shape's dimensions.
pub open spec fn shape_product(dims: Seq<u64>) -> int
    decreases dims.len(),
{
    if dims.len() == 0 {
        1
    } else {
        shape_product(dims.drop_last()) * dims.last()
    }
}

/// The message that a record is cut off.
pub open spec fn cut_off() -> Seq<char> {
    "artifact ended mid-record"@
}

/// A tensor's name, shape and element count, and where they end.
#[verifier::ext_equal]
pub struct HeadView {
    pub name: Seq<char>,
    pub dims: Seq<u64>,
    pub count: int,
    pub end: int,
}

/// The head of the record at an offset, or why it is refused.
pub open spec fn head_at(bytes: Seq<u8>, at: int) -> Result<HeadView, Seq<char>> {
    let n = bytes.len();
    let name_at = at + 4;
    let name_len = le_nat(bytes, at, 4);
    let raw = bytes.subrange(name_at, name_at + name_len);
    let rank_at = name_at + name_len;
    let rank = le_nat(bytes, rank_at, 4);
    let dims_at = rank_at + 4;
    let dims = Seq::new(rank as nat, |i: int| le_nat(bytes, dims_at + 8 * i, 8) as u64);
    let count_at = dims_at + 8 * rank;
    let count = le_nat(bytes, count_at, 8);
    if name_at > n || rank_at > n {
        Err(cut_off())
    } else if !valid_utf8(raw) {
        Err(utf8_error(raw))
    } else if dims_at > n || count_at > n || count_at + 8 > n {
        Err(cut_off())
    } else if count != shape_product(dims) {
        Err("tensor '"@ + decode_utf8(raw) + "' element count does not match its shape"@)
    } else {
        Ok(HeadView { name: decode_utf8(raw), dims, count, end: count_at + 8 })
    }
}

/// The values of a tensor and where they end, or why they are refused.
pub open spec fn values_at(bytes: Seq<u8>, head: HeadView) -> Result<(Seq<i32>, int), Seq<char>> {
    let n = bytes.len();
    let at = head.end;
    let width = le_nat(bytes, at, 4);
    let len = le_nat(bytes, at + 4, 8);
    if at + 20 > n {
        Err(cut_off())
    } else if len != head.count * (width / 8) {
        Err("tensor '"@ + head.name + "' payload length does not match its width"@)
    } else {
        match padded(bytes, at + 20, PAYLOAD_ALIGNMENT as int, head.name) {
            Err(e) => Err(e),
            Ok(start) => if start + len > n {
                Err(cut_off())
            } else if width == 16 {
                Ok(
                    (
                        Seq::new(
                            (len / 2) as nat,
                            |i: int| le_int(bytes, start + 2 * i, 2) as i32,
                        ),
                        start + len,
                    ),
                )
            } else if width == 32 {
                Ok(
                    (
                        Seq::new(
                            (len / 4) as nat,
                            |i: int| le_int(bytes, start + 4 * i, 4) as i32,
                        ),
                        start + len,
                    ),
                )
            } else {
                Err("tensor '"@ + head.name + "' has element width "@ + dec(width as nat))
            },
        }
    }
}

/// A whole record: name, tensor, and where it ends; or why it is refused.
pub open spec fn record_at(bytes: Seq<u8>, at: int) -> Result<
    (Seq<char>, TensorView, int),
    Seq<char>,
> {
    match head_at(bytes, at) {
        Err(e) => Err(e),
        Ok(head) => match values_at(bytes, head) {
            Err(e) => Err(e),
            Ok((values, end)) => Ok((head.name, TensorView { dims: head.dims, values }, end)),
        },
    }
}

/// The tensors of `count` records added to a table, and where they end; or why
/// they are refused.
pub open spec fn records_at(
    bytes: Seq<u8>,
    at: int,
    count: nat,
    tensors: Map<Seq<char>, TensorView>,
) -> Result<(Map<Seq<char>, TensorView>, int), Seq<char>>
    decreases count,
{
    if count == 0 {
        Ok((tensors, at))
    } else {
        match record_at(bytes, at) {
            Err(e) => Err(e),
            Ok((name, tensor, end)) => if tensors.contains_key(name) {
                Err("duplicate tensor '"@ + name + "' in artifact"@)
            } else {
                records_at(bytes, end, (count - 1) as nat, tensors.insert(name, tensor))
            },
        }
    }
}

/// The tensors of an artifact, or why it is refused.
pub open spec fn artifact_of(bytes: Seq<u8>, path: Seq<char>) -> Result<
    Map<Seq<char>, TensorView>,
    Seq<char>,
> {
    let n = bytes.len();
    let version = le_nat(bytes, 8, 4);
    let spec_version = le_nat(bytes, 12, 4);
    if n < 8 {
        Err(cut_off())
    } else if bytes.subrange(0, 8) != magic() {
        Err(path + " is not a detwgt artifact"@)
    } else if n < 12 {
        Err(cut_off())
    } else if version != DETWGT_VERSION {
        Err(
            path + " is detwgt v"@ + dec(version as nat) + "; this importer reads v"@ + dec(
                DETWGT_VERSION as nat,
            ) + " (re-run gemma-det-num-wgt-converter)"@,
        )
    } else if n < 16 {
        Err(cut_off())
    } else if spec_version != DET_NUM_SPEC_VERSION {
        Err("unsupported det_num spec version "@ + dec(spec_version as nat))
    } else if n < 24 {
        Err(cut_off())
    } else {
        match records_at(bytes, 24, le_nat(bytes, 16, 8) as nat, Map::empty()) {
            Err(e) => Err(e),
            Ok((tensors, end)) => if end != n {
                Err("trailing bytes after the last tensor payload"@)
            } else {
                Ok(tensors)
            },
        }
    }
}

proof fn lemma_le_nat_range(bytes: Seq<u8>, at: int, width: nat)
    ensures
        0 <= le_nat(bytes, at, width),
        width == 2 ==> le_nat(bytes, at, width) < 0x1_0000,
        width == 4 ==> le_nat(bytes, at, width) < 0x1_0000_0000,
        width == 8 ==> le_nat(bytes, at, width) < 0x1_0000_0000_0000_0000,
    decreases width,
{
    if width > 0 {
        lemma_le_nat_range(bytes, at + 1, (width - 1) as nat);
    }
    reveal_with_fuel(le_nat, 9);
}

/// The product of a shape's dimensions, if it fits.
fn shape_count(dims: &Vec<u64>) -> (r: Option<u64>)
    ensures
        match r {
            Some(count) => count == shape_product(dims@),
            None => shape_product(dims@) > u64::MAX,
        },
{
    let mut zero: bool = false;
    let mut i: usize = 0;
    while i < dims.len()
        invariant
            i <= dims.len(),
            zero <==> exists|j: int| 0 <= j < i && #[trigger] dims@[j] == 0,
        decreases dims.len() - i,
    {
        if dims[i] == 0 {
            zero = true;
        }
        i += 1;
    }
    if zero {
        proof {
            lemma_zero_product(dims@);
        }
        return Some(0);
    }
    let mut product: u64 = 1;
    let mut i: usize = 0;
    assert(dims@.take(0) =~= Seq::empty());
    while i < dims.len()
        invariant
            i <= dims.len(),
            forall|j: int| 0 <= j < dims@.len() ==> #[trigger] dims@[j] != 0,
            product == shape_product(dims@.take(i as int)),
            product >= 1,
        decreases dims.len() - i,
    {
        let ghost before = product as int;
        let d: u64 = dims[i];
        assert(dims@.take(i + 1).drop_last() =~= dims@.take(i as int));
        assert(before * d >= 1) by (nonlinear_arith)
            requires
                before >= 1,
                d >= 1,
        ;
        match product.checked_mul(d) {
            Some(next) => {
                product = next;
            },
            None => {
                proof {
                    lemma_product_grows(dims@, i + 1);
                }
                return None;
            },
        }
        i += 1;
    }
    assert(dims@.take(i as int) =~= dims@);
    Some(product)
}

proof fn lemma_zero_product(dims: Seq<u64>)
    requires
        exists|j: int| 0 <= j < dims.len() && #[trigger] dims[j] == 0,
    ensures
        shape_product(dims) == 0,
    decreases dims.len(),
{
    let j = choose|j: int| 0 <= j < dims.len() && #[trigger] dims[j] == 0;
    let rest = dims.drop_last();
    if j < dims.len() - 1 {
        assert(rest[j] == 0);
        lemma_zero_product(rest);
    }
    assert(0 * dims.last() == 0 && shape_product(rest) * 0 == 0) by (nonlinear_arith);
}

proof fn lemma_product_grows(dims: Seq<u64>, k: int)
    requires
        0 <= k <= dims.len(),
        forall|j: int| 0 <= j < dims.len() ==> #[trigger] dims[j] != 0,
        shape_product(dims.take(k)) >= 1,
    ensures
        shape_product(dims) >= shape_product(dims.take(k)),
    decreases dims.len() - k,
{
    if k == dims.len() {
        assert(dims.take(k) =~= dims);
    } else {
        let here = shape_product(dims.take(k));
        assert(dims.take(k + 1).drop_last() =~= dims.take(k));
        assert(here * dims[k] >= here) by (nonlinear_arith)
            requires
                here >= 1,
                dims[k] >= 1,
        ;
        lemma_product_grows(dims, k + 1);
    }
}

/// A tensor's name, shape and element count.
struct Head {
    name: String,
    dims: Vec<u64>,
    count: u64,
}

fn read_head(cursor: &mut Cursor) -> (r: Result<Head, String>)
    requires
        old(cursor).well_formed(),
    ensures
        final(cursor).bytes@ == old(cursor).bytes@,
        final(cursor).well_formed(),
        match head_at(old(cursor).bytes@, old(cursor).offset as int) {
            Ok(head) => r matches Ok(h) && h.name@ == head.name && h.dims@ == head.dims && h.count
                == head.count && final(cursor).offset == head.end,
            Err(e) => r matches Err(s) && s@ == e,
        },
{
    let ghost bytes = cursor.bytes@;
    let ghost at = cursor.offset as int;
    proof {
        lemma_le_nat_range(bytes, at, 4);
    }
    let name_len: u32 = match cursor.u32() {
        Ok(v) => v,
        Err(e) => return Err(e),
    };
    let raw: &[u8] = match cursor.take(name_len as u64) {
        Ok(b) => b,
        Err(e) => return Err(e),
    };
    let name: String = match decode_text(raw) {
        Ok(name) => name,
        Err(e) => return Err(e),
    };
    proof {
        lemma_le_nat_range(bytes, at + 4 + name_len, 4);
    }
    let rank: u32 = match cursor.u32() {
        Ok(v) => v,
        Err(e) => return Err(e),
    };
    let ghost dims_at = cursor.offset as int;
    let mut dims: Vec<u64> = Vec::new();
    while dims.len() < rank as usize
        invariant
            cursor.bytes@ == bytes,
            cursor.well_formed(),
            bytes == old(cursor).bytes@,
            at == old(cursor).offset,
            dims@.len() <= rank,
            cursor.offset == dims_at + 8 * dims@.len(),
            forall|i: int| 0 <= i < dims@.len() ==> dims@[i] == le_nat(bytes, dims_at + 8 * i, 8),
            name_len == le_nat(bytes, at, 4),
            dims_at == at + 8 + name_len,
            rank == le_nat(bytes, at + 4 + name_len, 4),
            dims_at <= bytes.len(),
            valid_utf8(bytes.subrange(at + 4, at + 4 + name_len)),
        decreases rank - dims.len(),
    {
        let d: u64 = match cursor.u64() {
            Ok(v) => v,
            Err(e) => return Err(e),
        };
        dims.push(d);
    }
    let ghost count_at = dims_at + 8 * rank;
    proof {
        lemma_le_nat_range(bytes, count_at, 8);
        assert(dims@ =~= Seq::new(
            rank as nat,
            |i: int| le_nat(bytes, dims_at + 8 * i, 8) as u64,
        ));
    }
    let count: u64 = match cursor.u64() {
        Ok(v) => v,
        Err(e) => return Err(e),
    };
    let matches: bool = match shape_count(&dims) {
        Some(product) => product == count,
        None => false,
    };
    if !matches {
        return Err(
            String::from_str("tensor '").concat(name.as_str()).concat(
                "' element count does not match its shape",
            ),
        );
    }
    Ok(Head { name, dims, count })
}

fn read_i16s(payload: &[u8], Ghost(bytes): Ghost<Seq<u8>>, Ghost(start): Ghost<int>) -> (r: Vec<
    i32,
>)
    requires
        0 <= start,
        start + payload@.len() <= bytes.len(),
        payload@ == bytes.subrange(start, start + payload@.len()),
    ensures
        r@ == Seq::new(
            payload@.len() / 2,
            |i: int| le_int(bytes, start + 2 * i, 2) as i32,
        ),
{
    let len: usize = payload.len();
    let n: usize = len / 2;
    let mut r: Vec<i32> = Vec::new();
    while r.len() < n
        invariant
            0 <= start,
            len == payload@.len(),
            n == len / 2,
            r@.len() <= n,
            start + payload@.len() <= bytes.len(),
            payload@ == bytes.subrange(start, start + payload@.len()),
            forall|i: int| 0 <= i < r@.len() ==> r@[i] == le_int(bytes, start + 2 * i, 2),
        decreases n - r.len(),
    {
        let i: usize = r.len();
        proof {
            reveal_with_fuel(le_nat, 3);
            reveal_with_fuel(crate::pages::pow256, 3);
        }
        let u: i32 = payload[2 * i] as i32 + 256 * (payload[2 * i + 1] as i32);
        r.push(
            if u >= 0x8000 {
                u - 0x1_0000
            } else {
                u
            },
        );
    }
    assert(r@ =~= Seq::new(
        payload@.len() / 2,
        |i: int| le_int(bytes, start + 2 * i, 2) as i32,
    ));
    r
}

fn read_i32s(payload: &[u8], Ghost(bytes): Ghost<Seq<u8>>, Ghost(start): Ghost<int>) -> (r: Vec<
    i32,
>)
    requires
        0 <= start,
        start + payload@.len() <= bytes.len(),
        payload@ == bytes.subrange(start, start + payload@.len()),
    ensures
        r@ == Seq::new(
            payload@.len() / 4,
            |i: int| le_int(bytes, start + 4 * i, 4) as i32,
        ),
{
    let len: usize = payload.len();
    let n: usize = len / 4;
    let mut r: Vec<i32> = Vec::new();
    while r.len() < n
        invariant
            0 <= start,
            len == payload@.len(),
            n == len / 4,
            r@.len() <= n,
            start + payload@.len() <= bytes.len(),
            payload@ == bytes.subrange(start, start + payload@.len()),
            forall|i: int| 0 <= i < r@.len() ==> r@[i] == le_int(bytes, start + 4 * i, 4),
        decreases n - r.len(),
    {
        let i: usize = r.len();
        proof {
            reveal_with_fuel(le_nat, 5);
            reveal_with_fuel(crate::pages::pow256, 5);
        }
        let u: i64 = payload[4 * i] as i64 + 256 * (payload[4 * i + 1] as i64 + 256 * (payload[4 * i
            + 2] as i64 + 256 * (payload[4 * i + 3] as i64)));
        r.push(
            if u >= 0x8000_0000 {
                (u - 0x1_0000_0000) as i32
            } else {
                u as i32
            },
        );
    }
    assert(r@ =~= Seq::new(
        payload@.len() / 4,
        |i: int| le_int(bytes, start + 4 * i, 4) as i32,
    ));
    r
}

fn read_values(cursor: &mut Cursor, head: &Head) -> (r: Result<Vec<i32>, String>)
    requires
        old(cursor).well_formed(),
    ensures
        final(cursor).bytes@ == old(cursor).bytes@,
        final(cursor).well_formed(),
        match values_at(
            old(cursor).bytes@,
            (HeadView {
                name: head.name@,
                dims: head.dims@,
                count: head.count as int,
                end: old(cursor).offset as int,
            }),
        ) {
            Ok((values, end)) => r matches Ok(v) && v@ == values && final(cursor).offset == end,
            Err(e) => r matches Err(s) && s@ == e,
        },
{
    let ghost bytes = cursor.bytes@;
    let ghost at = cursor.offset as int;
    proof {
        lemma_le_nat_range(bytes, at, 4);
        lemma_le_nat_range(bytes, at + 4, 8);
    }
    let width: u32 = match cursor.u32() {
        Ok(v) => v,
        Err(e) => return Err(e),
    };
    let len: u64 = match cursor.u64() {
        Ok(v) => v,
        Err(e) => return Err(e),
    };
    let _max_row_mass: u64 = match cursor.u64() {
        Ok(v) => v,
        Err(e) => return Err(e),
    };
    let unit: u128 = (width / 8) as u128;
    assert(0 <= head.count * unit <= 0xffff_ffff_ffff_ffff * 0xffff_ffff) by (nonlinear_arith)
        requires
            0 <= head.count <= 0xffff_ffff_ffff_ffff,
            0 <= unit <= 0xffff_ffff,
    ;
    if len as u128 != head.count as u128 * unit {
        return Err(
            String::from_str("tensor '").concat(head.name.as_str()).concat(
                "' payload length does not match its width",
            ),
        );
    }
    match cursor.align_to(PAYLOAD_ALIGNMENT, &head.name) {
        Ok(()) => {},
        Err(e) => return Err(e),
    }
    let ghost start = cursor.offset as int;
    let payload: &[u8] = match cursor.take(len) {
        Ok(b) => b,
        Err(e) => return Err(e),
    };
    if width == 16 {
        Ok(read_i16s(payload, Ghost(bytes), Ghost(start)))
    } else if width == 32 {
        Ok(read_i32s(payload, Ghost(bytes), Ghost(start)))
    } else {
        Err(
            String::from_str("tensor '").concat(head.name.as_str()).concat(
                "' has element width ",
            ).concat(decimal(width as u64).as_str()),
        )
    }
}

proof fn lemma_insert(
    names: Seq<Seq<char>>,
    tensors: Seq<TensorView>,
    k: int,
    name: Seq<char>,
    tensor: TensorView,
)
    requires
        strictly_ascending(names),
        names.len() == tensors.len(),
        0 <= k <= names.len(),
        forall|j: int| 0 <= j < k ==> text_le(#[trigger] names[j], name) && names[j] != name,
        k < names.len() ==> !text_le(names[k], name),
    ensures
        !names.contains(name),
        strictly_ascending(names.insert(k, name)),
        table(names.insert(k, name), tensors.insert(k, tensor)) == table(names, tensors).insert(
            name,
            tensor,
        ),
{
    let more = names.insert(k, name);
    let tmore = tensors.insert(k, tensor);
    if k < names.len() {
        bytes_le_total(encode_utf8(names[k]), encode_utf8(name));
    }
    assert forall|j: int| k <= j < names.len() implies text_le(name, #[trigger] names[j])
        && names[j] != name by {
        if k < j {
            assert(text_le(names[k], names[j]));
            bytes_le_transitive(encode_utf8(name), encode_utf8(names[k]), encode_utf8(names[j]));
        }
    }
    assert forall|i: int, j: int|
        #![trigger more[i], more[j]]
        0 <= i < j < more.len() implies text_le(more[i], more[j]) && more[i] != more[j] by {
        let a = if i < k {
            i
        } else {
            i - 1
        };
        let b = if j < k {
            j
        } else {
            j - 1
        };
        if i != k && j != k {
            assert(more[i] == names[a] && more[j] == names[b]);
        } else if i == k {
            assert(more[j] == names[b]);
        } else {
            assert(more[i] == names[a]);
        }
    }
    let left = table(more, tmore);
    let right = table(names, tensors).insert(name, tensor);
    assert forall|n: Seq<char>|
        #![trigger left.dom().contains(n)]
        #![trigger right.dom().contains(n)]
        left.dom().contains(n) == right.dom().contains(n) && (left.dom().contains(n) ==> left[n]
            == right[n]) by {
        if names.contains(n) {
            let j = names.index_of(n);
            let m = if j < k {
                j
            } else {
                j + 1
            };
            assert(names[j] == n);
            assert(more[m] == n);
            lemma_place(more, m);
        }
        if n == name {
            assert(more[k] == name);
            lemma_place(more, k);
        }
        if more.contains(n) && n != name {
            let m = more.index_of(n);
            assert(more[m] == n);
            let j = if m < k {
                m
            } else {
                m - 1
            };
            assert(names[j] == n);
        }
    }
    assert(left =~= right);
}

/// Reads an artifact out of the bytes of the file at `path`.
pub fn load(bytes: &[u8], path: &str) -> (r: Result<Artifact, String>)
    ensures
        match artifact_of(bytes@, path@) {
            Ok(tensors) => r matches Ok(artifact) && artifact.tensors() == tensors,
            Err(e) => r matches Err(s) && s@ == e,
        },
{
    let mut cursor: Cursor = Cursor::new(bytes);
    proof {
        lemma_le_nat_range(bytes@, 8, 4);
        lemma_le_nat_range(bytes@, 12, 4);
        lemma_le_nat_range(bytes@, 16, 8);
    }
    let first: &[u8] = match cursor.take(8) {
        Ok(b) => b,
        Err(e) => return Err(e),
    };
    let known: bool = first[0] == 68 && first[1] == 78 && first[2] == 87 && first[3] == 71
        && first[4] == 84 && first[5] == 86 && first[6] == 48 && first[7] == 0;
    assert(known == (first@ =~= magic()));
    if !known {
        return Err(String::from_str(path).concat(" is not a detwgt artifact"));
    }
    let version: u32 = match cursor.u32() {
        Ok(v) => v,
        Err(e) => return Err(e),
    };
    if version != DETWGT_VERSION {
        return Err(
            String::from_str(path).concat(" is detwgt v").concat(
                decimal(version as u64).as_str(),
            ).concat("; this importer reads v").concat(
                decimal(DETWGT_VERSION as u64).as_str(),
            ).concat(" (re-run gemma-det-num-wgt-converter)"),
        );
    }
    let spec_version: u32 = match cursor.u32() {
        Ok(v) => v,
        Err(e) => return Err(e),
    };
    if spec_version != DET_NUM_SPEC_VERSION {
        return Err(
            String::from_str("unsupported det_num spec version ").concat(
                decimal(spec_version as u64).as_str(),
            ),
        );
    }
    let count: u64 = match cursor.u64() {
        Ok(v) => v,
        Err(e) => return Err(e),
    };
    let mut names: Vec<String> = Vec::new();
    let mut tensors: Vec<Tensor> = Vec::new();
    let mut done: u64 = 0;
    let ghost whole = records_at(bytes@, 24, count as nat, Map::empty());
    assert(table(views(names@), views(tensors@)) =~= Map::empty());
    while done < count
        invariant
            done <= count,
            cursor.bytes@ == bytes@,
            cursor.well_formed(),
            names@.len() == tensors@.len(),
            strictly_ascending(views(names@)),
            whole == records_at(bytes@, 24, count as nat, Map::empty()),
            whole == records_at(
                bytes@,
                cursor.offset as int,
                (count - done) as nat,
                table(views(names@), views(tensors@)),
            ),
            bytes@.len() >= 24,
            bytes@.subrange(0, 8) == magic(),
            le_nat(bytes@, 8, 4) == DETWGT_VERSION,
            le_nat(bytes@, 12, 4) == DET_NUM_SPEC_VERSION,
            le_nat(bytes@, 16, 8) == count,
        decreases count - done,
    {
        let ghost at = cursor.offset as int;
        let head: Head = match read_head(&mut cursor) {
            Ok(h) => h,
            Err(e) => return Err(e),
        };
        let values: Vec<i32> = match read_values(&mut cursor, &head) {
            Ok(v) => v,
            Err(e) => return Err(e),
        };
        let Head { name, dims, count: _ } = head;
        let tensor: Tensor = Tensor { dims, values };
        let ghost old_names = views(names@);
        let ghost old_tensors = views(tensors@);
        let ghost entry = name@;
        let mut k: usize = 0;
        while k < names.len() && text_in_order(names[k].as_str(), name.as_str())
            invariant
                k <= names.len(),
                old_names == views(names@),
                old_tensors == views(tensors@),
                names@.len() == tensors@.len(),
                entry == name@,
                forall|j: int| 0 <= j < k ==> text_le(#[trigger] old_names[j], entry) && old_names[j]
                    != entry,
                whole == records_at(bytes@, 24, count as nat, Map::empty()),
                whole == records_at(
                    bytes@,
                    at,
                    (count - done) as nat,
                    table(old_names, old_tensors),
                ),
                record_at(bytes@, at) == Ok::<(Seq<char>, TensorView, int), Seq<char>>(
                    (entry, tensor@, cursor.offset as int),
                ),
                done < count,
                bytes@.len() >= 24,
                bytes@.subrange(0, 8) == magic(),
                le_nat(bytes@, 8, 4) == DETWGT_VERSION,
                le_nat(bytes@, 12, 4) == DET_NUM_SPEC_VERSION,
                le_nat(bytes@, 16, 8) == count,
            decreases names.len() - k,
        {
            assert(old_names[k as int] == names@[k as int]@);
            if names[k] == name {
                assert(old_names.contains(entry));
                return Err(
                    String::from_str("duplicate tensor '").concat(name.as_str()).concat(
                        "' in artifact",
                    ),
                );
            }
            k += 1;
        }
        proof {
            if k < names@.len() {
                assert(old_names[k as int] == names@[k as int]@);
            }
            lemma_insert(old_names, old_tensors, k as int, entry, tensor@);
        }
        names.insert(k, name);
        tensors.insert(k, tensor);
        assert(views(names@) =~= old_names.insert(k as int, entry));
        assert(views(tensors@) =~= old_tensors.insert(k as int, tensor@));
        done += 1;
    }
    if !cursor.at_end() {
        return Err(String::from_str("trailing bytes after the last tensor payload"));
    }
    Ok(Artifact { names, tensors })
}

/// Every tensor of a loaded artifact has as many values as its shape says.
pub proof fn a_loaded_tensor_fills_its_shape(bytes: Seq<u8>, path: Seq<char>, name: Seq<char>)
    requires
        artifact_of(bytes, path) is Ok,
        artifact_of(bytes, path)->Ok_0.contains_key(name),
    ensures
        artifact_of(bytes, path)->Ok_0[name].values.len() == shape_product(
            artifact_of(bytes, path)->Ok_0[name].dims,
        ),
{
    lemma_records_fill(bytes, 24, le_nat(bytes, 16, 8) as nat, Map::empty(), name);
}

spec fn fills_its_shape(t: TensorView) -> bool {
    t.values.len() == shape_product(t.dims)
}

proof fn lemma_records_fill(
    bytes: Seq<u8>,
    at: int,
    count: nat,
    tensors: Map<Seq<char>, TensorView>,
    name: Seq<char>,
)
    requires
        records_at(bytes, at, count, tensors) is Ok,
        records_at(bytes, at, count, tensors)->Ok_0.0.contains_key(name),
        tensors.contains_key(name) ==> fills_its_shape(tensors[name]),
    ensures
        fills_its_shape(records_at(bytes, at, count, tensors)->Ok_0.0[name]),
    decreases count,
{
    if count > 0 {
        let (found, tensor, end) = record_at(bytes, at)->Ok_0;
        assert(fills_its_shape(tensor)) by {
            let head = head_at(bytes, at)->Ok_0;
            lemma_le_nat_range(bytes, head.end, 4);
            lemma_le_nat_range(bytes, head.end + 4, 8);
            let width = le_nat(bytes, head.end, 4);
            let len = le_nat(bytes, head.end + 4, 8);
            if width == 16 {
                assert(len == head.count * 2);
                assert(len / 2 == head.count);
            } else {
                assert(len == head.count * 4);
                assert(len / 4 == head.count);
            }
        }
        lemma_records_fill(
            bytes,
            end,
            (count - 1) as nat,
            tensors.insert(found, tensor),
            name,
        );
    }
}

} // verus!
