//! How an artifact is laid out, byte by byte.

use crate::model_import::detwgt::{
    artifact_of, head_at, padded, record_at, records_at, shape_product, values_at, HeadView,
    TensorView,
};
use crate::pages::{le_int, le_nat, pow256};
use vstd::prelude::*;
use vstd::utf8::{decode_utf8, valid_utf8};

verus! {

/// The unsigned 32-bit number at a place, least significant byte first.
#[verifier::opaque]
pub open spec fn u32_at(bytes: Seq<u8>, at: int) -> int {
    bytes[at] + 0x100 * bytes[at + 1] + 0x1_0000 * bytes[at + 2] + 0x100_0000 * bytes[at + 3]
}

/// The unsigned 64-bit number at a place, least significant byte first.
#[verifier::opaque]
pub open spec fn u64_at(bytes: Seq<u8>, at: int) -> int {
    u32_at(bytes, at) + 0x1_0000_0000 * u32_at(bytes, at + 4)
}

/// The signed number of 16 or 32 bits at a place, least significant byte first, in two's
/// complement.
#[verifier::opaque]
pub open spec fn weight_at(bytes: Seq<u8>, at: int, width: int) -> int {
    if width == 16 {
        let n = bytes[at] + 0x100 * bytes[at + 1];
        if n >= 0x8000 {
            n - 0x1_0000
        } else {
            n
        }
    } else {
        let n = u32_at(bytes, at);
        if n >= 0x8000_0000 {
            n - 0x1_0000_0000
        } else {
            n
        }
    }
}

proof fn lemma_readers(bytes: Seq<u8>, at: int)
    ensures
        le_nat(bytes, at, 4) == u32_at(bytes, at),
        le_nat(bytes, at, 8) == u64_at(bytes, at),
        le_int(bytes, at, 2) == weight_at(bytes, at, 16),
        le_int(bytes, at, 4) == weight_at(bytes, at, 32),
        0 <= u32_at(bytes, at) <= u32::MAX,
        0 <= u64_at(bytes, at) <= u64::MAX,
        i16::MIN <= weight_at(bytes, at, 16) <= i16::MAX,
        i32::MIN <= weight_at(bytes, at, 32) <= i32::MAX,
{
    reveal(u32_at);
    reveal(u64_at);
    reveal(weight_at);
    reveal_with_fuel(le_nat, 9);
    reveal_with_fuel(pow256, 5);
    assert(pow256(2) == 0x1_0000);
    assert(pow256(4) == 0x1_0000_0000);
}

/// Where a record's element count stands: behind the name's length and its bytes, the
/// rank and the dimensions.
pub open spec fn count_place(bytes: Seq<u8>, at: int) -> int {
    let rank_at = at + 4 + u32_at(bytes, at);
    rank_at + 4 + 8 * u32_at(bytes, rank_at)
}

/// Whether a name and a shape stand at a place of an artifact: the name's length and its
/// bytes, the rank and the dimensions, and the number of elements.
pub open spec fn heads_record(bytes: Seq<u8>, at: int, name: Seq<char>, dims: Seq<u64>) -> bool {
    let rank_at = at + 4 + u32_at(bytes, at);
    &&& count_place(bytes, at) + 8 <= bytes.len()
    &&& valid_utf8(bytes.subrange(at + 4, rank_at))
    &&& name == decode_utf8(bytes.subrange(at + 4, rank_at))
    &&& dims.len() == u32_at(bytes, rank_at)
    &&& forall|i: int|
        0 <= i < dims.len() ==> (#[trigger] dims[i]) == u64_at(bytes, rank_at + 4 + 8 * i)
    &&& u64_at(bytes, count_place(bytes, at)) == shape_product(dims)
}

/// Whether values stand behind a record's head: the width of an element in bits, the
/// payload's length in bytes, the greatest row mass, zeros up to a multiple of 64, and
/// the elements up to `end`.
pub open spec fn fills_record(
    bytes: Seq<u8>,
    head_end: int,
    values: Seq<i32>,
    width: int,
    start: int,
    end: int,
) -> bool {
    let n = values.len() as int;
    &&& start <= end <= bytes.len()
    &&& head_end + 20 <= start < head_end + 20 + 64
    &&& start % 64 == 0
    &&& forall|k: int| head_end + 20 <= k < start ==> (#[trigger] bytes[k]) == 0
    &&& u32_at(bytes, head_end) == width
    &&& width == 16 || width == 32
    &&& u64_at(bytes, head_end + 4) == end - start
    &&& width == 16 ==> end - start == 2 * n
    &&& width == 32 ==> end - start == 4 * n
    &&& forall|i: int|
        0 <= i < n ==> (#[trigger] values[i]) == weight_at(bytes, start + (width / 8) * i, width)
}

/// Whether a record of a name and a tensor stands at a place of an artifact.
pub open spec fn stands_in(
    bytes: Seq<u8>,
    at: int,
    name: Seq<char>,
    tensor: TensorView,
    width: int,
    start: int,
    end: int,
) -> bool {
    &&& heads_record(bytes, at, name, tensor.dims)
    &&& fills_record(bytes, count_place(bytes, at) + 8, tensor.values, width, start, end)
    &&& shape_product(tensor.dims) == tensor.values.len()
}

proof fn lemma_head_read(bytes: Seq<u8>, at: int)
    requires
        head_at(bytes, at) is Ok,
        0 <= at,
    ensures
        ({
            let head = head_at(bytes, at)->Ok_0;
            &&& heads_record(bytes, at, head.name, head.dims)
            &&& head.count == shape_product(head.dims)
            &&& head.end == count_place(bytes, at) + 8
        }),
{
    let head = head_at(bytes, at)->Ok_0;
    let rank_at = at + 4 + u32_at(bytes, at);
    lemma_readers(bytes, at);
    lemma_readers(bytes, rank_at);
    lemma_readers(bytes, count_place(bytes, at));
    assert forall|i: int| 0 <= i < head.dims.len() implies (#[trigger] head.dims[i]) == u64_at(
        bytes,
        rank_at + 4 + 8 * i,
    ) by {
        lemma_readers(bytes, rank_at + 4 + 8 * i);
    }
}

proof fn lemma_head_there(bytes: Seq<u8>, at: int, name: Seq<char>, dims: Seq<u64>)
    requires
        heads_record(bytes, at, name, dims),
        0 <= at,
    ensures
        head_at(bytes, at) == Ok::<HeadView, Seq<char>>(
            HeadView {
                name,
                dims,
                count: shape_product(dims),
                end: count_place(bytes, at) + 8,
            },
        ),
{
    let rank_at = at + 4 + u32_at(bytes, at);
    let rank = u32_at(bytes, rank_at);
    lemma_readers(bytes, at);
    lemma_readers(bytes, rank_at);
    lemma_readers(bytes, count_place(bytes, at));
    let read = Seq::new(rank as nat, |i: int| le_nat(bytes, rank_at + 4 + 8 * i, 8) as u64);
    assert forall|i: int| 0 <= i < rank implies #[trigger] read[i] == dims[i] by {
        lemma_readers(bytes, rank_at + 4 + 8 * i);
        assert(dims[i] == u64_at(bytes, rank_at + 4 + 8 * i));
    }
    assert(read =~= dims);
}

proof fn lemma_values_read(bytes: Seq<u8>, head: HeadView) -> (r: (int, int))
    requires
        values_at(bytes, head) is Ok,
        head.count >= 0,
    ensures
        ({
            let (values, end) = values_at(bytes, head)->Ok_0;
            &&& fills_record(bytes, head.end, values, r.0, r.1, end)
            &&& values.len() == head.count
        }),
{
    let (values, end) = values_at(bytes, head)->Ok_0;
    let at = head.end;
    lemma_readers(bytes, at);
    lemma_readers(bytes, at + 4);
    let width = u32_at(bytes, at);
    let len = u64_at(bytes, at + 4);
    let start = padded(bytes, at + 20, 64, head.name)->Ok_0;
    assert(start == at + 20 + (64 - (at + 20) % 64) % 64);
    if width == 16 {
        assert(len == head.count * 2);
    } else {
        assert(len == head.count * 4);
    }
    assert forall|i: int| 0 <= i < values.len() implies (#[trigger] values[i]) == weight_at(
        bytes,
        start + (width / 8) * i,
        width,
    ) by {
        lemma_readers(bytes, start + (width / 8) * i);
    }
    (width, start)
}

proof fn lemma_values_there(
    bytes: Seq<u8>,
    head: HeadView,
    values: Seq<i32>,
    width: int,
    start: int,
    end: int,
)
    requires
        fills_record(bytes, head.end, values, width, start, end),
        head.count == values.len(),
    ensures
        values_at(bytes, head) == Ok::<(Seq<i32>, int), Seq<char>>((values, end)),
{
    let at = head.end;
    let n = values.len() as int;
    lemma_readers(bytes, at);
    lemma_readers(bytes, at + 4);
    let len = end - start;
    assert(start == at + 20 + (64 - (at + 20) % 64) % 64);
    assert(padded(bytes, at + 20, 64, head.name) == Ok::<int, Seq<char>>(start));
    if width == 16 {
        let read = Seq::new((len / 2) as nat, |i: int| le_int(bytes, start + 2 * i, 2) as i32);
        assert(len == head.count * 2);
        assert forall|i: int| 0 <= i < n implies #[trigger] read[i] == values[i] by {
            lemma_readers(bytes, start + 2 * i);
            assert(values[i] == weight_at(bytes, start + (width / 8) * i, width));
        }
        assert(read =~= values);
    } else {
        let read = Seq::new((len / 4) as nat, |i: int| le_int(bytes, start + 4 * i, 4) as i32);
        assert(len == head.count * 4);
        assert forall|i: int| 0 <= i < n implies #[trigger] read[i] == values[i] by {
            lemma_readers(bytes, start + 4 * i);
            assert(values[i] == weight_at(bytes, start + (width / 8) * i, width));
        }
        assert(read =~= values);
    }
}

/// What is read as a record stands in the artifact as one.
pub proof fn a_record_read_stands_in_the_artifact(bytes: Seq<u8>, at: int)
    requires
        record_at(bytes, at) is Ok,
        0 <= at,
    ensures
        ({
            let (name, tensor, end) = record_at(bytes, at)->Ok_0;
            exists|width: int, start: int| stands_in(bytes, at, name, tensor, width, start, end)
        }),
{
    let (name, tensor, end) = record_at(bytes, at)->Ok_0;
    let head = head_at(bytes, at)->Ok_0;
    lemma_head_read(bytes, at);
    lemma_readers(bytes, count_place(bytes, at));
    let (width, start) = lemma_values_read(bytes, head);
    assert(stands_in(bytes, at, name, tensor, width, start, end));
}

/// What stands in an artifact as a record is read as it.
pub proof fn a_record_that_stands_there_is_read(
    bytes: Seq<u8>,
    at: int,
    name: Seq<char>,
    tensor: TensorView,
    width: int,
    start: int,
    end: int,
)
    requires
        0 <= at,
        stands_in(bytes, at, name, tensor, width, start, end),
    ensures
        record_at(bytes, at) == Ok::<(Seq<char>, TensorView, int), Seq<char>>((name, tensor, end)),
{
    lemma_head_there(bytes, at, name, tensor.dims);
    lemma_values_there(bytes, head_at(bytes, at)->Ok_0, tensor.values, width, start, end);
}

/// An artifact that is read starts with its magic, is of version two for the numeric
/// contract's version one, and has as many tensors as it says, no name twice.
pub proof fn an_artifact_read_has_its_header(bytes: Seq<u8>, path: Seq<char>)
    requires
        artifact_of(bytes, path) is Ok,
    ensures
        bytes.len() >= 24,
        bytes.take(8) == seq![68u8, 78u8, 87u8, 71u8, 84u8, 86u8, 48u8, 0u8],
        u32_at(bytes, 8) == 2,
        u32_at(bytes, 12) == 1,
        artifact_of(bytes, path)->Ok_0.dom().finite(),
        artifact_of(bytes, path)->Ok_0.len() == u64_at(bytes, 16),
{
    lemma_readers(bytes, 8);
    lemma_readers(bytes, 12);
    lemma_readers(bytes, 16);
    assert(bytes.subrange(0, 8) =~= bytes.take(8));
    lemma_records(bytes, 24, u64_at(bytes, 16) as nat, Map::empty());
}

proof fn lemma_records(bytes: Seq<u8>, at: int, count: nat, tensors: Map<Seq<char>, TensorView>)
    requires
        records_at(bytes, at, count, tensors) is Ok,
        tensors.dom().finite(),
    ensures
        records_at(bytes, at, count, tensors)->Ok_0.0.dom().finite(),
        records_at(bytes, at, count, tensors)->Ok_0.0.len() == tensors.len() + count,
        forall|name: Seq<char>| #[trigger]
            tensors.contains_key(name) ==> records_at(bytes, at, count, tensors)->Ok_0.0.contains_key(
                name,
            ) && records_at(bytes, at, count, tensors)->Ok_0.0[name] == tensors[name],
    decreases count,
{
    if count > 0 {
        let (name, tensor, end) = record_at(bytes, at)->Ok_0;
        let more = tensors.insert(name, tensor);
        lemma_records(bytes, end, (count - 1) as nat, more);
        assert forall|other: Seq<char>| #[trigger]
            tensors.contains_key(other) implies records_at(
            bytes,
            at,
            count,
            tensors,
        )->Ok_0.0.contains_key(other) && records_at(bytes, at, count, tensors)->Ok_0.0[other]
            == tensors[other] by {
            assert(more.contains_key(other));
        }
    }
}

/// The next record of a run is added under its name, and every tensor read before it
/// stays as it was.
pub proof fn a_record_is_added_under_its_name(
    bytes: Seq<u8>,
    at: int,
    count: nat,
    tensors: Map<Seq<char>, TensorView>,
)
    requires
        count > 0,
        tensors.dom().finite(),
        records_at(bytes, at, count, tensors) is Ok,
    ensures
        record_at(bytes, at) is Ok,
        ({
            let (name, tensor, end) = record_at(bytes, at)->Ok_0;
            let all = records_at(bytes, at, count, tensors)->Ok_0.0;
            &&& !tensors.contains_key(name)
            &&& all.contains_key(name)
            &&& all[name] == tensor
            &&& forall|other: Seq<char>| #[trigger]
                tensors.contains_key(other) ==> all.contains_key(other) && all[other]
                    == tensors[other]
        }),
{
    let (name, tensor, end) = record_at(bytes, at)->Ok_0;
    let more = tensors.insert(name, tensor);
    lemma_records(bytes, at, count, tensors);
    lemma_records(bytes, end, (count - 1) as nat, more);
    assert(more.contains_key(name));
}

} // verus!
