//! What an import makes of an artifact, tensor by tensor.

use crate::model_import::detwgt::{tensor_rows, TensorView};
use crate::model_import::detwgt;
use crate::model_import::externals::{
    candidates, embedding_values, first_missing, head_values, layer_of, leading_rows,
    leading_rows_are_leading_values, needed, ple_layer_values, ple_tensors_of,
};
use crate::model_import::shape::{a_whole_base_is_encoded_exactly, is_inv_sqrt, Scalars, ShapeView};
use crate::pages::{packed, region, standalone, PageView, RegionView, PAGE_SIZE};
use crate::prefill_range::input::TransformerLayer;
use crate::text::dec;
use vstd::prelude::*;

verus! {

/// The tensor of a layer's that has a name of its own.
pub open spec fn named(
    tensors: Map<Seq<char>, TensorView>,
    layer: nat,
    suffix: Seq<char>,
) -> TensorView {
    tensors["model.language_model.layers."@ + dec(layer) + "."@ + suffix]
}

/// Whether a layer has the tensor of a name of its own.
pub open spec fn present(
    tensors: Map<Seq<char>, TensorView>,
    layer: nat,
    suffix: Seq<char>,
) -> bool {
    tensors.contains_key("model.language_model.layers."@ + dec(layer) + "."@ + suffix)
}

/// Whether a page holds a tensor's values, little-endian, on its own.
pub open spec fn holds_vector(page: PageView, tensor: TensorView) -> bool {
    page == standalone(packed(tensor.values))
}

/// Whether a region holds a tensor's values, little-endian, page by page.
pub open spec fn holds_tensor(matrix: RegionView, tensor: TensorView) -> bool {
    matrix == region(packed(tensor.values), PAGE_SIZE)
}

/// Every norm and every matrix of an imported layer is the tensor that the model stores
/// under its name; a layer without values of its own uses its keys.
pub proof fn a_layer_gets_the_tensors_of_its_names(
    external: TransformerLayer,
    tensors: Map<Seq<char>, TensorView>,
    shape: ShapeView,
    scalars: Scalars,
    donors: (i32, i32),
    layer: nat,
)
    requires
        layer_of(external, tensors, shape, scalars, donors, layer),
    ensures
        holds_vector(external.params.norm_input@, named(tensors, layer, "input_layernorm.weight"@)),
        holds_vector(
            external.params.norm_post_attn@,
            named(tensors, layer, "post_attention_layernorm.weight"@),
        ),
        holds_vector(
            external.params.norm_pre_ffw@,
            named(tensors, layer, "pre_feedforward_layernorm.weight"@),
        ),
        holds_vector(
            external.params.norm_post_ffw@,
            named(tensors, layer, "post_feedforward_layernorm.weight"@),
        ),
        holds_vector(external.params.q_norm@, named(tensors, layer, "self_attn.q_norm.weight"@)),
        holds_vector(external.params.k_norm@, named(tensors, layer, "self_attn.k_norm.weight"@)),
        holds_vector(
            external.params.ple_post_norm@,
            named(tensors, layer, "post_per_layer_input_norm.weight"@),
        ),
        holds_tensor(external.w_q@, named(tensors, layer, "self_attn.q_proj.weight"@)),
        holds_tensor(external.w_k@, named(tensors, layer, "self_attn.k_proj.weight"@)),
        present(tensors, layer, "self_attn.v_proj.weight"@) ==> holds_tensor(
            external.w_v@,
            named(tensors, layer, "self_attn.v_proj.weight"@),
        ),
        !present(tensors, layer, "self_attn.v_proj.weight"@) ==> external.w_v@ == external.w_k@,
        holds_tensor(external.w_o@, named(tensors, layer, "self_attn.o_proj.weight"@)),
        holds_tensor(external.w_gate@, named(tensors, layer, "mlp.gate_proj.weight"@)),
        holds_tensor(external.w_up@, named(tensors, layer, "mlp.up_proj.weight"@)),
        holds_tensor(external.w_down@, named(tensors, layer, "mlp.down_proj.weight"@)),
        holds_tensor(
            external.ple_input_gate@,
            named(tensors, layer, "per_layer_input_gate.weight"@),
        ),
        holds_tensor(
            external.ple_layer_projection@,
            named(tensors, layer, "per_layer_projection.weight"@),
        ),
{
}

/// The numbers of an imported layer, for a model whose sizes fit 32 bits: its widths, the
/// window of a sliding layer, the inverse root of its head width as the scale of its
/// scores, its rotary parameters and its donors.
pub proof fn a_layer_gets_the_numbers_of_its_kind(
    external: TransformerLayer,
    tensors: Map<Seq<char>, TensorView>,
    shape: ShapeView,
    scalars: Scalars,
    donors: (i32, i32),
    layer: nat,
)
    requires
        layer_of(external, tensors, shape, scalars, donors, layer),
        layer <= u32::MAX,
        shape.hidden <= u32::MAX,
        shape.heads <= u32::MAX,
        shape.kv_heads <= u32::MAX,
        shape.head_dim <= u32::MAX,
        shape.global_head_dim <= u32::MAX,
        shape.ple_width <= u32::MAX,
        scalars.full_rotary_dim <= u32::MAX,
        0 <= scalars.rope_base_sliding < 0x8000_0000,
        0 <= scalars.rope_base_full < 0x8000_0000,
        named(tensors, layer, "mlp.gate_proj.weight"@).dims[0] <= u32::MAX,
    ensures
        ({
            let p = external.params;
            let sliding = layer < shape.layer_types.len() && shape.layer_types[layer as int]
                == "sliding_attention"@;
            &&& p.layer_idx == layer
            &&& p.hidden_size == shape.hidden
            &&& p.ffn_size == named(tensors, layer, "mlp.gate_proj.weight"@).dims[0]
            &&& p.num_heads == shape.heads
            &&& p.num_kv_heads == shape.kv_heads
            &&& p.ple_width == shape.ple_width
            &&& p.norm_eps == scalars.norm_eps
            &&& p.donor_a_layer == donors.0
            &&& p.donor_b_layer == donors.1
            &&& p.kv_donor_layer == shape.kv_donor_layer(layer as int)
            &&& is_inv_sqrt(p.head_dim as int, p.attn_scale as int)
            &&& p.rope_freq_base_dim == p.head_dim
            &&& sliding ==> p.head_dim == shape.head_dim && p.sliding_window
                == shape.sliding_window && p.rotary_dim == shape.head_dim && p.rope_base
                == scalars.rope_base_sliding * 0x1_0000_0000
            &&& !sliding ==> p.head_dim == shape.global_head_dim && p.sliding_window == 0
                && p.rotary_dim == scalars.full_rotary_dim && p.rope_base
                == scalars.rope_base_full * 0x1_0000_0000
            &&& present(tensors, layer, "layer_scalar"@) && named(
                tensors,
                layer,
                "layer_scalar"@,
            ).values.len() > 0 ==> p.layer_scalar == named(tensors, layer, "layer_scalar"@).values[0]
            &&& !present(tensors, layer, "layer_scalar"@) ==> p.layer_scalar == 0
        }),
{
    a_whole_base_is_encoded_exactly(scalars.rope_base_sliding);
    a_whole_base_is_encoded_exactly(scalars.rope_base_full);
}

/// A layer is imported exactly if it has every tensor that it needs.
pub proof fn a_layer_needs_its_tensors(tensors: Map<Seq<char>, TensorView>, layer: nat)
    ensures
        first_missing(tensors, layer, needed(tensors, layer)) is None <==> {
            &&& present(tensors, layer, "input_layernorm.weight"@)
            &&& present(tensors, layer, "post_attention_layernorm.weight"@)
            &&& present(tensors, layer, "pre_feedforward_layernorm.weight"@)
            &&& present(tensors, layer, "post_feedforward_layernorm.weight"@)
            &&& present(tensors, layer, "post_per_layer_input_norm.weight"@)
            &&& present(tensors, layer, "self_attn.q_norm.weight"@)
            &&& present(tensors, layer, "self_attn.k_norm.weight"@)
            &&& present(tensors, layer, "self_attn.q_proj.weight"@)
            &&& present(tensors, layer, "self_attn.k_proj.weight"@)
            &&& present(tensors, layer, "self_attn.o_proj.weight"@)
            &&& present(tensors, layer, "mlp.gate_proj.weight"@)
            &&& present(tensors, layer, "mlp.up_proj.weight"@)
            &&& present(tensors, layer, "mlp.down_proj.weight"@)
            &&& present(tensors, layer, "per_layer_input_gate.weight"@)
            &&& present(tensors, layer, "per_layer_projection.weight"@)
        },
        first_missing(tensors, layer, needed(tensors, layer)) matches Some(suffix) ==> !present(
            tensors,
            layer,
            suffix,
        ),
{
    let names = needed(tensors, layer);
    lemma_first_missing(tensors, layer, names);
    if first_missing(tensors, layer, names) is None {
        assert(names.len() == 16);
        assert(present(tensors, layer, names[0]));
        assert(present(tensors, layer, names[2]));
        assert(present(tensors, layer, names[3]));
        assert(present(tensors, layer, names[4]));
        assert(present(tensors, layer, names[5]));
        assert(present(tensors, layer, names[6]));
        assert(present(tensors, layer, names[7]));
        assert(present(tensors, layer, names[8]));
        assert(present(tensors, layer, names[9]));
        assert(present(tensors, layer, names[10]));
        assert(present(tensors, layer, names[11]));
        assert(present(tensors, layer, names[12]));
        assert(present(tensors, layer, names[13]));
        assert(present(tensors, layer, names[14]));
        assert(present(tensors, layer, names[15]));
    }
}

proof fn lemma_first_missing(
    tensors: Map<Seq<char>, TensorView>,
    layer: nat,
    suffixes: Seq<Seq<char>>,
)
    ensures
        match first_missing(tensors, layer, suffixes) {
            None => forall|k: int|
                0 <= k < suffixes.len() ==> present(tensors, layer, #[trigger] suffixes[k]),
            Some(suffix) => suffixes.contains(suffix) && !present(tensors, layer, suffix),
        },
    decreases suffixes.len(),
{
    if suffixes.len() > 0 && present(tensors, layer, suffixes[0]) {
        let rest = suffixes.drop_first();
        lemma_first_missing(tensors, layer, rest);
        match first_missing(tensors, layer, rest) {
            None => {
                assert forall|k: int| 0 <= k < suffixes.len() implies present(
                    tensors,
                    layer,
                    #[trigger] suffixes[k],
                ) by {
                    if k > 0 {
                        assert(suffixes[k] == rest[k - 1]);
                    }
                }
            },
            Some(suffix) => {
                let k = rest.index_of(suffix);
                assert(suffixes[k + 1] == suffix);
            },
        }
    } else if suffixes.len() > 0 {
        assert(suffixes.contains(suffixes[0]));
    }
}

/// The leading rows of a tensor can be had exactly if it has that many, and they are its
/// leading values.
pub proof fn leading_rows_are_there_or_not(t: TensorView, n: nat)
    requires
        n > 0,
    ensures
        leading_rows(t, n) is Ok <==> t.dims.len() > 0 && n * t.dims.last() <= t.values.len(),
        leading_rows(t, n) matches Ok(rows) ==> rows == t.values.take(n * t.dims.last()),
    decreases n,
{
    let before = (n - 1) as nat;
    if before > 0 {
        leading_rows_are_there_or_not(t, before);
    } else {
        assert(leading_rows(t, before) == Ok::<Seq<i32>, Seq<char>>(Seq::empty()));
    }
    if t.dims.len() > 0 {
        let cols = t.dims.last() as int;
        assert(before * cols + cols == n * cols && 0 <= before * cols) by (nonlinear_arith)
            requires
                before == n - 1,
                before >= 0,
                cols >= 0,
        ;
        assert((n - 1) * cols == before * cols && n as int * cols == n * cols);
        if leading_rows(t, n) is Ok {
            leading_rows_are_leading_values(t, n);
        }
    }
}

/// The embedding table is imported out of the embedding tensor: its first rows, one for
/// every token of the vocabulary.
pub proof fn the_embedding_table_is_the_embedding_tensor(
    tensors: Map<Seq<char>, TensorView>,
    shape: ShapeView,
)
    requires
        shape.vocab > 0,
    ensures
        ({
            let t = tensors["model.language_model.embed_tokens.weight"@];
            &&& embedding_values(tensors, shape) is Ok <==> tensors.contains_key(
                "model.language_model.embed_tokens.weight"@,
            ) && t.dims.len() > 0 && shape.vocab * t.dims.last() <= t.values.len()
            &&& embedding_values(tensors, shape) matches Ok(values) ==> values == t.values.take(
                shape.vocab * t.dims.last(),
            )
        }),
{
    leading_rows_are_there_or_not(
        tensors["model.language_model.embed_tokens.weight"@],
        shape.vocab as nat,
    );
}

/// A tied head scores with the embedding tensor, any other with the head tensor; either
/// way with one row for every token of the vocabulary, behind the final norm.
pub proof fn the_head_is_tied_or_its_own(
    tensors: Map<Seq<char>, TensorView>,
    shape: ShapeView,
    tied: bool,
)
    requires
        shape.vocab > 0,
        head_values(tensors, shape, tied) is Ok,
    ensures
        ({
            let (rows, norm) = head_values(tensors, shape, tied)->Ok_0;
            let embed = tensors["model.language_model.embed_tokens.weight"@];
            let head = tensors["model.language_model.lm_head.weight"@];
            &&& norm == tensors["model.language_model.norm.weight"@].values
            &&& tied ==> rows == embed.values.take(shape.vocab * embed.dims.last())
            &&& !tied ==> rows == head.values.take(shape.vocab * head.dims.last())
        }),
{
    leading_rows_are_there_or_not(
        tensors["model.language_model.embed_tokens.weight"@],
        shape.vocab as nat,
    );
    leading_rows_are_there_or_not(
        tensors["model.language_model.lm_head.weight"@],
        shape.vocab as nat,
    );
}

/// The per-layer embeddings come from three tensors, each under its name.
pub proof fn per_layer_embeddings_have_their_tensors(tensors: Map<Seq<char>, TensorView>)
    ensures
        ({
            let table = "model.language_model.embed_tokens_per_layer.weight"@;
            let projection = "model.language_model.per_layer_model_projection.weight"@;
            let norm = "model.language_model.per_layer_projection_norm.weight"@;
            &&& ple_tensors_of(tensors) is Ok <==> tensors.contains_key(table)
                && tensors.contains_key(projection) && tensors.contains_key(norm)
            &&& ple_tensors_of(tensors) matches Ok(found) ==> found.0 == tensors[table]
                && found.1 == tensors[projection] && found.2 == tensors[norm]
        }),
{
}

/// A layer's slice of the packed table is its own columns of every row, and its part of
/// the projection is its own rows.
pub proof fn a_layer_gets_its_columns_and_rows(
    per_layer: TensorView,
    projection: TensorView,
    width: int,
    layer: int,
)
    requires
        width > 0,
        layer >= 0,
        ple_layer_values(per_layer, projection, width, layer) is Ok,
    ensures
        ({
            let (slice, rows) = ple_layer_values(per_layer, projection, width, layer)->Ok_0;
            let cols = per_layer.dims.last() as int;
            let n = per_layer.values.len() as int / cols;
            let wide = projection.dims.last() as int;
            &&& layer * width + width <= cols
            &&& slice.len() == n * width
            &&& forall|r: int, j: int|
                #![trigger slice[r * width + j]]
                0 <= r < n && 0 <= j < width ==> slice[r * width + j] == per_layer.values[r * cols
                    + layer * width + j]
            &&& rows.len() == width * wide
            &&& forall|j: int|
                0 <= j < rows.len() ==> (#[trigger] rows[j]) == projection.values[layer * width
                    * wide + j]
        }),
{
    let cols = per_layer.dims.last() as int;
    let n = per_layer.values.len() as int / cols;
    let wide = projection.dims.last() as int;
    let start = layer * width;
    let (slice, rows) = ple_layer_values(per_layer, projection, width, layer)->Ok_0;
    assert(start >= 0) by (nonlinear_arith)
        requires
            layer >= 0,
            width > 0,
            start == layer * width,
    ;
    assert(n >= 0 && n * cols <= per_layer.values.len()) by (nonlinear_arith)
        requires
            cols > 0,
            n == per_layer.values.len() as int / cols,
            per_layer.values.len() >= 0,
    ;
    columns_are_cut_out_of_every_row(per_layer.values, cols, start, start + width, n as nat);
    assert((start + width) * wide - start * wide == width * wide) by (nonlinear_arith);
}

/// A column slice has, row by row, the lanes of the columns that it was asked for.
pub proof fn columns_are_cut_out_of_every_row(
    values: Seq<i32>,
    cols: int,
    start: int,
    end: int,
    rows: nat,
)
    requires
        0 <= start <= end <= cols,
        rows * cols <= values.len(),
    ensures
        detwgt::columns(values, cols, start, end, rows).len() == rows * (end - start),
        forall|r: int, j: int|
            #![trigger detwgt::columns(values, cols, start, end, rows)[r * (end - start) + j]]
            0 <= r < rows && 0 <= j < end - start ==> detwgt::columns(
                values,
                cols,
                start,
                end,
                rows,
            )[r * (end - start) + j] == values[r * cols + start + j],
    decreases rows,
{
    let width = end - start;
    let all = detwgt::columns(values, cols, start, end, rows);
    if rows > 0 {
        let k = rows - 1;
        assert(k * cols + cols == rows * cols && 0 <= k * cols) by (nonlinear_arith)
            requires
                k == rows - 1,
                k >= 0,
                cols >= 0,
        ;
        columns_are_cut_out_of_every_row(values, cols, start, end, k as nat);
        let rest = detwgt::columns(values, cols, start, end, k as nat);
        assert(k * width + width == rows * width) by (nonlinear_arith)
            requires
                k == rows - 1,
        ;
        assert forall|r: int, j: int|
            #![trigger all[r * width + j]]
            0 <= r < rows && 0 <= j < width implies all[r * width + j] == values[r * cols + start
            + j] by {
            if r < k {
                assert(0 <= r * width && r * width + width <= k * width) by (nonlinear_arith)
                    requires
                        0 <= r < k,
                        width >= 0,
                ;
                assert(all[r * width + j] == rest[r * width + j]);
            } else {
                assert(r == k);
                assert(r * width == k * width && r * cols == k * cols);
                assert(all[r * width + j] == values.subrange(k * cols + start, k * cols + end)[j]);
            }
        }
    } else {
        assert(rows * width == 0) by (nonlinear_arith)
            requires
                rows == 0,
        ;
    }
}

/// Rows of a tensor are its own lanes from the first of them to the last.
pub proof fn rows_are_consecutive(t: TensorView, start: int, end: int, message: Seq<char>)
    ensures
        tensor_rows(t, start, end, message) is Ok <==> t.dims.len() > 0 && start * (
        t.dims.last() as int) <= end * (t.dims.last() as int) <= t.values.len(),
        start >= 0 ==> (tensor_rows(t, start, end, message) matches Ok(rows) ==> {
            &&& rows.len() == (end - start) * t.dims.last()
            &&& forall|i: int|
                0 <= i < rows.len() ==> (#[trigger] rows[i]) == t.values[start * t.dims.last() + i]
        }),
        t.dims.len() > 0 ==> (tensor_rows(t, start, end, message) matches Err(e) ==> e == message),
{
    if t.dims.len() > 0 {
        let cols = t.dims.last() as int;
        assert(end * cols - start * cols == (end - start) * cols) by (nonlinear_arith);
        assert(start >= 0 ==> 0 <= start * cols) by (nonlinear_arith)
            requires
                cols >= 0,
        ;
    }
}

/// The two donor slots hold the donors; a slot without one names no layer and is not the
/// mark of a layer that owns its cache. A third donor is refused.
pub proof fn donor_slots_hold_the_donors(donors: Seq<i32>)
    ensures
        candidates(donors) is Err <==> donors.len() > 2,
        candidates(donors) matches Ok(slots) ==> {
            &&& donors.len() >= 1 ==> slots.0 == donors[0]
            &&& donors.len() == 2 ==> slots.1 == donors[1]
            &&& donors.len() < 1 ==> slots.0 < -1
            &&& donors.len() < 2 ==> slots.1 < -1
            &&& donors.len() < 1 ==> slots.0 != slots.1
        },
{
}

/// A slice of columns can be had exactly if the tensor is as wide as it reaches.
pub proof fn columns_are_there_or_not(t: TensorView, start: int, end: int)
    ensures
        detwgt::tensor_columns(t, start, end) is Ok <==> t.dims.len() > 0 && end <= t.dims.last(),
{
}

/// A tensor is found exactly under its own name, and a missing one is named.
pub proof fn a_tensor_is_found_under_its_name(
    tensors: Map<Seq<char>, TensorView>,
    name: Seq<char>,
)
    ensures
        tensors.contains_key(name) ==> detwgt::tensor_of(tensors, name) == Ok::<
            TensorView,
            Seq<char>,
        >(tensors[name]),
        !tensors.contains_key(name) ==> detwgt::tensor_of(tensors, name) == Err::<
            TensorView,
            Seq<char>,
        >("model artifact has no tensor '"@ + name + "'"@),
{
}

} // verus!
