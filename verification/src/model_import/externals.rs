//! The committed externals of every stage, out of a weight artifact.
//!
//! Every value crosses over unchanged: the artifact stores the Q16.16 bits in which
//! the stages compute.

use crate::activations::{ActivationsView, RowView};
use crate::input_embedding::{a_known_token_gets_its_row, embedded, EmbeddingTable};
use crate::numerics::scaled;
use crate::matvec::matrix_row;
use crate::model_import::detwgt::{
    row_message, rows_message, tensor_columns, tensor_of, tensor_rows, Artifact, Tensor, TensorView,
};
use crate::model_import::shape::{
    inv_sqrt_q16, is_inv_sqrt, low32, rope_of, Scalars, Shape, ShapeView,
};
use crate::pages::{pack_i32s, packed, region, standalone, Bytes, BytesPage, PAGE_SIZE};
use crate::prefill_finalize::{FinalHead, FinalHeadParams};
use crate::prefill_prepare_aux::{PleLayer, PleLayerParams};
use crate::prefill_range::input::{LayerParams, TransformerLayer};
use crate::text::{dec, decimal, outcome};
use vstd::prelude::*;
use vstd::slice::slice_to_vec;

verus! {

/// Packs Q16.16 values as little-endian bytes.
pub fn pack_i32_bytes(values: &[i32]) -> (r: Vec<u8>)
    ensures
        r@ == packed(values@),
{
    pack_i32s(values).bytes
}

/// A vector as a standalone page.
pub fn page_of_i32s(values: &[i32]) -> (r: BytesPage)
    ensures
        r@ == standalone(packed(values@)),
{
    pack_i32s(values)
}

/// A matrix as a region of pages.
pub fn paged_i32s(values: &[i32]) -> (r: Bytes)
    ensures
        r@ == region(packed(values@), PAGE_SIZE),
{
    let bytes: Vec<u8> = pack_i32_bytes(values);
    Bytes::paged(bytes.as_slice(), PAGE_SIZE)
}

/// The first `n` rows of a tensor, flattened, or why a row is missing.
pub open spec fn leading_rows(t: TensorView, n: nat) -> Result<Seq<i32>, Seq<char>>
    decreases n,
{
    if n == 0 {
        Ok(Seq::empty())
    } else {
        match leading_rows(t, (n - 1) as nat) {
            Err(e) => Err(e),
            Ok(rows) => match tensor_rows(t, n - 1, n as int, row_message((n - 1) as nat)) {
                Err(e) => Err(e),
                Ok(row) => Ok(rows + row),
            },
        }
    }
}

/// The leading rows of a tensor are the leading values of it.
pub proof fn leading_rows_are_leading_values(t: TensorView, n: nat)
    requires
        leading_rows(t, n) is Ok,
        t.dims.len() > 0,
    ensures
        n * t.dims.last() <= t.values.len(),
        leading_rows(t, n)->Ok_0 == t.values.take(n * t.dims.last()),
    decreases n,
{
    let cols = t.dims.last() as int;
    if n > 0 {
        let rest = leading_rows(t, (n - 1) as nat);
        assert(rest is Ok);
        leading_rows_are_leading_values(t, (n - 1) as nat);
        assert((n - 1) * cols + cols == n * cols) by (nonlinear_arith);
        assert(0 <= (n - 1) * cols) by (nonlinear_arith)
            requires
                n >= 1,
                cols >= 0,
        ;
        assert(leading_rows(t, n)->Ok_0 =~= t.values.take(n * cols));
    } else {
        assert(0 * cols == 0);
        assert(t.values.take(0) =~= Seq::empty());
    }
}

fn rows_up_to(tensor: &Tensor, n: u64) -> (r: Result<Vec<i32>, String>)
    requires
        n <= usize::MAX,
    ensures
        outcome(r, leading_rows(tensor@, n as nat)),
{
    let mut values: Vec<i32> = Vec::new();
    let mut idx: usize = 0;
    while idx < n as usize
        invariant
            idx <= n <= usize::MAX,
            leading_rows(tensor@, idx as nat) == Ok::<Seq<i32>, Seq<char>>(values@),
        decreases n - idx,
    {
        match tensor.row(idx) {
            Ok(row) => {
                let mut piece: Vec<i32> = slice_to_vec(row);
                values.append(&mut piece);
                proof {
                    assert(leading_rows(tensor@, (idx + 1) as nat) is Ok);
                }
            },
            Err(e) => {
                proof {
                    lemma_stays_failed(tensor@, (idx + 1) as nat, n as nat);
                }
                return Err(e);
            },
        }
        idx += 1;
    }
    Ok(values)
}

proof fn lemma_stays_failed(t: TensorView, k: nat, n: nat)
    requires
        k <= n,
        leading_rows(t, k) is Err,
    ensures
        leading_rows(t, n) == leading_rows(t, k),
    decreases n,
{
    if k < n {
        lemma_stays_failed(t, k, (n - 1) as nat);
    }
}

/// The embedding table of an artifact, or why it has none.
pub open spec fn embedding_values(tensors: Map<Seq<char>, TensorView>, shape: ShapeView) -> Result<
    Seq<i32>,
    Seq<char>,
> {
    match tensor_of(tensors, "model.language_model.embed_tokens.weight"@) {
        Ok(embed) => leading_rows(embed, shape.vocab as nat),
        Err(e) => Err(e),
    }
}

/// The external of the embedding stages.
pub fn embedding_external(weights: &Artifact, shape: &Shape, scalars: &Scalars) -> (r: Result<
    EmbeddingTable,
    String,
>)
    requires
        shape.vocab <= usize::MAX,
    ensures
        match embedding_values(weights.tensors(), shape@) {
            Ok(values) => r matches Ok(table) && table.hidden_size == low32(shape.hidden)
                && table.embedding_scale == scalars.embedding_scale && table.values@ == region(
                packed(values),
                PAGE_SIZE,
            ),
            Err(e) => r matches Err(s) && s@ == e,
        },
{
    let embed: &Tensor = match weights.get("model.language_model.embed_tokens.weight") {
        Ok(tensor) => tensor,
        Err(e) => return Err(e),
    };
    let values: Vec<i32> = match rows_up_to(embed, shape.vocab) {
        Ok(values) => values,
        Err(e) => return Err(e),
    };
    Ok(
        EmbeddingTable {
            hidden_size: (shape.hidden % 0x1_0000_0000) as u32,
            embedding_scale: scalars.embedding_scale,
            values: paged_i32s(values.as_slice()),
        },
    )
}

/// The tensors that the per-layer embeddings of every layer come from.
pub struct PleTensors<'a> {
    pub per_layer: &'a Tensor,
    pub projection: &'a Tensor,
    pub projection_norm: &'a Tensor,
}

/// The three tensors, or the message for the first that is missing.
pub open spec fn ple_tensors_of(tensors: Map<Seq<char>, TensorView>) -> Result<
    (TensorView, TensorView, TensorView),
    Seq<char>,
> {
    match tensor_of(tensors, "model.language_model.embed_tokens_per_layer.weight"@) {
        Err(e) => Err(e),
        Ok(per_layer) => match tensor_of(
            tensors,
            "model.language_model.per_layer_model_projection.weight"@,
        ) {
            Err(e) => Err(e),
            Ok(projection) => match tensor_of(
                tensors,
                "model.language_model.per_layer_projection_norm.weight"@,
            ) {
                Err(e) => Err(e),
                Ok(norm) => Ok((per_layer, projection, norm)),
            },
        },
    }
}

/// Finds the tensors that the per-layer embeddings come from.
pub fn ple_tensors(weights: &Artifact) -> (r: Result<PleTensors, String>)
    ensures
        match ple_tensors_of(weights.tensors()) {
            Ok((per_layer, projection, norm)) => r matches Ok(t) && t.per_layer@ == per_layer
                && t.projection@ == projection && t.projection_norm@ == norm,
            Err(e) => r matches Err(s) && s@ == e,
        },
{
    let per_layer: &Tensor = match weights.get(
        "model.language_model.embed_tokens_per_layer.weight",
    ) {
        Ok(tensor) => tensor,
        Err(e) => return Err(e),
    };
    let projection: &Tensor = match weights.get(
        "model.language_model.per_layer_model_projection.weight",
    ) {
        Ok(tensor) => tensor,
        Err(e) => return Err(e),
    };
    let projection_norm: &Tensor = match weights.get(
        "model.language_model.per_layer_projection_norm.weight",
    ) {
        Ok(tensor) => tensor,
        Err(e) => return Err(e),
    };
    Ok(PleTensors { per_layer, projection, projection_norm })
}

/// A layer's slice of the packed embedding table and its rows of the projection, or
/// why one is missing.
pub open spec fn ple_layer_values(
    per_layer: TensorView,
    projection: TensorView,
    width: int,
    layer: int,
) -> Result<(Seq<i32>, Seq<i32>), Seq<char>> {
    let start = layer * width;
    let end = start + width;
    match tensor_columns(per_layer, start, end) {
        Err(e) => Err(e),
        Ok(slice) => match tensor_rows(
            projection,
            start,
            end,
            rows_message(start as nat, end as nat),
        ) {
            Err(e) => Err(e),
            Ok(rows) => Ok((slice, rows)),
        },
    }
}

/// The external of the per-layer-embedding stage of one layer.
pub fn ple_layer_external(
    tensors: &PleTensors,
    shape: &Shape,
    scalars: &Scalars,
    layer_idx: usize,
) -> (r: Result<PleLayer, String>)
    requires
        layer_idx * shape.ple_width + shape.ple_width <= usize::MAX,
        tensors.per_layer@.dims.len() > 0 && tensors.per_layer@.dims.last() == 0
            ==> shape.ple_width > 0,
    ensures
        match ple_layer_values(
            tensors.per_layer@,
            tensors.projection@,
            shape.ple_width as int,
            layer_idx as int,
        ) {
            Ok((slice, rows)) => {
                &&& r is Ok
                &&& r->Ok_0.params.layer_idx == low32(layer_idx as u64)
                &&& r->Ok_0.params.hidden_size == low32(shape.hidden)
                &&& r->Ok_0.params.ple_width == low32(shape.ple_width)
                &&& r->Ok_0.params.embedding_scale == scalars.ple_embedding_scale
                &&& r->Ok_0.params.projection_scalar == scalars.projection_scalar
                &&& r->Ok_0.params.input_scale == scalars.input_scale
                &&& r->Ok_0.params.norm_eps == scalars.norm_eps
                &&& r->Ok_0.params.norm_weights@ == standalone(
                    packed(tensors.projection_norm@.values),
                )
                &&& r->Ok_0.embeddings@ == region(packed(slice), PAGE_SIZE)
                &&& r->Ok_0.projection@ == region(packed(rows), PAGE_SIZE)
            },
            Err(e) => r matches Err(s) && s@ == e,
        },
{
    let width: usize = {
        assert(0 <= layer_idx * shape.ple_width) by (nonlinear_arith);
        shape.ple_width as usize
    };
    let start: usize = layer_idx * width;
    let end: usize = start + width;
    let slice: Vec<i32> = match tensors.per_layer.column_slice(start, end) {
        Ok(values) => values,
        Err(e) => return Err(e),
    };
    let rows: Vec<i32> = match tensors.projection.rows(start, end) {
        Ok(values) => values,
        Err(e) => return Err(e),
    };
    Ok(
        PleLayer {
            params: PleLayerParams {
                layer_idx: (layer_idx as u64 % 0x1_0000_0000) as u32,
                hidden_size: (shape.hidden % 0x1_0000_0000) as u32,
                ple_width: (shape.ple_width % 0x1_0000_0000) as u32,
                embedding_scale: scalars.ple_embedding_scale,
                projection_scalar: scalars.projection_scalar,
                input_scale: scalars.input_scale,
                norm_eps: scalars.norm_eps,
                norm_weights: page_of_i32s(tensors.projection_norm.values.as_slice()),
            },
            embeddings: paged_i32s(slice.as_slice()),
            projection: paged_i32s(rows.as_slice()),
        },
    )
}

/// Whether a layer is the donor of another.
pub open spec fn is_donor_layer(shape: ShapeView, donor: i32) -> bool {
    donor >= 0 && exists|idx: int|
        0 <= idx < shape.layers && #[trigger] shape.kv_donor_layer(idx) == donor
}

/// Layers in ascending order, without repetition.
pub open spec fn ascending_layers(layers: Seq<i32>) -> bool {
    forall|i: int, j: int| 0 <= i < j < layers.len() ==> layers[i] < layers[j]
}

fn add_layer(layers: &mut Vec<i32>, layer: i32)
    requires
        ascending_layers(old(layers)@),
    ensures
        ascending_layers(final(layers)@),
        forall|x: i32| #[trigger]
            final(layers)@.contains(x) <==> old(layers)@.contains(x) || x == layer,
{
    let ghost before = layers@;
    let mut k: usize = 0;
    while k < layers.len() && layers[k] < layer
        invariant
            k <= layers@.len(),
            layers@ == before,
            ascending_layers(before),
            forall|j: int| 0 <= j < k ==> before[j] < layer,
        decreases layers@.len() - k,
    {
        k += 1;
    }
    if k < layers.len() && layers[k] == layer {
        assert(before.contains(layer));
        return ;
    }
    layers.insert(k, layer);
    proof {
        assert forall|x: i32| #[trigger]
            layers@.contains(x) <==> before.contains(x) || x == layer by {
            if before.contains(x) {
                let j = before.index_of(x);
                if j < k {
                    assert(layers@[j] == x);
                } else {
                    assert(layers@[j + 1] == x);
                }
            }
            if x == layer {
                assert(layers@[k as int] == x);
            }
            if layers@.contains(x) && x != layer {
                let j = layers@.index_of(x);
                if j < k {
                    assert(before[j] == x);
                } else {
                    assert(before[j - 1] == x);
                }
            }
        }
        assert forall|i: int, j: int| 0 <= i < j < layers@.len() implies layers@[i] < layers@[j] by {
            if k < before.len() {
                assert(layer < before[k as int]);
            }
            assert(forall|m: int| k <= m < before.len() ==> layer < #[trigger] before[m]);
        }
    }
}

/// The donor layers of a model, in ascending order.
pub fn donor_layers(shape: &Shape) -> (r: Vec<i32>)
    requires
        shape.layers <= usize::MAX,
    ensures
        ascending_layers(r@),
        forall|donor: i32| #[trigger] r@.contains(donor) <==> is_donor_layer(shape@, donor),
{
    let mut donors: Vec<i32> = Vec::new();
    let mut idx: usize = 0;
    while idx < shape.layers as usize
        invariant
            idx <= shape.layers <= usize::MAX,
            ascending_layers(donors@),
            forall|donor: i32| #[trigger]
                donors@.contains(donor) <==> donor >= 0 && exists|i: int|
                    0 <= i < idx && #[trigger] shape@.kv_donor_layer(i) == donor,
        decreases shape.layers - idx,
    {
        let donor: i32 = shape.kv_donor_layer(idx);
        if donor >= 0 {
            add_layer(&mut donors, donor);
        }
        assert(shape@.kv_donor_layer(idx as int) == donor);
        idx += 1;
    }
    donors
}

/// The two donor candidates that every layer carries, or why they do not fit. Unused
/// slots are negative values other than `-1`.
pub open spec fn candidates(donors: Seq<i32>) -> Result<(i32, i32), Seq<char>> {
    if donors.len() > 2 {
        Err(
            "this chain supports at most two KV donor candidates, model declares "@ + dec(
                donors.len(),
            ),
        )
    } else {
        Ok(
            (
                if donors.len() > 0 {
                    donors[0]
                } else {
                    (-2) as i32
                },
                if donors.len() > 1 {
                    donors[1]
                } else {
                    (-3) as i32
                },
            ),
        )
    }
}

/// The two donor candidates that every layer carries.
pub fn donor_candidates(donors: &Vec<i32>) -> (r: Result<(i32, i32), String>)
    ensures
        match candidates(donors@) {
            Ok(pair) => r == Ok::<(i32, i32), String>(pair),
            Err(e) => r matches Err(s) && s@ == e,
        },
{
    if donors.len() > 2 {
        return Err(
            String::from_str(
                "this chain supports at most two KV donor candidates, model declares ",
            ).concat(decimal(donors.len() as u64).as_str()),
        );
    }
    let a: i32 = if donors.len() > 0 {
        donors[0]
    } else {
        -2
    };
    let b: i32 = if donors.len() > 1 {
        donors[1]
    } else {
        -3
    };
    Ok((a, b))
}

/// A borrowing layer finds its donor among the two candidates.
pub proof fn a_borrower_finds_its_donor(shape: ShapeView, donors: Seq<i32>, idx: int)
    requires
        0 <= idx < shape.layers,
        shape.borrows(idx),
        shape.first_shared() <= i32::MAX,
        forall|donor: i32| #[trigger] donors.contains(donor) <==> is_donor_layer(shape, donor),
        candidates(donors) is Ok,
    ensures
        shape.kv_donor_layer(idx) == candidates(donors)->Ok_0.0 || shape.kv_donor_layer(idx)
            == candidates(donors)->Ok_0.1,
{
    crate::model_import::shape::a_donor_owns_its_keys(shape, idx);
    let donor = shape.kv_donor_layer(idx);
    assert(is_donor_layer(shape, donor));
    assert(donors.contains(donor));
    let k = donors.index_of(donor);
    assert(donors[k] == donor);
}

/// A model of at most two attention types has at most two donor layers.
pub proof fn two_attention_types_need_two_donors(
    shape: ShapeView,
    donors: Seq<i32>,
    a: Seq<char>,
    b: Seq<char>,
)
    requires
        forall|i: int|
            0 <= i < shape.layer_types.len() ==> #[trigger] shape.layer_types[i] == a
                || shape.layer_types[i] == b,
        ascending_layers(donors),
        forall|donor: i32| #[trigger] donors.contains(donor) <==> is_donor_layer(shape, donor),
    ensures
        donors.len() <= 2,
        candidates(donors) is Ok,
{
    if donors.len() > 2 {
        assert(donors.contains(donors[0]) && donors.contains(donors[1]) && donors.contains(
            donors[2],
        ));
        let i0 = choose|idx: int|
            0 <= idx < shape.layers && #[trigger] shape.kv_donor_layer(idx) == donors[0];
        let i1 = choose|idx: int|
            0 <= idx < shape.layers && #[trigger] shape.kv_donor_layer(idx) == donors[1];
        let i2 = choose|idx: int|
            0 <= idx < shape.layers && #[trigger] shape.kv_donor_layer(idx) == donors[2];
        assert(shape.borrows(i0) && shape.borrows(i1) && shape.borrows(i2));
        let t0 = shape.layer_types[i0];
        let t1 = shape.layer_types[i1];
        let t2 = shape.layer_types[i2];
        assert(t0 == t1 || t0 == t2 || t1 == t2);
        if t0 == t1 {
            crate::model_import::shape::one_donor_per_attention_type(shape, i0, i1);
        } else if t0 == t2 {
            crate::model_import::shape::one_donor_per_attention_type(shape, i0, i2);
        } else {
            crate::model_import::shape::one_donor_per_attention_type(shape, i1, i2);
        }
    }
}

/// The name of one of a layer's tensors.
pub open spec fn layer_tensor(layer: nat, suffix: Seq<char>) -> Seq<char> {
    "model.language_model.layers."@ + dec(layer) + "."@ + suffix
}

/// The values of one of a layer's tensors.
pub open spec fn layer_values(
    tensors: Map<Seq<char>, TensorView>,
    layer: nat,
    suffix: Seq<char>,
) -> Seq<i32> {
    tensors[layer_tensor(layer, suffix)].values
}

/// Whether a layer has one of its tensors.
pub open spec fn has_tensor(
    tensors: Map<Seq<char>, TensorView>,
    layer: nat,
    suffix: Seq<char>,
) -> bool {
    tensors.contains_key(layer_tensor(layer, suffix))
}

/// The tensors that every layer needs, in the order in which they are looked up. A
/// layer that stores no values uses its keys.
pub open spec fn needed(tensors: Map<Seq<char>, TensorView>, layer: nat) -> Seq<Seq<char>> {
    seq![
        "mlp.gate_proj.weight"@,
        if has_tensor(tensors, layer, "self_attn.v_proj.weight"@) {
            "self_attn.v_proj.weight"@
        } else {
            "self_attn.k_proj.weight"@
        },
        "input_layernorm.weight"@,
        "post_attention_layernorm.weight"@,
        "pre_feedforward_layernorm.weight"@,
        "post_feedforward_layernorm.weight"@,
        "self_attn.q_norm.weight"@,
        "self_attn.k_norm.weight"@,
        "post_per_layer_input_norm.weight"@,
        "self_attn.q_proj.weight"@,
        "self_attn.k_proj.weight"@,
        "self_attn.o_proj.weight"@,
        "mlp.up_proj.weight"@,
        "per_layer_input_gate.weight"@,
        "per_layer_projection.weight"@,
        "mlp.down_proj.weight"@,
    ]
}

/// Which of a layer's needed tensors is missing first.
pub open spec fn first_missing(
    tensors: Map<Seq<char>, TensorView>,
    layer: nat,
    suffixes: Seq<Seq<char>>,
) -> Option<Seq<char>>
    decreases suffixes.len(),
{
    if suffixes.len() == 0 {
        None
    } else if !has_tensor(tensors, layer, suffixes[0]) {
        Some(suffixes[0])
    } else {
        first_missing(tensors, layer, suffixes.drop_first())
    }
}

/// A layer's scalar: the first value of its tensor, zero where it has none.
pub open spec fn layer_scalar_of(tensors: Map<Seq<char>, TensorView>, layer: nat) -> i32 {
    if has_tensor(tensors, layer, "layer_scalar"@) && layer_values(
        tensors,
        layer,
        "layer_scalar"@,
    ).len() > 0 {
        layer_values(tensors, layer, "layer_scalar"@)[0]
    } else {
        0
    }
}

/// The page of one of a layer's vectors.
pub open spec fn vector_of(
    tensors: Map<Seq<char>, TensorView>,
    layer: nat,
    suffix: Seq<char>,
) -> crate::pages::PageView {
    standalone(packed(layer_values(tensors, layer, suffix)))
}

/// The region of one of a layer's matrices.
pub open spec fn matrix_of(
    tensors: Map<Seq<char>, TensorView>,
    layer: nat,
    suffix: Seq<char>,
) -> crate::pages::RegionView {
    region(packed(layer_values(tensors, layer, suffix)), PAGE_SIZE)
}

/// Whether the parameters are those of a layer of the artifact.
pub open spec fn params_of(
    params: LayerParams,
    tensors: Map<Seq<char>, TensorView>,
    shape: ShapeView,
    scalars: Scalars,
    candidates: (i32, i32),
    layer: nat,
) -> bool {
    &&& params.layer_idx == low32(layer as u64)
    &&& params.hidden_size == low32(shape.hidden)
    &&& params.ffn_size == low32(
        tensors[layer_tensor(layer, "mlp.gate_proj.weight"@)].dims[0],
    )
    &&& params.num_heads == low32(shape.heads)
    &&& params.num_kv_heads == low32(shape.kv_heads)
    &&& params.head_dim == low32(shape.head_dim_at(layer as int))
    &&& params.sliding_window == (if shape.is_sliding(layer as int) {
        shape.sliding_window
    } else {
        0
    })
    &&& is_inv_sqrt(shape.head_dim_at(layer as int) as int, params.attn_scale as int)
    &&& params.layer_scalar == layer_scalar_of(tensors, layer)
    &&& params.norm_eps == scalars.norm_eps
    &&& (params.rope_base, params.rotary_dim, params.rope_freq_base_dim) == rope_of(
        shape,
        scalars,
        layer as int,
    )
    &&& params.kv_donor_layer == shape.kv_donor_layer(layer as int)
    &&& (params.donor_a_layer, params.donor_b_layer) == candidates
    &&& params.ple_width == low32(shape.ple_width)
    &&& params.norm_input@ == vector_of(tensors, layer, "input_layernorm.weight"@)
    &&& params.norm_post_attn@ == vector_of(tensors, layer, "post_attention_layernorm.weight"@)
    &&& params.norm_pre_ffw@ == vector_of(tensors, layer, "pre_feedforward_layernorm.weight"@)
    &&& params.norm_post_ffw@ == vector_of(tensors, layer, "post_feedforward_layernorm.weight"@)
    &&& params.q_norm@ == vector_of(tensors, layer, "self_attn.q_norm.weight"@)
    &&& params.k_norm@ == vector_of(tensors, layer, "self_attn.k_norm.weight"@)
    &&& params.ple_post_norm@ == vector_of(tensors, layer, "post_per_layer_input_norm.weight"@)
}

/// Whether the external is that of a layer of the artifact.
pub open spec fn layer_of(
    external: TransformerLayer,
    tensors: Map<Seq<char>, TensorView>,
    shape: ShapeView,
    scalars: Scalars,
    candidates: (i32, i32),
    layer: nat,
) -> bool {
    &&& params_of(external.params, tensors, shape, scalars, candidates, layer)
    &&& external.w_q@ == matrix_of(tensors, layer, "self_attn.q_proj.weight"@)
    &&& external.w_k@ == matrix_of(tensors, layer, "self_attn.k_proj.weight"@)
    &&& external.w_v@ == matrix_of(tensors, layer, needed(tensors, layer)[1])
    &&& external.w_o@ == matrix_of(tensors, layer, "self_attn.o_proj.weight"@)
    &&& external.w_gate@ == matrix_of(tensors, layer, "mlp.gate_proj.weight"@)
    &&& external.w_up@ == matrix_of(tensors, layer, "mlp.up_proj.weight"@)
    &&& external.w_down@ == matrix_of(tensors, layer, "mlp.down_proj.weight"@)
    &&& external.ple_input_gate@ == matrix_of(tensors, layer, "per_layer_input_gate.weight"@)
    &&& external.ple_layer_projection@ == matrix_of(tensors, layer, "per_layer_projection.weight"@)
}

proof fn lemma_missing(
    tensors: Map<Seq<char>, TensorView>,
    layer: nat,
    suffixes: Seq<Seq<char>>,
    k: int,
)
    requires
        0 <= k <= suffixes.len(),
        forall|j: int| 0 <= j < k ==> has_tensor(tensors, layer, #[trigger] suffixes[j]),
        k < suffixes.len() ==> !has_tensor(tensors, layer, suffixes[k]),
    ensures
        first_missing(tensors, layer, suffixes) == (if k < suffixes.len() {
            Some(suffixes[k])
        } else {
            None
        }),
    decreases suffixes.len(),
{
    if k > 0 {
        assert(has_tensor(tensors, layer, suffixes[0]));
        let rest = suffixes.drop_first();
        assert forall|j: int| 0 <= j < k - 1 implies has_tensor(
            tensors,
            layer,
            #[trigger] rest[j],
        ) by {
            assert(rest[j] == suffixes[j + 1]);
        }
        lemma_missing(tensors, layer, rest, k - 1);
    }
}

proof fn lemma_none_missing(
    tensors: Map<Seq<char>, TensorView>,
    layer: nat,
    suffixes: Seq<Seq<char>>,
    k: int,
)
    requires
        first_missing(tensors, layer, suffixes) is None,
        0 <= k < suffixes.len(),
    ensures
        has_tensor(tensors, layer, suffixes[k]),
    decreases suffixes.len(),
{
    if k > 0 {
        assert(suffixes[k] == suffixes.drop_first()[k - 1]);
        lemma_none_missing(tensors, layer, suffixes.drop_first(), k - 1);
    }
}

fn layer_tensor_name(layer: usize, suffix: &str) -> (r: String)
    ensures
        r@ == layer_tensor(layer as nat, suffix@),
{
    String::from_str("model.language_model.layers.").concat(decimal(layer as u64).as_str()).concat(
        ".",
    ).concat(suffix)
}

fn check_tensors(weights: &Artifact, layer: usize, suffixes: &Vec<&str>) -> (r: Result<(), String>)
    ensures
        match first_missing(
            weights.tensors(),
            layer as nat,
            Seq::new(suffixes@.len(), |i: int| suffixes@[i]@),
        ) {
            Some(suffix) => r matches Err(s) && tensor_of(
                weights.tensors(),
                layer_tensor(layer as nat, suffix),
            ) == Err::<TensorView, Seq<char>>(s@),
            None => r is Ok,
        },
{
    let ghost tensors = weights.tensors();
    let ghost all = Seq::new(suffixes@.len(), |i: int| suffixes@[i]@);
    let mut k: usize = 0;
    while k < suffixes.len()
        invariant
            k <= suffixes@.len(),
            tensors == weights.tensors(),
            all == Seq::new(suffixes@.len(), |i: int| suffixes@[i]@),
            forall|j: int| 0 <= j < k ==> has_tensor(tensors, layer as nat, #[trigger] all[j]),
        decreases suffixes@.len() - k,
    {
        let name: String = layer_tensor_name(layer, suffixes[k]);
        assert(all[k as int] == suffixes@[k as int]@);
        match weights.get(name.as_str()) {
            Ok(_) => {},
            Err(e) => {
                proof {
                    lemma_missing(tensors, layer as nat, all, k as int);
                }
                return Err(e);
            },
        }
        k += 1;
    }
    proof {
        lemma_missing(tensors, layer as nat, all, k as int);
    }
    Ok(())
}

fn values_of<'a>(weights: &'a Artifact, layer: usize, suffix: &str) -> (r: &'a [i32])
    requires
        has_tensor(weights.tensors(), layer as nat, suffix@),
    ensures
        r@ == layer_values(weights.tensors(), layer as nat, suffix@),
{
    let name: String = layer_tensor_name(layer, suffix);
    let tensor: &Tensor = weights.get(name.as_str()).unwrap();
    tensor.values.as_slice()
}

fn scalar_of(weights: &Artifact, layer: usize) -> (r: i32)
    ensures
        r == layer_scalar_of(weights.tensors(), layer as nat),
{
    let name: String = layer_tensor_name(layer, "layer_scalar");
    match weights.get(name.as_str()) {
        Ok(tensor) => if tensor.values.len() > 0 {
            tensor.values[0]
        } else {
            0
        },
        Err(_) => 0,
    }
}

fn layer_params(
    weights: &Artifact,
    shape: &Shape,
    scalars: &Scalars,
    candidates: (i32, i32),
    layer: usize,
    ffn: u64,
) -> (r: LayerParams)
    requires
        first_missing(
            weights.tensors(),
            layer as nat,
            needed(weights.tensors(), layer as nat),
        ) is None,
        weights.tensors()[layer_tensor(layer as nat, "mlp.gate_proj.weight"@)].dims.len() > 0,
        ffn == weights.tensors()[layer_tensor(layer as nat, "mlp.gate_proj.weight"@)].dims[0],
    ensures
        params_of(r, weights.tensors(), shape@, *scalars, candidates, layer as nat),
{
    proof {
        let tensors = weights.tensors();
        let names = needed(tensors, layer as nat);
        lemma_none_missing(tensors, layer as nat, names, 2);
        lemma_none_missing(tensors, layer as nat, names, 3);
        lemma_none_missing(tensors, layer as nat, names, 4);
        lemma_none_missing(tensors, layer as nat, names, 5);
        lemma_none_missing(tensors, layer as nat, names, 6);
        lemma_none_missing(tensors, layer as nat, names, 7);
        lemma_none_missing(tensors, layer as nat, names, 8);
    }
    let sliding: bool = shape.is_sliding(layer);
    let (rope_base, rotary_dim, rope_freq_base_dim) = shape.rope_at(scalars, layer);
    LayerParams {
        layer_idx: (layer as u64 % 0x1_0000_0000) as u32,
        hidden_size: (shape.hidden % 0x1_0000_0000) as u32,
        ffn_size: (ffn % 0x1_0000_0000) as u32,
        num_heads: (shape.heads % 0x1_0000_0000) as u32,
        num_kv_heads: (shape.kv_heads % 0x1_0000_0000) as u32,
        head_dim: (shape.head_dim_at(layer) % 0x1_0000_0000) as u32,
        sliding_window: if sliding {
            shape.sliding_window
        } else {
            0
        },
        attn_scale: inv_sqrt_q16(shape.head_dim_at(layer)),
        layer_scalar: scalar_of(weights, layer),
        norm_eps: scalars.norm_eps,
        rope_base,
        rotary_dim,
        rope_freq_base_dim,
        kv_donor_layer: shape.kv_donor_layer(layer),
        donor_a_layer: candidates.0,
        donor_b_layer: candidates.1,
        norm_input: page_of_i32s(values_of(weights, layer, "input_layernorm.weight")),
        norm_post_attn: page_of_i32s(values_of(weights, layer, "post_attention_layernorm.weight")),
        norm_pre_ffw: page_of_i32s(values_of(weights, layer, "pre_feedforward_layernorm.weight")),
        norm_post_ffw: page_of_i32s(values_of(weights, layer, "post_feedforward_layernorm.weight")),
        q_norm: page_of_i32s(values_of(weights, layer, "self_attn.q_norm.weight")),
        k_norm: page_of_i32s(values_of(weights, layer, "self_attn.k_norm.weight")),
        ple_width: (shape.ple_width % 0x1_0000_0000) as u32,
        ple_post_norm: page_of_i32s(values_of(weights, layer, "post_per_layer_input_norm.weight")),
    }
}

/// The external of one transformer layer.
pub fn transformer_layer_external(
    weights: &Artifact,
    shape: &Shape,
    scalars: &Scalars,
    candidates: (i32, i32),
    layer: usize,
) -> (r: Result<TransformerLayer, String>)
    requires
        has_tensor(weights.tensors(), layer as nat, "mlp.gate_proj.weight"@)
            ==> weights.tensors()[layer_tensor(
            layer as nat,
            "mlp.gate_proj.weight"@,
        )].dims.len() > 0,
    ensures
        match first_missing(
            weights.tensors(),
            layer as nat,
            needed(weights.tensors(), layer as nat),
        ) {
            Some(suffix) => r matches Err(s) && tensor_of(
                weights.tensors(),
                layer_tensor(layer as nat, suffix),
            ) == Err::<TensorView, Seq<char>>(s@),
            None => r matches Ok(external) && layer_of(
                external,
                weights.tensors(),
                shape@,
                *scalars,
                candidates,
                layer as nat,
            ),
        },
{
    let ghost tensors = weights.tensors();
    let ghost names = needed(tensors, layer as nat);
    let v_name: String = layer_tensor_name(layer, "self_attn.v_proj.weight");
    let value_suffix: &str = match weights.get(v_name.as_str()) {
        Ok(_) => "self_attn.v_proj.weight",
        Err(_) => "self_attn.k_proj.weight",
    };
    let suffixes: Vec<&str> = vec![
        "mlp.gate_proj.weight",
        value_suffix,
        "input_layernorm.weight",
        "post_attention_layernorm.weight",
        "pre_feedforward_layernorm.weight",
        "post_feedforward_layernorm.weight",
        "self_attn.q_norm.weight",
        "self_attn.k_norm.weight",
        "post_per_layer_input_norm.weight",
        "self_attn.q_proj.weight",
        "self_attn.k_proj.weight",
        "self_attn.o_proj.weight",
        "mlp.up_proj.weight",
        "per_layer_input_gate.weight",
        "per_layer_projection.weight",
        "mlp.down_proj.weight",
    ];
    assert(Seq::new(suffixes@.len(), |i: int| suffixes@[i]@) =~= names);
    match check_tensors(weights, layer, &suffixes) {
        Ok(()) => {},
        Err(e) => return Err(e),
    }
    proof {
        lemma_none_missing(tensors, layer as nat, names, 0);
        lemma_none_missing(tensors, layer as nat, names, 1);
        lemma_none_missing(tensors, layer as nat, names, 9);
        lemma_none_missing(tensors, layer as nat, names, 10);
        lemma_none_missing(tensors, layer as nat, names, 11);
        lemma_none_missing(tensors, layer as nat, names, 12);
        lemma_none_missing(tensors, layer as nat, names, 13);
        lemma_none_missing(tensors, layer as nat, names, 14);
        lemma_none_missing(tensors, layer as nat, names, 15);
    }
    let gate_name: String = layer_tensor_name(layer, "mlp.gate_proj.weight");
    let gate: &Tensor = weights.get(gate_name.as_str()).unwrap();
    let ffn: u64 = gate.dims[0];
    Ok(
        TransformerLayer {
            params: layer_params(weights, shape, scalars, candidates, layer, ffn),
            w_q: paged_i32s(values_of(weights, layer, "self_attn.q_proj.weight")),
            w_k: paged_i32s(values_of(weights, layer, "self_attn.k_proj.weight")),
            w_v: paged_i32s(values_of(weights, layer, value_suffix)),
            w_o: paged_i32s(values_of(weights, layer, "self_attn.o_proj.weight")),
            w_gate: paged_i32s(values_of(weights, layer, "mlp.gate_proj.weight")),
            w_up: paged_i32s(values_of(weights, layer, "mlp.up_proj.weight")),
            w_down: paged_i32s(values_of(weights, layer, "mlp.down_proj.weight")),
            ple_input_gate: paged_i32s(values_of(weights, layer, "per_layer_input_gate.weight")),
            ple_layer_projection: paged_i32s(
                values_of(weights, layer, "per_layer_projection.weight"),
            ),
        },
    )
}

/// The tensor that scores tokens: the embedding table where the two are tied.
pub open spec fn head_tensor(tied: bool) -> Seq<char> {
    if tied {
        "model.language_model.embed_tokens.weight"@
    } else {
        "model.language_model.lm_head.weight"@
    }
}

/// The scoring matrix and the final norm of an artifact, or why one is missing.
pub open spec fn head_values(
    tensors: Map<Seq<char>, TensorView>,
    shape: ShapeView,
    tied: bool,
) -> Result<(Seq<i32>, Seq<i32>), Seq<char>> {
    match tensor_of(tensors, head_tensor(tied)) {
        Err(e) => Err(e),
        Ok(projection) => match leading_rows(projection, shape.vocab as nat) {
            Err(e) => Err(e),
            Ok(rows) => match tensor_of(tensors, "model.language_model.norm.weight"@) {
                Err(e) => Err(e),
                Ok(norm) => Ok((rows, norm.values)),
            },
        },
    }
}

/// The external of the scoring stage.
pub fn head_external(weights: &Artifact, shape: &Shape, scalars: &Scalars, tied: bool) -> (r: Result<
    FinalHead,
    String,
>)
    requires
        shape.vocab <= usize::MAX,
    ensures
        match head_values(weights.tensors(), shape@, tied) {
            Ok((rows, norm)) => {
                &&& r is Ok
                &&& r->Ok_0.params.hidden_size == low32(shape.hidden)
                &&& r->Ok_0.params.norm_eps == scalars.norm_eps
                &&& r->Ok_0.params.softcap == scalars.softcap
                &&& r->Ok_0.params.norm_weights@ == standalone(packed(norm))
                &&& r->Ok_0.projection@ == region(packed(rows), PAGE_SIZE)
            },
            Err(e) => r matches Err(s) && s@ == e,
        },
{
    let name: &str = if tied {
        "model.language_model.embed_tokens.weight"
    } else {
        "model.language_model.lm_head.weight"
    };
    let projection: &Tensor = match weights.get(name) {
        Ok(tensor) => tensor,
        Err(e) => return Err(e),
    };
    let rows: Vec<i32> = match rows_up_to(projection, shape.vocab) {
        Ok(values) => values,
        Err(e) => return Err(e),
    };
    let norm: &Tensor = match weights.get("model.language_model.norm.weight") {
        Ok(tensor) => tensor,
        Err(e) => return Err(e),
    };
    Ok(
        FinalHead {
            params: FinalHeadParams {
                hidden_size: (shape.hidden % 0x1_0000_0000) as u32,
                norm_eps: scalars.norm_eps,
                softcap: scalars.softcap,
                norm_weights: page_of_i32s(norm.values.as_slice()),
            },
            projection: paged_i32s(rows.as_slice()),
        },
    )
}

/// A token looked up in an imported embedding table gets its row of the tensor,
/// scaled, provided that the tensor has hidden width and that a page is a whole
/// number of rows.
pub proof fn an_imported_token_gets_its_tensor_row(
    tensors: Map<Seq<char>, TensorView>,
    shape: ShapeView,
    output: ActivationsView,
    token_id: u32,
    embedding_scale: i32,
)
    requires
        embedding_values(tensors, shape) is Ok,
        ({
            let t = tensors["model.language_model.embed_tokens.weight"@];
            t.dims.len() > 0 && t.dims.last() == shape.hidden
        }),
        0 < shape.hidden <= u32::MAX,
        shape.vocab <= u32::MAX,
        token_id < shape.vocab,
        4 * (shape.vocab * shape.hidden) <= u64::MAX,
        PAGE_SIZE as int % (4 * shape.hidden) == 0,
    ensures
        ({
            let t = tensors["model.language_model.embed_tokens.weight"@];
            let values = region(packed(embedding_values(tensors, shape)->Ok_0), PAGE_SIZE);
            embedded(output, token_id, values, shape.hidden as u32, embedding_scale) == (
            ActivationsView {
                rows: output.rows.push(
                    RowView {
                        token_id,
                        values: standalone(
                            packed(
                                scaled(
                                    matrix_row(t.values, shape.hidden as int, token_id as int),
                                    embedding_scale,
                                ),
                            ),
                        ),
                    },
                ),
                ..output
            })
        }),
{
    let t = tensors["model.language_model.embed_tokens.weight"@];
    let h = shape.hidden as int;
    let n = shape.vocab as int;
    let matrix = embedding_values(tensors, shape)->Ok_0;
    leading_rows_are_leading_values(t, shape.vocab as nat);
    assert(matrix.len() == n * h);
    a_known_token_gets_its_row(
        output,
        matrix,
        shape.vocab as u32,
        token_id,
        shape.hidden as u32,
        embedding_scale,
        PAGE_SIZE,
    );
    assert(0 <= token_id * h && token_id * h + h <= n * h && (token_id + 1) * h == token_id * h + h)
        by (nonlinear_arith)
        requires
            0 <= token_id < n,
            h > 0,
    ;
    assert(matrix_row(matrix, h, token_id as int) =~= matrix_row(t.values, h, token_id as int));
}

} // verus!
