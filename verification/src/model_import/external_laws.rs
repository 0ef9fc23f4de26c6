//! What the functions that read a model and make its externals return.

use crate::input_embedding::EmbeddingTable;
use crate::model_import::artifact_laws::an_artifact_read_has_its_header;
use crate::model_import::detwgt::{artifact_of, load, Artifact, TensorView};
use crate::model_import::externals::{
    donor_layers, embedding_external, head_external, ple_layer_external, ple_tensors,
    transformer_layer_external, PleTensors,
};
use crate::model_import::import_laws::{
    a_layer_gets_its_columns_and_rows, a_layer_gets_the_tensors_of_its_names,
    a_layer_needs_its_tensors, holds_tensor, holds_vector, named, present,
    the_embedding_table_is_the_embedding_tensor, the_head_is_tied_or_its_own,
};
use crate::model_import::prompt::render_gemma_turns;
use crate::model_import::shape::{Scalars, Shape};
use crate::model_import::shape_laws::a_sharing_layer_borrows_from_the_last_of_its_type;
use crate::model_import::tokenizer_laws::{a_templated_prompt_is_one_user_turn, is_trimmed};
use crate::pages::{packed, region, standalone, PAGE_SIZE};
use crate::prefill_finalize::FinalHead;
use crate::prefill_prepare_aux::PleLayer;
use crate::prefill_range::input::TransformerLayer;
use vstd::prelude::*;

verus! {

/// The embedding table has the model's hidden width, the scale of token embeddings and
/// the embedding tensor's rows, one for every token of the vocabulary.
pub proof fn what_the_embedding_external_holds(
    weights: &Artifact,
    shape: &Shape,
    scalars: &Scalars,
    r: Result<EmbeddingTable, String>,
)
    requires
        call_ensures(embedding_external, (weights, shape, scalars), r),
        shape.hidden <= u32::MAX,
        shape.vocab > 0,
    ensures
        r matches Ok(table) ==> {
            let t = weights.tensors()["model.language_model.embed_tokens.weight"@];
            &&& table.hidden_size == shape.hidden
            &&& table.embedding_scale == scalars.embedding_scale
            &&& table.values@ == region(
                packed(t.values.take(shape.vocab * t.dims.last())),
                PAGE_SIZE,
            )
        },
{
    the_embedding_table_is_the_embedding_tensor(weights.tensors(), shape@);
}

/// The tensors of the per-layer embeddings are found under their names.
pub proof fn what_the_per_layer_tensors_are<'a>(
    weights: &'a Artifact,
    r: Result<PleTensors<'a>, String>,
)
    requires
        call_ensures(ple_tensors, (weights,), r),
    ensures
        r matches Ok(t) ==> {
            let all = weights.tensors();
            &&& t.per_layer@ == all["model.language_model.embed_tokens_per_layer.weight"@]
            &&& t.projection@ == all["model.language_model.per_layer_model_projection.weight"@]
            &&& t.projection_norm@ == all["model.language_model.per_layer_projection_norm.weight"@]
        },
{
}

/// A layer's per-layer embeddings have the layer's number, the model's widths, each scale
/// in its place, the norm's weights, and the layer's own columns and rows.
pub proof fn what_a_per_layer_external_holds<'a>(
    tensors: &PleTensors<'a>,
    shape: &Shape,
    scalars: &Scalars,
    layer: usize,
    r: Result<PleLayer, String>,
)
    requires
        call_ensures(ple_layer_external, (tensors, shape, scalars, layer), r),
        layer <= u32::MAX,
        shape.hidden <= u32::MAX,
        0 < shape.ple_width <= u32::MAX,
    ensures
        r matches Ok(ple) ==> {
            let width = shape.ple_width as int;
            let cols = tensors.per_layer@.dims.last() as int;
            let wide = tensors.projection@.dims.last() as int;
            &&& ple.params.layer_idx == layer
            &&& ple.params.hidden_size == shape.hidden
            &&& ple.params.ple_width == shape.ple_width
            &&& ple.params.embedding_scale == scalars.ple_embedding_scale
            &&& ple.params.projection_scalar == scalars.projection_scalar
            &&& ple.params.input_scale == scalars.input_scale
            &&& ple.params.norm_eps == scalars.norm_eps
            &&& holds_vector(ple.params.norm_weights@, tensors.projection_norm@)
            &&& exists|slice: Seq<i32>, rows: Seq<i32>|
                #![trigger packed(slice), packed(rows)]
                {
                    &&& ple.embeddings@ == region(packed(slice), PAGE_SIZE)
                    &&& ple.projection@ == region(packed(rows), PAGE_SIZE)
                    &&& forall|k: int, j: int|
                        #![trigger slice[k * width + j]]
                        0 <= k < tensors.per_layer@.values.len() as int / cols && 0 <= j < width
                            ==> slice[k * width + j] == tensors.per_layer@.values[k * cols + layer
                            * width + j]
                    &&& rows.len() == width * wide
                    &&& forall|j: int|
                        0 <= j < rows.len() ==> (#[trigger] rows[j])
                            == tensors.projection@.values[layer * width * wide + j]
                }
        },
{
    if r is Ok {
        let found = crate::model_import::externals::ple_layer_values(
            tensors.per_layer@,
            tensors.projection@,
            shape.ple_width as int,
            layer as int,
        );
        let (slice, rows) = found->Ok_0;
        a_layer_gets_its_columns_and_rows(
            tensors.per_layer@,
            tensors.projection@,
            shape.ple_width as int,
            layer as int,
        );
        assert(r->Ok_0.embeddings@ == region(packed(slice), PAGE_SIZE));
        assert(r->Ok_0.projection@ == region(packed(rows), PAGE_SIZE));
    }
}

/// A transformer layer is made exactly if it has every tensor that it needs, and has each
/// in its place.
pub proof fn what_a_layer_external_holds(
    weights: &Artifact,
    shape: &Shape,
    scalars: &Scalars,
    donors: (i32, i32),
    layer: usize,
    r: Result<TransformerLayer, String>,
)
    requires
        call_ensures(transformer_layer_external, (weights, shape, scalars, donors, layer), r),
    ensures
        r matches Ok(external) ==> {
            let all = weights.tensors();
            let n = layer as nat;
            let p = external.params;
            &&& holds_vector(p.norm_input@, named(all, n, "input_layernorm.weight"@))
            &&& holds_vector(p.norm_post_attn@, named(all, n, "post_attention_layernorm.weight"@))
            &&& holds_vector(p.norm_pre_ffw@, named(all, n, "pre_feedforward_layernorm.weight"@))
            &&& holds_vector(p.norm_post_ffw@, named(all, n, "post_feedforward_layernorm.weight"@))
            &&& holds_vector(p.q_norm@, named(all, n, "self_attn.q_norm.weight"@))
            &&& holds_vector(p.k_norm@, named(all, n, "self_attn.k_norm.weight"@))
            &&& holds_vector(p.ple_post_norm@, named(all, n, "post_per_layer_input_norm.weight"@))
            &&& holds_tensor(external.w_q@, named(all, n, "self_attn.q_proj.weight"@))
            &&& holds_tensor(external.w_k@, named(all, n, "self_attn.k_proj.weight"@))
            &&& holds_tensor(external.w_o@, named(all, n, "self_attn.o_proj.weight"@))
            &&& holds_tensor(external.w_gate@, named(all, n, "mlp.gate_proj.weight"@))
            &&& holds_tensor(external.w_up@, named(all, n, "mlp.up_proj.weight"@))
            &&& holds_tensor(external.w_down@, named(all, n, "mlp.down_proj.weight"@))
            &&& holds_tensor(external.ple_input_gate@, named(all, n, "per_layer_input_gate.weight"@))
            &&& holds_tensor(
                external.ple_layer_projection@,
                named(all, n, "per_layer_projection.weight"@),
            )
            &&& present(all, n, "self_attn.v_proj.weight"@) ==> holds_tensor(
                external.w_v@,
                named(all, n, "self_attn.v_proj.weight"@),
            )
        },
{
    if r is Ok {
        a_layer_needs_its_tensors(weights.tensors(), layer as nat);
        a_layer_gets_the_tensors_of_its_names(
            r->Ok_0,
            weights.tensors(),
            shape@,
            *scalars,
            donors,
            layer as nat,
        );
    }
}

/// The head has the model's hidden width, the norm's epsilon, the cap of the logits, the
/// final norm's weights, and scores with the embedding tensor if it is tied.
pub proof fn what_the_head_external_holds(
    weights: &Artifact,
    shape: &Shape,
    scalars: &Scalars,
    tied: bool,
    r: Result<FinalHead, String>,
)
    requires
        call_ensures(head_external, (weights, shape, scalars, tied), r),
        shape.hidden <= u32::MAX,
        shape.vocab > 0,
    ensures
        r matches Ok(head) ==> {
            let all = weights.tensors();
            let embed = all["model.language_model.embed_tokens.weight"@];
            let own = all["model.language_model.lm_head.weight"@];
            &&& head.params.hidden_size == shape.hidden
            &&& head.params.norm_eps == scalars.norm_eps
            &&& head.params.softcap == scalars.softcap
            &&& head.params.norm_weights@ == standalone(
                packed(all["model.language_model.norm.weight"@].values),
            )
            &&& tied ==> head.projection@ == region(
                packed(embed.values.take(shape.vocab * embed.dims.last())),
                PAGE_SIZE,
            )
            &&& !tied ==> head.projection@ == region(
                packed(own.values.take(shape.vocab * own.dims.last())),
                PAGE_SIZE,
            )
        },
{
    if r is Ok {
        the_head_is_tied_or_its_own(weights.tensors(), shape@, tied);
    }
}

/// The donor layers are those that some layer borrows from, in ascending order.
pub proof fn what_the_donor_layers_are(shape: &Shape, r: Vec<i32>)
    requires
        call_ensures(donor_layers, (shape,), r),
    ensures
        forall|i: int, j: int| 0 <= i < j < r@.len() ==> r@[i] < r@[j],
        forall|donor: i32| #[trigger]
            r@.contains(donor) <==> donor >= 0 && exists|idx: int|
                0 <= idx < shape.layers && #[trigger] shape@.kv_donor_layer(idx) == donor,
{
    assert forall|donor: i32| #[trigger]
        r@.contains(donor) <==> donor >= 0 && exists|idx: int|
            0 <= idx < shape.layers && #[trigger] shape@.kv_donor_layer(idx) == donor by {
        assert(r@.contains(donor) <==> crate::model_import::externals::is_donor_layer(
            shape@,
            donor,
        ));
    }
}

/// A sharing layer borrows from the last layer of its attention type before the sharing
/// ones.
pub proof fn what_a_layer_borrows(shape: &Shape, idx: usize, donor: i32)
    requires
        call_ensures(Shape::kv_donor_layer, (shape, idx), donor),
        idx < shape@.layer_types.len() <= i32::MAX,
        shape.layers <= shape@.layer_types.len(),
        shape.num_kv_shared_layers <= shape.layers,
    ensures
        ({
            let boundary = shape.layers - shape.num_kv_shared_layers;
            let types = shape@.layer_types;
            &&& donor == -1 || 0 <= donor < boundary <= idx
            &&& donor >= 0 ==> types[donor as int] == types[idx as int] && forall|j: int|
                donor < j < boundary ==> (#[trigger] types[j]) != types[idx as int]
        }),
{
    a_sharing_layer_borrows_from_the_last_of_its_type(shape@, idx as int);
}

/// An artifact that is loaded has its magic, its versions and its number of tensors.
pub proof fn what_a_loaded_artifact_is(bytes: &[u8], path: &str, r: Result<Artifact, String>)
    requires
        call_ensures(load, (bytes, path), r),
    ensures
        r is Ok <==> artifact_of(bytes@, path@) is Ok,
        r matches Ok(artifact) ==> {
            &&& bytes@.take(8) == seq![68u8, 78u8, 87u8, 71u8, 84u8, 86u8, 48u8, 0u8]
            &&& Ok::<Map<Seq<char>, TensorView>, Seq<char>>(artifact.tensors()) == artifact_of(
                bytes@,
                path@,
            )
            &&& artifact.tensors().dom().finite()
        },
{
    if r is Ok {
        an_artifact_read_has_its_header(bytes@, path@);
    }
}

/// A rendered prompt is the trimmed prompt as the user's turn.
pub proof fn what_a_rendered_prompt_is(prompt: &str, r: String)
    requires
        call_ensures(render_gemma_turns, (prompt,), r),
    ensures
        exists|a: int, b: int| #[trigger]
            is_trimmed(prompt@, prompt@.subrange(a, b), a, b) && r@ == "<bos><|turn>user\n"@
                + prompt@.subrange(a, b) + "<turn|>\n<|turn>model\n"@,
{
    a_templated_prompt_is_one_user_turn(prompt@);
}

} // verus!
