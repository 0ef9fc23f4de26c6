//! What a configuration says of a model, key by key and layer by layer.

use crate::model_import::json::JsonView;
use crate::model_import::json;
use crate::model_import::shape::{
    borrowers_of, config_shape, declared_eos, declares, file_declares, file_shape, lacks, shape_of,
    texts, type_leaders,
    ShapeView,
};
use vstd::prelude::*;

verus! {

/// A key's value is that of its first member.
pub proof fn the_first_member_counts(members: Seq<(Seq<char>, JsonView)>, key: Seq<char>)
    ensures
        match JsonView::Object(members).get(key) {
            Some(value) => exists|i: int|
                #![trigger members[i]]
                0 <= i < members.len() && members[i] == (key, value) && forall|j: int|
                    0 <= j < i ==> (#[trigger] members[j]).0 != key,
            None => forall|i: int| 0 <= i < members.len() ==> (#[trigger] members[i]).0 != key,
        },
    decreases members.len(),
{
    if members.len() > 0 && members[0].0 != key {
        let rest = members.drop_first();
        the_first_member_counts(rest, key);
        assert(json::member(members, key) == json::member(rest, key));
        match json::member(rest, key) {
            Some(value) => {
                let i = choose|i: int|
                    #![trigger rest[i]]
                    0 <= i < rest.len() && rest[i] == (key, value) && forall|j: int|
                        0 <= j < i ==> (#[trigger] rest[j]).0 != key;
                assert(members[i + 1] == (key, value));
                assert forall|j: int| 0 <= j < i + 1 implies (#[trigger] members[j]).0 != key by {
                    if j > 0 {
                        assert(members[j] == rest[j - 1]);
                    }
                }
            },
            None => {
                assert forall|i: int| 0 <= i < members.len() implies (#[trigger] members[i]).0
                    != key by {
                    if i > 0 {
                        assert(members[i] == rest[i - 1]);
                    }
                }
            },
        }
    } else if members.len() > 0 {
        assert(members[0] == (key, members[0].1));
    }
}

/// What is under a key is read as what it is: a number, a flag, a text or a list, and
/// nothing else is taken for one.
pub proof fn values_are_read_as_what_they_are(value: JsonView, key: Seq<char>)
    ensures
        match value.u64_at(key) {
            Some(n) => value.get(key) == Some(JsonView::Number(Some(n))),
            None => !(value.get(key) matches Some(JsonView::Number(Some(_)))),
        },
        value.flag_at(key) <==> value.get(key) == Some(JsonView::Bool(true)),
        match value.text_at(key) {
            Some(s) => value.get(key) == Some(JsonView::Text(s)),
            None => !(value.get(key) matches Some(JsonView::Text(_))),
        },
        value.items_at(key).len() > 0 ==> value.get(key) == Some(
            JsonView::List(value.items_at(key)),
        ),
        value.get(key) matches Some(JsonView::List(items)) ==> value.items_at(key) == items,
        !(value is Object) ==> value.get(key) is None,
{
}

/// Every shape is the number under its key. The seven sizes must be there; the full
/// layers' head width defaults to the other layers', and the rest to none.
pub proof fn a_configuration_names_its_shapes(text: JsonView)
    ensures
        shape_of(text) is Ok <==> {
            &&& text.u64_at("hidden_size"@) is Some
            &&& text.u64_at("num_hidden_layers"@) is Some
            &&& text.u64_at("num_attention_heads"@) is Some
            &&& text.u64_at("num_key_value_heads"@) is Some
            &&& text.u64_at("head_dim"@) is Some
            &&& text.u64_at("vocab_size"@) is Some
            &&& text.u64_at("hidden_size_per_layer_input"@) is Some
        },
        shape_of(text) matches Ok(s) ==> {
            &&& text.u64_at("hidden_size"@) == Some(s.hidden)
            &&& text.u64_at("num_hidden_layers"@) == Some(s.layers)
            &&& text.u64_at("num_attention_heads"@) == Some(s.heads)
            &&& text.u64_at("num_key_value_heads"@) == Some(s.kv_heads)
            &&& text.u64_at("head_dim"@) == Some(s.head_dim)
            &&& text.u64_at("vocab_size"@) == Some(s.vocab)
            &&& text.u64_at("hidden_size_per_layer_input"@) == Some(s.ple_width)
            &&& match text.u64_at("global_head_dim"@) {
                Some(v) => s.global_head_dim == v,
                None => s.global_head_dim == s.head_dim,
            }
            &&& match text.u64_at("num_kv_shared_layers"@) {
                Some(v) => s.num_kv_shared_layers == v,
                None => s.num_kv_shared_layers == 0,
            }
            &&& match text.u64_at("sliding_window"@) {
                Some(v) => v <= u32::MAX ==> s.sliding_window == v,
                None => s.sliding_window == 0,
            }
        },
        shape_of(text) matches Err(e) ==> exists|key: Seq<char>|
            text.u64_at(key) is None && e == "config.json text_config has no "@ + key,
{
    if let Err(e) = shape_of(text) {
        if text.u64_at("hidden_size"@) is None {
            assert(e == lacks("hidden_size"@));
        } else if text.u64_at("num_hidden_layers"@) is None {
            assert(e == lacks("num_hidden_layers"@));
        } else if text.u64_at("num_attention_heads"@) is None {
            assert(e == lacks("num_attention_heads"@));
        } else if text.u64_at("num_key_value_heads"@) is None {
            assert(e == lacks("num_key_value_heads"@));
        } else if text.u64_at("head_dim"@) is None {
            assert(e == lacks("head_dim"@));
        } else if text.u64_at("vocab_size"@) is None {
            assert(e == lacks("vocab_size"@));
        } else {
            assert(e == lacks("hidden_size_per_layer_input"@));
        }
    }
}

/// The attention types are the texts of the list of layer types, in order.
pub proof fn layer_types_are_the_listed_texts(text: JsonView)
    requires
        shape_of(text) is Ok,
        forall|i: int|
            0 <= i < text.items_at("layer_types"@).len() ==> (#[trigger] text.items_at(
                "layer_types"@,
            )[i]) is Text,
    ensures
        ({
            let types = shape_of(text)->Ok_0.layer_types;
            let items = text.items_at("layer_types"@);
            types.len() == items.len() && forall|i: int|
                0 <= i < items.len() ==> items[i] == JsonView::Text(#[trigger] types[i])
        }),
{
    lemma_texts(text.items_at("layer_types"@));
}

proof fn lemma_texts(items: Seq<JsonView>)
    requires
        forall|i: int| 0 <= i < items.len() ==> (#[trigger] items[i]) is Text,
    ensures
        texts(items).len() == items.len(),
        forall|i: int| 0 <= i < items.len() ==> items[i] == JsonView::Text(#[trigger] texts(items)[i]),
    decreases items.len(),
{
    if items.len() > 0 {
        assert(items[items.len() - 1] is Text);
        lemma_texts(items.drop_last());
        assert forall|i: int| 0 <= i < items.len() implies items[i] == JsonView::Text(
            #[trigger] texts(items)[i],
        ) by {
            if i < items.len() - 1 {
                assert(items.drop_last()[i] == items[i]);
                assert(texts(items)[i] == texts(items.drop_last())[i]);
            }
        }
    }
}

/// The shapes are read out of the text configuration, and a configuration without one
/// has none.
pub proof fn shapes_come_from_the_text_configuration(config: JsonView)
    ensures
        match config.get("text_config"@) {
            Some(text) => config_shape(config) == shape_of(text),
            None => config_shape(config) is Err,
        },
{
}

/// A layer slides exactly if it is typed so; its head width goes by that.
pub proof fn head_widths_go_by_attention_type(shape: ShapeView, idx: int)
    ensures
        shape.is_sliding(idx) <==> 0 <= idx < shape.layer_types.len() && shape.layer_types[idx]
            == "sliding_attention"@,
        shape.is_sliding(idx) ==> shape.head_dim_at(idx) == shape.head_dim,
        !shape.is_sliding(idx) ==> shape.head_dim_at(idx) == shape.global_head_dim,
{
}

/// A layer borrows from the last layer of its attention type before the sharing layers,
/// which are the last ones; it owns its keys and values if it is none of them or there is
/// no such layer.
pub proof fn a_sharing_layer_borrows_from_the_last_of_its_type(shape: ShapeView, idx: int)
    requires
        0 <= idx < shape.layer_types.len(),
        shape.layer_types.len() <= i32::MAX,
        shape.layers <= shape.layer_types.len(),
        shape.num_kv_shared_layers <= shape.layers,
    ensures
        ({
            let boundary = shape.layers - shape.num_kv_shared_layers;
            let donor = shape.kv_donor_layer(idx);
            &&& donor == -1 || 0 <= donor < boundary
            &&& donor >= 0 ==> idx >= boundary && shape.layer_types[donor as int]
                == shape.layer_types[idx] && forall|j: int|
                donor < j < boundary ==> (#[trigger] shape.layer_types[j]) != shape.layer_types[idx]
            &&& idx < boundary ==> donor == -1
            &&& shape.num_kv_shared_layers == 0 ==> donor == -1
            &&& donor == -1 && idx >= boundary && shape.num_kv_shared_layers > 0 ==> forall|j: int|
                0 <= j < boundary ==> (#[trigger] shape.layer_types[j]) != shape.layer_types[idx]
        }),
{
    let boundary = shape.first_shared();
    if shape.borrows(idx) {
        let d = choose|donor: int| #[trigger] shape.is_donor(idx, donor);
        assert(shape.is_donor(idx, d));
    } else if idx >= boundary && shape.num_kv_shared_layers > 0 {
        if exists|j: int|
            0 <= j < boundary && (#[trigger] shape.layer_types[j]) == shape.layer_types[idx] {
            let j = choose|j: int|
                0 <= j < boundary && (#[trigger] shape.layer_types[j]) == shape.layer_types[idx];
            lemma_last_of_type(shape, idx, j);
        }
    }
}

proof fn lemma_last_of_type(shape: ShapeView, idx: int, j: int)
    requires
        0 <= j < shape.first_shared(),
        shape.layer_types[j] == shape.layer_types[idx],
    ensures
        exists|donor: int| #[trigger] shape.is_donor(idx, donor),
    decreases shape.first_shared() - j,
{
    if exists|k: int|
        j < k < shape.first_shared() && (#[trigger] shape.layer_types[k])
            == shape.layer_types[idx] {
        let k = choose|k: int|
            j < k < shape.first_shared() && (#[trigger] shape.layer_types[k])
                == shape.layer_types[idx];
        lemma_last_of_type(shape, idx, k);
    } else {
        assert(shape.is_donor(idx, j));
    }
}

/// An id ends a sequence exactly if the declaration is that number or lists it. The
/// declaration at the top of the configuration comes before that of the text
/// configuration.
pub proof fn end_ids_are_those_declared(config: JsonView, id: u32)
    ensures
        match declared_eos(config) {
            Some(JsonView::Number(Some(n))) => n <= u32::MAX ==> (declares(
                declared_eos(config),
                id,
            ) <==> n == id),
            Some(JsonView::List(items)) => (forall|i: int|
                0 <= i < items.len() ==> (#[trigger] items[i] matches JsonView::Number(Some(n)) ==> n
                    <= u32::MAX)) ==> (declares(declared_eos(config), id) <==> items.contains(
                JsonView::Number(Some(id as u64)),
            )),
            _ => !declares(declared_eos(config), id),
        },
        config.get("eos_token_id"@) is Some ==> declared_eos(config) == config.get(
            "eos_token_id"@,
        ),
        config.get("eos_token_id"@) is None ==> declared_eos(config) == (match config.get(
            "text_config"@,
        ) {
            Some(text) => text.get("eos_token_id"@),
            None => None,
        }),
{
    match declared_eos(config) {
        Some(JsonView::List(items)) => {
            if forall|i: int|
                0 <= i < items.len() ==> (#[trigger] items[i] matches JsonView::Number(Some(n)) ==> n
                    <= u32::MAX) {
                if declares(declared_eos(config), id) {
                    let i = choose|i: int|
                        0 <= i < items.len() && #[trigger] crate::model_import::shape::id_of(
                            items[i],
                        ) == Some(id);
                    assert(items[i] == JsonView::Number(Some(id as u64)));
                    assert(items.contains(items[i]));
                }
                if items.contains(JsonView::Number(Some(id as u64))) {
                    let i = items.index_of(JsonView::Number(Some(id as u64)));
                    assert(crate::model_import::shape::id_of(items[i]) == Some(id));
                }
            }
        },
        _ => {},
    }
}

/// The families are the layers that are the first of their attention type, in order, one
/// for each type.
pub proof fn families_are_the_first_of_each_type(types: Seq<Seq<char>>, n: nat)
    requires
        n <= types.len(),
        n <= usize::MAX,
    ensures
        forall|i: int, j: int|
            #![trigger type_leaders(types, n)[i], type_leaders(types, n)[j]]
            0 <= i < j < type_leaders(types, n).len() ==> type_leaders(types, n)[i] < type_leaders(
                types,
                n,
            )[j],
        forall|idx: usize| #[trigger]
            type_leaders(types, n).contains(idx) <==> idx < n && forall|j: int|
                0 <= j < idx ==> (#[trigger] types[j]) != types[idx as int],
    decreases n,
{
    if n > 0 {
        families_are_the_first_of_each_type(types, (n - 1) as nat);
        let rest = type_leaders(types, (n - 1) as nat);
        let all = type_leaders(types, n);
        assert forall|i: int| 0 <= i < rest.len() implies (#[trigger] rest[i]) < n - 1 by {
            assert(rest.contains(rest[i]));
        }
        assert forall|idx: usize| #[trigger] all.contains(idx) <==> idx < n && forall|j: int|
            0 <= j < idx ==> (#[trigger] types[j]) != types[idx as int] by {
            if idx == n - 1 {
                if all.len() > rest.len() {
                    assert(all[rest.len() as int] == idx);
                } else {
                    assert(!rest.contains(idx));
                }
            } else {
                if rest.contains(idx) {
                    assert(all[rest.index_of(idx)] == idx);
                }
                if all.contains(idx) {
                    assert(rest[all.index_of(idx)] == idx);
                }
            }
        }
    }
}

/// The borrowers of a donor are the layers that borrow from it, in order.
pub proof fn borrowers_borrow_from_their_donor(shape: ShapeView, donor: i32, n: nat)
    requires
        n <= usize::MAX,
    ensures
        forall|i: int, j: int|
            #![trigger borrowers_of(shape, donor, n)[i], borrowers_of(shape, donor, n)[j]]
            0 <= i < j < borrowers_of(shape, donor, n).len() ==> borrowers_of(shape, donor, n)[i]
                < borrowers_of(shape, donor, n)[j],
        forall|idx: usize| #[trigger]
            borrowers_of(shape, donor, n).contains(idx) <==> idx < n && shape.kv_donor_layer(
                idx as int,
            ) == donor,
    decreases n,
{
    if n > 0 {
        borrowers_borrow_from_their_donor(shape, donor, (n - 1) as nat);
        let rest = borrowers_of(shape, donor, (n - 1) as nat);
        let all = borrowers_of(shape, donor, n);
        assert forall|i: int| 0 <= i < rest.len() implies (#[trigger] rest[i]) < n - 1 by {
            assert(rest.contains(rest[i]));
        }
        assert forall|idx: usize| #[trigger] all.contains(idx) <==> idx < n
            && shape.kv_donor_layer(idx as int) == donor by {
            if idx == n - 1 {
                if all.len() > rest.len() {
                    assert(all[rest.len() as int] == idx);
                } else {
                    assert(!rest.contains(idx));
                }
            } else {
                if rest.contains(idx) {
                    assert(all[rest.index_of(idx)] == idx);
                }
                if all.contains(idx) {
                    assert(rest[all.index_of(idx)] == idx);
                }
            }
        }
    }
}

/// A file that cannot be read has no shapes and declares no ids; any other is taken by
/// its document.
pub proof fn a_file_is_taken_by_its_document(bytes: Seq<u8>, id: u32)
    ensures
        match json::document(bytes) {
            Ok(config) => {
                &&& file_shape(bytes) == config_shape(config)
                &&& file_declares(bytes, id) == declares(declared_eos(config), id)
            },
            Err(e) => {
                &&& file_shape(bytes) == Err::<ShapeView, Seq<char>>(e)
                &&& !file_declares(bytes, id)
            },
        },
{
}

/// The sharing layers are the last ones; with as many of them as layers, or more, every
/// layer shares and none has a donor.
pub proof fn the_last_layers_share(shape: ShapeView, idx: int)
    ensures
        shape.num_kv_shared_layers <= shape.layers ==> shape.first_shared() == shape.layers
            - shape.num_kv_shared_layers,
        shape.num_kv_shared_layers >= shape.layers ==> shape.first_shared() == 0
            && shape.kv_donor_layer(idx) == -1,
{
    if shape.num_kv_shared_layers >= shape.layers && shape.borrows(idx) {
        let d = choose|donor: int| #[trigger] shape.is_donor(idx, donor);
        assert(shape.is_donor(idx, d));
    }
}

} // verus!
