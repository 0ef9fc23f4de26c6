use raster_chain_inference::model_import::detwgt::{load, Artifact, Tensor};
use raster_chain_inference::model_import::externals::{
    donor_candidates, donor_layers, embedding_external, head_external, ple_layer_external,
    ple_tensors, transformer_layer_external,
};
use raster_chain_inference::model_import::shape::{inv_sqrt_q16, Scalars, Shape};
use raster_chain_inference::pages::{unpack_i32s, Bytes};

struct Record {
    name: &'static [u8],
    dims: Vec<u64>,
    count: u64,
    width: u32,
    payload: Vec<u8>,
    padding: u8,
}

fn record(name: &'static str, dims: &[u64], values: &[i32]) -> Record {
    Record {
        name: name.as_bytes(),
        dims: dims.to_vec(),
        count: values.len() as u64,
        width: 32,
        payload: values.iter().flat_map(|v| v.to_le_bytes()).collect(),
        padding: 0,
    }
}

fn artifact(records: &[Record]) -> Vec<u8> {
    let mut out = b"DNWGTV0\0".to_vec();
    out.extend_from_slice(&2u32.to_le_bytes());
    out.extend_from_slice(&1u32.to_le_bytes());
    out.extend_from_slice(&(records.len() as u64).to_le_bytes());
    for r in records {
        out.extend_from_slice(&(r.name.len() as u32).to_le_bytes());
        out.extend_from_slice(r.name);
        out.extend_from_slice(&(r.dims.len() as u32).to_le_bytes());
        for d in &r.dims {
            out.extend_from_slice(&d.to_le_bytes());
        }
        out.extend_from_slice(&r.count.to_le_bytes());
        out.extend_from_slice(&r.width.to_le_bytes());
        out.extend_from_slice(&(r.payload.len() as u64).to_le_bytes());
        out.extend_from_slice(&0u64.to_le_bytes());
        while out.len() % 64 != 0 {
            out.push(r.padding);
        }
        out.extend_from_slice(&r.payload);
    }
    out
}

fn error(bytes: &[u8]) -> String {
    load(bytes, "model.detwgt").err().unwrap()
}

#[test]
fn tensors_are_read_by_name() {
    let mut narrow = record("a", &[2, 2], &[]);
    narrow.count = 4;
    narrow.width = 16;
    narrow.payload = vec![1, 0, 0xff, 0xff, 0, 0x80, 0xff, 0x7f];
    let weights =
        load(&artifact(&[record("b", &[1, 3], &[7, -8, i32::MIN]), narrow]), "m").unwrap();
    assert_eq!(weights.names(), &vec!["a".to_string(), "b".to_string()]);
    assert_eq!(weights.get("a").unwrap().values, vec![1, -1, -32768, 32767]);
    assert_eq!(weights.get("b").unwrap().values, vec![7, -8, i32::MIN]);
    assert_eq!(weights.get("b").unwrap().dims, vec![1, 3]);
    assert_eq!(weights.get("c").err().unwrap(), "model artifact has no tensor 'c'");
    assert_eq!(load(&artifact(&[]), "m").unwrap().names().len(), 0);
}

#[test]
fn a_deviation_is_an_error() {
    let good = artifact(&[record("t", &[2], &[1, 2])]);
    assert!(load(&good, "m").is_ok());
    let mut wrong = good.clone();
    wrong[0] = b'X';
    assert_eq!(error(&wrong), "model.detwgt is not a detwgt artifact");
    let mut wrong = good.clone();
    wrong[8] = 3;
    assert_eq!(
        error(&wrong),
        "model.detwgt is detwgt v3; this importer reads v2 (re-run gemma-det-num-wgt-converter)"
    );
    let mut wrong = good.clone();
    wrong[12] = 9;
    assert_eq!(error(&wrong), "unsupported det_num spec version 9");
    for cut in [0, 7, 11, 15, 23, 27, 40, good.len() - 1] {
        assert_eq!(error(&good[..cut]), "artifact ended mid-record");
    }
    let mut wrong = good.clone();
    wrong.push(0);
    assert_eq!(error(&wrong), "trailing bytes after the last tensor payload");
    let mut r = record("t", &[3], &[1, 2]);
    assert_eq!(error(&artifact(&[r])), "tensor 't' element count does not match its shape");
    r = record("t", &[2], &[1, 2]);
    r.payload.pop();
    assert_eq!(error(&artifact(&[r])), "tensor 't' payload length does not match its width");
    r = record("t", &[2], &[1, 2]);
    r.padding = 1;
    assert_eq!(error(&artifact(&[r])), "tensor 't' has non-zero padding");
    r = record("t", &[1], &[0]);
    r.width = 8;
    r.payload = vec![0];
    assert_eq!(error(&artifact(&[r])), "tensor 't' has element width 8");
    assert_eq!(
        error(&artifact(&[record("t", &[1], &[1]), record("t", &[1], &[2])])),
        "duplicate tensor 't' in artifact"
    );
    r = record("t", &[1], &[1]);
    r.name = &[0xff, 0xfe];
    assert_eq!(error(&artifact(&[r])), String::from_utf8(vec![0xff, 0xfe]).unwrap_err().to_string());
    r = record("t", &[u64::MAX, 0, 5], &[]);
    assert!(load(&artifact(&[r]), "m").is_ok());
}

#[test]
fn rows_and_columns_of_a_tensor() {
    let t = Tensor { dims: vec![2, 3], values: vec![1, 2, 3, 4, 5, 6] };
    assert_eq!(t.row(1).unwrap(), &[4, 5, 6]);
    assert_eq!(t.row(2).unwrap_err(), "row 2 out of range");
    assert_eq!(t.rows(0, 2).unwrap(), vec![1, 2, 3, 4, 5, 6]);
    assert_eq!(t.rows(1, 3).unwrap_err(), "rows 1..3 out of range");
    assert_eq!(t.column_slice(1, 3).unwrap(), vec![2, 3, 5, 6]);
    assert_eq!(
        t.column_slice(5, 4).unwrap_err(),
        "columns 5..4 out of range for width 3"
    );
    assert_eq!(
        t.column_slice(2, 4).unwrap_err(),
        "columns 2..4 out of range for width 3"
    );
    let none = Tensor { dims: vec![], values: vec![] };
    assert_eq!(none.row(0).unwrap_err(), "tensor has no dimensions");
    assert_eq!(none.rows(0, 0).unwrap_err(), "tensor has no dimensions");
    assert_eq!(none.column_slice(0, 0).unwrap_err(), "tensor has no dimensions");
}

fn shape() -> Shape {
    Shape {
        hidden: 2,
        layers: 1,
        heads: 3,
        kv_heads: 1,
        head_dim: 4,
        global_head_dim: 8,
        num_kv_shared_layers: 0,
        vocab: 2,
        ple_width: 1,
        sliding_window: 16,
        layer_types: vec!["sliding_attention".to_string()],
    }
}

fn scalars() -> Scalars {
    Scalars {
        rope_base_sliding: 10_000,
        rope_base_full: 1_000_000,
        full_rotary_dim: 2,
        norm_eps: 77,
        embedding_scale: 11,
        ple_embedding_scale: 12,
        projection_scalar: 13,
        input_scale: 14,
        softcap: 15,
    }
}

fn bundle() -> Vec<Record> {
    let l = |s: &'static str, v: &[i32]| record(s, &[v.len() as u64], v);
    vec![
        record("model.language_model.embed_tokens.weight", &[3, 2], &[1, 2, 3, 4, 5, 6]),
        record("model.language_model.lm_head.weight", &[2, 2], &[9, 8, 7, 6]),
        l("model.language_model.norm.weight", &[21, 22]),
        record("model.language_model.embed_tokens_per_layer.weight", &[2, 1], &[31, 32]),
        record("model.language_model.per_layer_model_projection.weight", &[1, 2], &[33, 34]),
        l("model.language_model.per_layer_projection_norm.weight", &[35]),
        record("model.language_model.layers.0.mlp.gate_proj.weight", &[5, 2], &[40; 10]),
        l("model.language_model.layers.0.input_layernorm.weight", &[41]),
        l("model.language_model.layers.0.post_attention_layernorm.weight", &[42]),
        l("model.language_model.layers.0.pre_feedforward_layernorm.weight", &[43]),
        l("model.language_model.layers.0.post_feedforward_layernorm.weight", &[44]),
        l("model.language_model.layers.0.self_attn.q_norm.weight", &[45]),
        l("model.language_model.layers.0.self_attn.k_norm.weight", &[46]),
        l("model.language_model.layers.0.post_per_layer_input_norm.weight", &[47]),
        l("model.language_model.layers.0.self_attn.q_proj.weight", &[48]),
        l("model.language_model.layers.0.self_attn.k_proj.weight", &[49]),
        l("model.language_model.layers.0.self_attn.o_proj.weight", &[50]),
        l("model.language_model.layers.0.mlp.up_proj.weight", &[51]),
        l("model.language_model.layers.0.per_layer_input_gate.weight", &[52]),
        l("model.language_model.layers.0.per_layer_projection.weight", &[53]),
        l("model.language_model.layers.0.mlp.down_proj.weight", &[54]),
    ]
}

fn lanes(region: &Bytes) -> Vec<i32> {
    region.pages.iter().flat_map(|p| unpack_i32s(p).unwrap()).collect()
}

fn weights(records: &[Record]) -> Artifact {
    load(&artifact(records), "m").unwrap()
}

#[test]
fn weights_cross_over_unchanged() {
    let w = weights(&bundle());
    let table = embedding_external(&w, &shape(), &scalars()).unwrap();
    assert_eq!((table.hidden_size, table.embedding_scale), (2, 11));
    assert_eq!(lanes(&table.values), vec![1, 2, 3, 4]);

    let ple = ple_layer_external(&ple_tensors(&w).unwrap(), &shape(), &scalars(), 0).unwrap();
    assert_eq!(lanes(&ple.embeddings), vec![31, 32]);
    assert_eq!(lanes(&ple.projection), vec![33, 34]);
    assert_eq!(unpack_i32s(&ple.params.norm_weights).unwrap(), vec![35]);
    assert_eq!(
        (ple.params.embedding_scale, ple.params.projection_scalar, ple.params.input_scale),
        (12, 13, 14)
    );
    assert_eq!(
        ple_layer_external(&ple_tensors(&w).unwrap(), &shape(), &scalars(), 1).err().unwrap(),
        "columns 1..2 out of range for width 1"
    );

    let untied = head_external(&w, &shape(), &scalars(), false).unwrap();
    assert_eq!(lanes(&untied.projection), vec![9, 8, 7, 6]);
    assert_eq!(untied.params.softcap, 15);
    let tied = head_external(&w, &shape(), &scalars(), true).unwrap();
    assert_eq!(lanes(&tied.projection), vec![1, 2, 3, 4]);
}

#[test]
fn inverse_roots_are_rounded_in_integers() {
    for (n, scale) in [
        (0, 0),
        (1, 65_536),
        (2, 46_341),
        (3, 37_837),
        (64, 8_192),
        (256, 4_096),
        (512, 2_896),
        (0x4_0000_0000, 1),
        (0x4_0000_0001, 0),
        (u64::MAX, 0),
    ] {
        assert_eq!(inv_sqrt_q16(n), scale);
        let float = if n == 0 { 0.0 } else { (65_536.0 / (n as f64).sqrt()).round() };
        assert_eq!(scale as f64, float);
    }
}

#[test]
fn a_layer_is_gathered_from_its_tensors() {
    let w = weights(&bundle());
    let l = transformer_layer_external(&w, &shape(), &scalars(), (-2, -3), 0).unwrap();
    assert_eq!(l.params.ffn_size, 5);
    assert_eq!(l.params.head_dim, 4);
    assert_eq!(l.params.rotary_dim, 4);
    assert_eq!(l.params.sliding_window, 16);
    assert_eq!(l.params.attn_scale, 32_768);
    assert_eq!(l.params.layer_scalar, 0);
    assert_eq!(l.params.norm_eps, 77);
    assert_eq!(l.params.kv_donor_layer, -1);
    assert_eq!((l.params.donor_a_layer, l.params.donor_b_layer), (-2, -3));
    assert_eq!(unpack_i32s(&l.params.ple_post_norm).unwrap(), vec![47]);
    // Without stored values the keys take their place.
    assert_eq!(lanes(&l.w_v), vec![49]);
    assert_eq!(lanes(&l.w_down), vec![54]);

    let mut more = bundle();
    more.push(record("model.language_model.layers.0.self_attn.v_proj.weight", &[1], &[60]));
    more.push(record("model.language_model.layers.0.layer_scalar", &[1], &[61]));
    let l = transformer_layer_external(&weights(&more), &shape(), &scalars(), (-2, -3), 0).unwrap();
    assert_eq!(lanes(&l.w_v), vec![60]);
    assert_eq!(l.params.layer_scalar, 61);
}

#[test]
fn a_missing_tensor_is_named() {
    let mut less = bundle();
    less.remove(10);
    assert_eq!(
        transformer_layer_external(&weights(&less), &shape(), &scalars(), (-2, -3), 0)
            .err()
            .unwrap(),
        "model artifact has no tensor 'model.language_model.layers.0.post_feedforward_layernorm.weight'"
    );
    let none = weights(&[]);
    assert_eq!(
        embedding_external(&none, &shape(), &scalars()).err().unwrap(),
        "model artifact has no tensor 'model.language_model.embed_tokens.weight'"
    );
    assert!(ple_tensors(&none).is_err());
    let mut short = shape();
    short.vocab = 4;
    assert_eq!(
        embedding_external(&weights(&bundle()), &short, &scalars()).err().unwrap(),
        "row 3 out of range"
    );
    assert!(head_external(&none, &shape(), &scalars(), true).is_err());
}

#[test]
fn donors_are_the_last_owner_of_each_type() {
    let mut s = shape();
    s.layers = 6;
    s.num_kv_shared_layers = 3;
    s.layer_types = ["sliding_attention", "full_attention", "sliding_attention"]
        .iter()
        .cycle()
        .take(6)
        .map(|t| t.to_string())
        .collect();
    assert_eq!(
        (0..6).map(|i| s.kv_donor_layer(i)).collect::<Vec<_>>(),
        vec![-1, -1, -1, 2, 1, 2]
    );
    assert_eq!(s.kv_donor_layer(6), -1);
    assert_eq!(donor_layers(&s), vec![1, 2]);
    assert_eq!(donor_candidates(&vec![1, 2]), Ok((1, 2)));
    assert_eq!(donor_candidates(&vec![]), Ok((-2, -3)));
    assert_eq!(
        donor_candidates(&vec![1, 2, 3]).unwrap_err(),
        "this chain supports at most two KV donor candidates, model declares 3"
    );
    assert_eq!(s.borrowers(2), vec![3, 5]);
    assert_eq!(s.families(), vec![0, 1]);
    assert_eq!(s.head_dim_at(1), 8);
    s.num_kv_shared_layers = 0;
    assert!(donor_layers(&s).is_empty());
}
