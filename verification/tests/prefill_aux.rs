use raster_chain_inference::activations::{ActivationRow, ActivationSequence};
use raster_chain_inference::model_import::externals::{page_of_i32s, paged_i32s};
use raster_chain_inference::pages::{pack_i32s, unpack_i32s};
use raster_chain_inference::prefill_prepare_aux::{
    assert_layer_complete, prepare_layer, validate_layer_params, PleLayer, PleLayerParams,
};

const ONE: i32 = 1 << 16;

fn params(width: u32) -> PleLayerParams {
    PleLayerParams {
        layer_idx: 3,
        hidden_size: 2,
        ple_width: width,
        embedding_scale: 2 * ONE,
        projection_scalar: ONE,
        input_scale: ONE,
        norm_eps: 0,
        norm_weights: page_of_i32s(&[0, 0]),
    }
}

fn run(rows: &[(u32, [i32; 2])]) -> ActivationSequence {
    ActivationSequence {
        rows: rows
            .iter()
            .map(|(id, v)| ActivationRow { token_id: *id, values: pack_i32s(v) })
            .collect(),
        errors: vec![],
        kv: vec![],
        start_position: 0,
    }
}

#[test]
fn a_layer_has_a_row_per_token() {
    // With a zero norm weight the projection vanishes and the scaled table remains.
    let layer = PleLayer {
        params: params(2),
        embeddings: paged_i32s(&[1, 2, 3, 4]),
        projection: paged_i32s(&[ONE, 0, 0, ONE]),
    };
    let out = prepare_layer(&run(&[(1, [ONE, ONE]), (0, [ONE, 0])]), layer).unwrap();
    assert_eq!(out.layer_idx, 3);
    let rows: Vec<Vec<i32>> =
        out.rows.iter().map(|r| unpack_i32s(&r.values).unwrap()).collect();
    assert_eq!(rows, vec![vec![6, 8], vec![2, 4]]);
}

#[test]
fn the_projection_is_normalised_and_added() {
    let mut p = params(2);
    p.norm_weights = page_of_i32s(&[ONE, ONE]);
    let layer = PleLayer {
        params: p,
        embeddings: paged_i32s(&[0, 0]),
        projection: paged_i32s(&[ONE, 0, 0, ONE]),
    };
    let out = prepare_layer(&run(&[(0, [3 * ONE, 3 * ONE])]), layer).unwrap();
    let row = unpack_i32s(&out.rows[0].values).unwrap();
    assert!((row[0] - ONE).abs() <= 2 && row[0] == row[1], "{row:?}");
}

#[test]
fn a_short_matrix_is_refused() {
    let layer = PleLayer {
        params: params(2),
        embeddings: paged_i32s(&[1, 2]),
        projection: paged_i32s(&[ONE, 0, 0]),
    };
    assert!(prepare_layer(&run(&[(0, [ONE, ONE])]), layer).is_err());
}

#[test]
fn bad_ple_parameters_are_refused() {
    assert!(validate_layer_params(params(2)).is_ok());
    assert!(validate_layer_params(params(0)).is_err());
    let mut p = params(2);
    p.hidden_size = 0;
    assert!(validate_layer_params(p).is_err());
    assert!(assert_layer_complete(1, &"row".to_string()).is_err());
    assert_eq!(assert_layer_complete(0, &String::new()), Ok(0));
}
