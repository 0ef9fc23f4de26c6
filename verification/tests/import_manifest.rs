use raster_chain_inference::model_import::args::{parse_args, parse_u32, Task};
use raster_chain_inference::model_import::manifest::{
    aux_stage, chain_manifest, embedding_stage, external_line, finalize_stage, generation_stages,
    import_manifest, indexed_model_inputs, prompt_stage, range_stage, stage_external_commitment,
    stage_fixtures, write_stages, Fixture, StageCommitments,
};
use raster_chain_inference::model_import::shape::Shape;
use raster_chain_inference::model_import::text_lines::split_lines;

fn shape(layers: u64, shared: u64) -> Shape {
    Shape {
        hidden: 2,
        layers,
        heads: 1,
        kv_heads: 1,
        head_dim: 2,
        global_head_dim: 2,
        num_kv_shared_layers: shared,
        vocab: 1,
        ple_width: 1,
        sliding_window: 0,
        layer_types: (0..layers).map(|_| "full_attention".to_string()).collect(),
    }
}

fn stages(shape: &Shape, candidates: (i32, i32)) -> Vec<String> {
    let mut out = vec![prompt_stage("c-tok", "c-pieces"), embedding_stage("c-emb")];
    for i in 0..shape.layers {
        out.push(aux_stage(i, &format!("c-aux{i}")));
    }
    for i in 0..shape.layers {
        out.push(range_stage(shape, candidates, i, &format!("c-layer{i}")));
    }
    out.push(finalize_stage(shape.layers - 1, "c-head"));
    out
}

#[test]
fn bindings_are_written_and_read_back() {
    assert_eq!(
        external_line("layer", "prefill-range", "layer3", "abc"),
        "inputs.layer = { external = { path = \"prefill-range/layer3.rastered\", index_path = \"prefill-range/layer3.rindex\", commitment = \"abc\" } }\n"
    );
    let all = stages(&shape(2, 0), (-2, -3));
    assert_eq!(stage_external_commitment(&all, "prefill_range_l1", "layer").unwrap(), "c-layer1");
    assert_eq!(stage_external_commitment(&all, "prompt_prepare", "initial_pieces").unwrap(), "c-pieces");
    assert_eq!(
        stage_external_commitment(&all, "prefill_range_l2", "layer").unwrap_err(),
        "generated prefill manifest has no prefill_range_l2.layer binding"
    );
    assert_eq!(
        stage_external_commitment(&all, "prefill_range_l1", "ple").unwrap_err(),
        "prefill_range_l1.ple is not an external binding"
    );
    let cut = vec!["name = \"x\"\ninputs.a = commitment = \"abc".to_string()];
    assert_eq!(
        stage_external_commitment(&cut, "x", "a").unwrap_err(),
        "x.a has an unterminated commitment"
    );
}

#[test]
fn stages_name_their_inputs() {
    assert_eq!(
        embedding_stage("c"),
        "[[chain.stage]]\nname = \"input_embedding\"\nproject = \"input-embedding\"\ninputs.prompt = { from = \"prompt_prepare\" }\ninputs.embedding = { external = { path = \"input-embedding/embedding.rastered\", index_path = \"input-embedding/embedding.rindex\", commitment = \"c\" } }\n"
    );
    let s = shape(3, 1);
    let owner = range_stage(&s, (1, -3), 1, "c");
    assert!(owner.contains("inputs.activations = { from = \"prefill_range_l0\" }\n"));
    assert!(owner.contains("inputs.donor_a_kv = { from = \"input_embedding\" }\n"));
    let borrower = range_stage(&s, (1, -3), 2, "c");
    assert!(borrower.contains("inputs.donor_a_kv = { from = \"prefill_range_l1\" }\n"));
    assert!(borrower.contains("inputs.donor_b_kv = { from = \"prefill_range_l-3\" }\n"));
    assert!(range_stage(&s, (1, -3), 0, "c")
        .contains("inputs.activations = { from = \"input_embedding\" }\n"));
}

#[test]
fn inputs_are_listed_by_layer() {
    let s = shape(2, 0);
    let text = indexed_model_inputs(&s, &stages(&s, (-2, -3))).unwrap();
    assert_eq!(
        text,
        "\n[chain.input.aux_layer]\nindex = \"l\"\npath = \"prefill-prepare-aux/layer{l}.rastered\"\nindex_path = \"prefill-prepare-aux/layer{l}.rindex\"\ncommitments = [\n  \"c-aux0\", # l0\n  \"c-aux1\", # l1\n]\n\n[chain.input.transformer_layer]\nindex = \"l\"\npath = \"prefill-range/layer{l}.rastered\"\nindex_path = \"prefill-range/layer{l}.rindex\"\ncommitments = [\n  \"c-layer0\", # l0\n  \"c-layer1\", # l1\n]\n"
    );
    assert!(indexed_model_inputs(&shape(3, 0), &stages(&s, (-2, -3))).is_err());
    assert!(indexed_model_inputs(&shape(0, 0), &vec![]).unwrap().contains("commitments = [\n\n]\n"));
}

#[test]
fn the_decode_loop_is_one_repeat() {
    let s = shape(3, 1);
    let all = stages(&s, (1, -3));
    let text = generation_stages(&s, &vec![1], "c-dec", 4, &all).unwrap();
    let lines = split_lines(&text);
    assert_eq!(lines.iter().filter(|l| l.as_str() == "[[chain.repeat]]").count(), 1);
    assert!(text.contains("count = 4\n"));
    assert!(text.contains("  inputs.embedding = { external = { path = \"input-embedding/embedding.rastered\", index_path = \"input-embedding/embedding.rindex\", commitment = \"c-emb\" } }\n"));
    assert!(text.contains("start = 0\ncount = 2\n"));
    assert!(text.contains("start = 2\ncount = 1\n"));
    assert!(text.contains("first = \"decode_range_t{t}_l1\" }\n"));
    assert!(text.contains("inputs.donor_a_kv = { from = \"decode_range_t{t}_l1\" }\ninputs.donor_b_kv = { from = \"input_embedding\" }\n"));
    assert!(text.contains("inputs.activations = { from = \"decode_range_t{t}_l2\" }\ninputs.head = { external = { path = \"prefill-finalize/head.rastered\""));
    assert!(text.ends_with("inputs.edge = { from = \"decode.edge\" }\ninputs.decoder = { external = { path = \"output-finalize/decoder.rastered\", index_path = \"output-finalize/decoder.rindex\", commitment = \"c-dec\" } }\n"));
    assert_eq!(
        generation_stages(&s, &vec![0, 1, 2], "c", 1, &all).unwrap_err(),
        "decode repeat supports at most two donor candidates, model declares 3"
    );
    assert!(generation_stages(&s, &vec![], "c", 1, &vec![]).is_err());
}

#[test]
fn a_manifest_holds_every_stage() {
    let s = shape(2, 0);
    let all = stages(&s, (-2, -3));
    let text = chain_manifest(&s, &vec![], "c-dec", 0, &all).unwrap();
    assert!(text.starts_with(
        "[chain]\nname = \"raster-chain-inference\"\nversion = \"0.1.0\"\n\n[chain.input.aux_layer]\n"
    ));
    // Prefill, decode_init and output_finalize.
    assert_eq!(text.matches("[[chain.stage]]").count(), all.len() + 2);
    for stage in &all {
        assert!(text.contains(&format!("\n{stage}")));
    }
    assert!(!text.contains("start = 2"));
}

#[test]
fn a_manifest_comes_out_of_the_commitments() {
    let mut s = shape(2, 1);
    let c = StageCommitments {
        tokenizer: "c-tok".to_string(),
        pieces: "c-pieces".to_string(),
        embedding: "c-emb".to_string(),
        aux: vec!["c-aux0".to_string(), "c-aux1".to_string()],
        layers: vec!["c-layer0".to_string(), "c-layer1".to_string()],
        head: "c-head".to_string(),
    };
    let written = write_stages(&s, (0, -3), &c);
    assert_eq!(written, stages(&s, (0, -3)));
    let text = import_manifest(&s, &c, "c-dec", 5).unwrap();
    assert_eq!(text, chain_manifest(&s, &vec![0], "c-dec", 5, &written).unwrap());
    s.num_kv_shared_layers = 0;
    assert!(import_manifest(&s, &c, "c-dec", 5).is_ok());
}

#[test]
fn a_stage_can_be_run_on_its_own() {
    let f = |p: &str| Fixture {
        param: p.to_string(),
        name: p.to_string(),
        commitment: format!("c-{p}"),
    };
    let (paths, commitments) = stage_fixtures(&vec![f("a"), f("b")]);
    assert_eq!(
        paths,
        "{\n  \"a\": { \"path\": \"a.rastered\", \"index_path\": \"a.rindex\", \"load_preference\": \"read\" },\n  \"b\": { \"path\": \"b.rastered\", \"index_path\": \"b.rindex\", \"load_preference\": \"read\" }\n}\n"
    );
    assert_eq!(
        commitments,
        "{\n  \"a\": { \"type\": \"sha256\", \"encoding\": \"raster\", \"commitment\": \"c-a\" },\n  \"b\": { \"type\": \"sha256\", \"encoding\": \"raster\", \"commitment\": \"c-b\" }\n}\n"
    );
    assert_eq!(stage_fixtures(&vec![]).0, "{\n\n}\n");
}

#[test]
fn lines_end_as_in_text_files() {
    assert_eq!(split_lines("a\r\nb\n\nc\r"), vec!["a", "b", "", "c\r"]);
    assert_eq!(split_lines(""), Vec::<String>::new());
}

fn args(items: &[&str]) -> Vec<String> {
    items.iter().map(|s| s.to_string()).collect()
}

#[test]
fn a_command_line_is_read() {
    let a = parse_args(&args(&["--model", "dir"])).unwrap();
    assert_eq!((a.model_dir.as_str(), a.prompt.as_str(), a.tokens), ("dir", "hello raster", 1));
    assert_eq!(a.manifest, None);
    assert_eq!(a.task(), Task::Everything);
    let a = parse_args(&args(&[
        "--prompt", "p", "--raw-prompt", "--tokens", "+3", "--manifest", "m", "--only-layers",
        "--only-ple", "--model", "d",
    ]))
    .unwrap();
    assert!(a.raw_prompt);
    assert_eq!((a.prompt.as_str(), a.tokens, a.manifest.as_deref()), ("p", 3, Some("m")));
    assert_eq!(a.task(), Task::PerLayerEmbeddings);
    let err = |items: &[&str]| parse_args(&args(items)).err().unwrap();
    assert_eq!(err(&[]), "--model <bundle-dir> is required");
    assert_eq!(err(&["--model"]), "--model <bundle-dir> is required");
    assert_eq!(err(&["--prompt"]), "--prompt needs a value");
    assert_eq!(err(&["--tokens"]), "--tokens needs a value");
    assert_eq!(err(&["--tokens", "-1"]), "--tokens must be a non-negative integer");
    assert_eq!(err(&["what"]), "unknown argument 'what'");
}

#[test]
fn numbers_are_read_as_by_parse() {
    for s in ["", "+", "0", "007", "4294967295", "4294967296", "+5", "-0", "1a", " 1", "99999999999999999999"] {
        assert_eq!(parse_u32(s), s.parse::<u32>().ok(), "{s}");
    }
}

fn one_stage(name: &str, binding: &str) -> Vec<String> {
    vec![format!("[[chain.stage]]\nname = \"{name}\"\n{binding}")]
}

#[test]
fn what_one_stage_binds_is_found() {
    let bound = one_stage("s", &external_line("p", "d", "n", "c0ffee"));
    assert_eq!(stage_external_commitment(&bound, "s", "p").unwrap(), "c0ffee");
    assert_eq!(
        stage_external_commitment(&bound, "t", "p").unwrap_err(),
        "generated prefill manifest has no t.p binding"
    );
    assert_eq!(
        stage_external_commitment(&bound, "s", "q").unwrap_err(),
        "generated prefill manifest has no s.q binding"
    );
    // A parameter is told by the front of its binding alone.
    let odd = one_stage("s", &external_line("a = b", "d", "n", "c0ffee"));
    assert_eq!(stage_external_commitment(&odd, "s", "a").unwrap(), "c0ffee");
    let from = one_stage("s", "inputs.p = { from = \"t\" }\n");
    assert_eq!(
        stage_external_commitment(&from, "s", "p").unwrap_err(),
        "s.p is not an external binding"
    );
    let marker = one_stage("s", "inputs.p = { from = \"commitment = \" }\n");
    assert_eq!(
        stage_external_commitment(&marker, "s", "p").unwrap_err(),
        "s.p has an unterminated commitment"
    );
}
