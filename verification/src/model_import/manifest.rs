//! The chain manifest: one stage per program invocation, the decode loop as one
//! repeat block.

use crate::lists::{views, views_of_empty, views_of_push};
use crate::model_import::externals::{
    ascending_layers, candidates, donor_candidates, donor_layers, is_donor_layer,
};
use crate::model_import::shape::{Shape, ShapeView};
use crate::model_import::text_lines::{
    find, found_at, join_lines, joined, lines_of, matches_at, split_lines, stands_at,
};
use crate::text::{chars_of, dec, decimal, outcome, signed_dec, signed_decimal, text_of};
use vstd::prelude::*;

verus! {

/// The binding of a stage's parameter to a committed external.
pub open spec fn external_text(
    param: Seq<char>,
    dir: Seq<char>,
    name: Seq<char>,
    commitment: Seq<char>,
) -> Seq<char> {
    "inputs."@ + param + " = { external = { path = \""@ + dir + "/"@ + name
        + ".rastered\", index_path = \""@ + dir + "/"@ + name + ".rindex\", commitment = \""@
        + commitment + "\" } }"@
}

fn external_binding(param: &str, dir: &str, name: &str, commitment: &str) -> (r: String)
    ensures
        r@ == external_text(param@, dir@, name@, commitment@),
{
    String::from_str("inputs.").concat(param).concat(" = { external = { path = \"").concat(
        dir,
    ).concat("/").concat(name).concat(".rastered\", index_path = \"").concat(dir).concat(
        "/",
    ).concat(name).concat(".rindex\", commitment = \"").concat(commitment).concat("\" } }")
}

/// The manifest line that binds a parameter to a committed external.
pub fn external_line(param: &str, stage_dir: &str, name: &str, commitment: &str) -> (r: String)
    ensures
        r@ == external_text(param@, stage_dir@, name@, commitment@) + "\n"@,
{
    external_binding(param, stage_dir, name, commitment).concat("\n")
}

/// The binding of a parameter to another stage's output.
pub open spec fn from_text(param: Seq<char>, stage: Seq<char>) -> Seq<char> {
    "inputs."@ + param + " = { from = \""@ + stage + "\" }"@
}

fn from_binding(param: &str, stage: &str) -> (r: String)
    ensures
        r@ == from_text(param@, stage@),
{
    String::from_str("inputs.").concat(param).concat(" = { from = \"").concat(stage).concat("\" }")
}

/// The line that names a stage.
pub open spec fn name_text(stage: Seq<char>) -> Seq<char> {
    "name = \""@ + stage + "\""@
}

fn name_line(stage: &str) -> (r: String)
    ensures
        r@ == name_text(stage@),
{
    String::from_str("name = \"").concat(stage).concat("\"")
}

fn text(s: &str) -> (r: String)
    ensures
        r@ == s@,
{
    String::from_str(s)
}

/// A name with a layer's number behind it.
pub open spec fn numbered(prefix: Seq<char>, n: nat) -> Seq<char> {
    prefix + dec(n)
}

/// A name with a layer's number behind it.
pub fn numbered_name(prefix: &str, n: u64) -> (r: String)
    ensures
        r@ == numbered(prefix@, n as nat),
{
    String::from_str(prefix).concat(decimal(n).as_str())
}


/// The stage that tokenizes the prompt.
pub open spec fn prompt_stage_lines(tokenizer: Seq<char>, pieces: Seq<char>) -> Seq<Seq<char>> {
    seq![
        "[[chain.stage]]"@,
        name_text("prompt_prepare"@),
        "project = \"prompt-prepare\""@,
        external_text("tokenizer"@, "prompt-prepare"@, "tokenizer"@, tokenizer),
        external_text("initial_pieces"@, "prompt-prepare"@, "initial_pieces"@, pieces),
    ]
}

/// The stage that tokenizes the prompt.
pub fn prompt_stage(tokenizer: &str, pieces: &str) -> (r: String)
    ensures
        r@ == joined(prompt_stage_lines(tokenizer@, pieces@)),
{
    let lines: Vec<String> = vec![
        text("[[chain.stage]]"),
        name_line("prompt_prepare"),
        text("project = \"prompt-prepare\""),
        external_binding("tokenizer", "prompt-prepare", "tokenizer", tokenizer),
        external_binding("initial_pieces", "prompt-prepare", "initial_pieces", pieces),
    ];
    assert(views(lines@) =~= prompt_stage_lines(tokenizer@, pieces@));
    join_lines(&lines)
}


/// The stage that embeds the prompt.
pub open spec fn embedding_stage_lines(commitment: Seq<char>) -> Seq<Seq<char>> {
    seq![
        "[[chain.stage]]"@,
        name_text("input_embedding"@),
        "project = \"input-embedding\""@,
        from_text("prompt"@, "prompt_prepare"@),
        external_text("embedding"@, "input-embedding"@, "embedding"@, commitment),
    ]
}

/// The stage that embeds the prompt.
pub fn embedding_stage(commitment: &str) -> (r: String)
    ensures
        r@ == joined(embedding_stage_lines(commitment@)),
{
    let lines: Vec<String> = vec![
        text("[[chain.stage]]"),
        name_line("input_embedding"),
        text("project = \"input-embedding\""),
        from_binding("prompt", "prompt_prepare"),
        external_binding("embedding", "input-embedding", "embedding", commitment),
    ];
    assert(views(lines@) =~= embedding_stage_lines(commitment@));
    join_lines(&lines)
}


/// The stage that prepares one layer's per-layer embeddings.
pub open spec fn aux_stage_lines(layer: nat, commitment: Seq<char>) -> Seq<Seq<char>> {
    seq![
        "[[chain.stage]]"@,
        name_text(numbered("prefill_prepare_aux_l"@, layer)),
        "project = \"prefill-prepare-aux\""@,
        from_text("embedded"@, "input_embedding"@),
        external_text("layer"@, "prefill-prepare-aux"@, numbered("layer"@, layer), commitment),
    ]
}

/// The stage that prepares one layer's per-layer embeddings.
pub fn aux_stage(layer: u64, commitment: &str) -> (r: String)
    ensures
        r@ == joined(aux_stage_lines(layer as nat, commitment@)),
{
    let lines: Vec<String> = vec![
        text("[[chain.stage]]"),
        name_line(numbered_name("prefill_prepare_aux_l", layer).as_str()),
        text("project = \"prefill-prepare-aux\""),
        from_binding("embedded", "input_embedding"),
        external_binding("layer", "prefill-prepare-aux", numbered_name("layer", layer).as_str(), commitment),
    ];
    assert(views(lines@) =~= aux_stage_lines(layer as nat, commitment@));
    join_lines(&lines)
}


/// The stage that scores the last position.
pub open spec fn finalize_stage_lines(last: nat, commitment: Seq<char>) -> Seq<Seq<char>> {
    seq![
        "[[chain.stage]]"@,
        name_text("prefill_finalize"@),
        "project = \"prefill-finalize\""@,
        from_text("activations"@, numbered("prefill_range_l"@, last)),
        external_text("head"@, "prefill-finalize"@, "head"@, commitment),
    ]
}

/// The stage that scores the last position.
pub fn finalize_stage(last: u64, commitment: &str) -> (r: String)
    ensures
        r@ == joined(finalize_stage_lines(last as nat, commitment@)),
{
    let lines: Vec<String> = vec![
        text("[[chain.stage]]"),
        name_line("prefill_finalize"),
        text("project = \"prefill-finalize\""),
        from_binding("activations", numbered_name("prefill_range_l", last).as_str()),
        external_binding("head", "prefill-finalize", "head", commitment),
    ];
    assert(views(lines@) =~= finalize_stage_lines(last as nat, commitment@));
    join_lines(&lines)
}

/// The stage whose output a layer's activations come from.
pub open spec fn upstream(layer: nat) -> Seq<char> {
    if layer == 0 {
        "input_embedding"@
    } else {
        numbered("prefill_range_l"@, (layer - 1) as nat)
    }
}

/// The stage that a layer's donor slot is bound to: before the sharing boundary the
/// empty input, since a donor that comes later would be a forward reference.
pub open spec fn donor_stage(shape: ShapeView, layer: nat, donor: i32) -> Seq<char> {
    if layer < shape.first_shared() {
        "input_embedding"@
    } else {
        "prefill_range_l"@ + signed_dec(donor as int)
    }
}

fn donor_name(shape: &Shape, layer: u64, donor: i32) -> (r: String)
    ensures
        r@ == donor_stage(shape@, layer as nat, donor),
{
    if layer < shape.first_shared() {
        String::from_str("input_embedding")
    } else {
        String::from_str("prefill_range_l").concat(signed_decimal(donor as i64).as_str())
    }
}


/// The stage that runs one transformer layer.
pub open spec fn range_stage_lines(
    shape: ShapeView,
    candidates: (i32, i32),
    layer: nat,
    commitment: Seq<char>,
) -> Seq<Seq<char>> {
    seq![
        "[[chain.stage]]"@,
        name_text(numbered("prefill_range_l"@, layer)),
        "project = \"prefill-range\""@,
        from_text("activations"@, upstream(layer)),
        from_text("prior_kv"@, "input_embedding"@),
        from_text("donor_a_kv"@, donor_stage(shape, layer, candidates.0)),
        from_text("donor_b_kv"@, donor_stage(shape, layer, candidates.1)),
        from_text("ple"@, numbered("prefill_prepare_aux_l"@, layer)),
        external_text("layer"@, "prefill-range"@, numbered("layer"@, layer), commitment),
    ]
}

/// The stage that runs one transformer layer.
pub fn range_stage(shape: &Shape, candidates: (i32, i32), layer: u64, commitment: &str) -> (r:
    String)
    ensures
        r@ == joined(range_stage_lines(shape@, candidates, layer as nat, commitment@)),
{
    let upstream_name: String = if layer == 0 {
        String::from_str("input_embedding")
    } else {
        numbered_name("prefill_range_l", layer - 1)
    };
    let lines: Vec<String> = vec![
        text("[[chain.stage]]"),
        name_line(numbered_name("prefill_range_l", layer).as_str()),
        text("project = \"prefill-range\""),
        from_binding("activations", upstream_name.as_str()),
        from_binding("prior_kv", "input_embedding"),
        from_binding("donor_a_kv", donor_name(shape, layer, candidates.0).as_str()),
        from_binding("donor_b_kv", donor_name(shape, layer, candidates.1).as_str()),
        from_binding("ple", numbered_name("prefill_prepare_aux_l", layer).as_str()),
        external_binding(
            "layer",
            "prefill-range",
            numbered_name("layer", layer).as_str(),
            commitment,
        ),
    ];
    assert(views(lines@) =~= range_stage_lines(shape@, candidates, layer as nat, commitment@));
    join_lines(&lines)
}

/// The first line that starts with a prefix.
pub open spec fn line_with(lines: Seq<Seq<char>>, prefix: Seq<char>) -> Option<Seq<char>>
    decreases lines.len(),
{
    if lines.len() == 0 {
        None
    } else if stands_at(lines[0], prefix, 0) {
        Some(lines[0])
    } else {
        line_with(lines.drop_first(), prefix)
    }
}

/// The first text that has a line.
pub open spec fn stage_with(stages: Seq<Seq<char>>, line: Seq<char>) -> Option<Seq<char>>
    decreases stages.len(),
{
    if stages.len() == 0 {
        None
    } else if lines_of(stages[0]).contains(line) {
        Some(stages[0])
    } else {
        stage_with(stages.drop_first(), line)
    }
}

/// The marker in front of a commitment.
pub open spec fn marker() -> Seq<char> {
    "commitment = \""@
}

/// The commitment in a binding, or what it lacks.
pub open spec fn bound_commitment(line: Seq<char>, label: Seq<char>) -> Result<
    Seq<char>,
    Seq<char>,
> {
    match found_at(line, marker()) {
        None => Err(label + " is not an external binding"@),
        Some(at) => {
            let rest = line.skip(at + marker().len() as int);
            match found_at(rest, "\""@) {
                None => Err(label + " has an unterminated commitment"@),
                Some(end) => Ok(rest.take(end)),
            }
        },
    }
}

/// The line that binds a parameter in the first stage of a name.
pub open spec fn binding_line(
    stages: Seq<Seq<char>>,
    stage_name: Seq<char>,
    parameter: Seq<char>,
) -> Option<Seq<char>> {
    match stage_with(stages, name_text(stage_name)) {
        Some(stage) => line_with(lines_of(stage), "inputs."@ + parameter + " = "@),
        None => None,
    }
}

/// The commitment that a stage's parameter is bound to, or what is missing.
pub open spec fn stage_commitment(
    stages: Seq<Seq<char>>,
    stage_name: Seq<char>,
    parameter: Seq<char>,
) -> Result<Seq<char>, Seq<char>> {
    let label = stage_name + "."@ + parameter;
    match binding_line(stages, stage_name, parameter) {
        None => Err("generated prefill manifest has no "@ + label + " binding"@),
        Some(line) => bound_commitment(line, label),
    }
}

fn find_line(lines: &Vec<String>, prefix: &str) -> (r: Option<usize>)
    ensures
        match line_with(views(lines@), prefix@) {
            Some(line) => r matches Some(k) && k < lines@.len() && lines@[k as int]@ == line,
            None => r is None,
        },
{
    let ghost all = views(lines@);
    let wanted: Vec<char> = chars_of(prefix);
    let mut k: usize = 0;
    assert(all.skip(0) =~= all);
    while k < lines.len()
        invariant
            k <= lines@.len(),
            all == views(lines@),
            wanted@ == prefix@,
            line_with(all, prefix@) == line_with(all.skip(k as int), prefix@),
        decreases lines@.len() - k,
    {
        let chars: Vec<char> = chars_of(lines[k].as_str());
        assert(all.skip(k as int)[0] == lines@[k as int]@);
        assert(all.skip(k as int).drop_first() =~= all.skip(k + 1));
        if matches_at(chars.as_slice(), wanted.as_slice(), 0) {
            return Some(k);
        }
        k += 1;
    }
    None
}

fn holds_line(lines: &Vec<String>, line: &String) -> (r: bool)
    ensures
        r == views(lines@).contains(line@),
{
    let ghost all = views(lines@);
    let mut k: usize = 0;
    while k < lines.len()
        invariant
            k <= lines@.len(),
            all == views(lines@),
            forall|j: int| 0 <= j < k ==> #[trigger] all[j] != line@,
        decreases lines@.len() - k,
    {
        assert(all[k as int] == lines@[k as int]@);
        if lines[k] == *line {
            return true;
        }
        k += 1;
    }
    false
}

fn find_stage(stages: &Vec<String>, line: &String) -> (r: Option<usize>)
    ensures
        match stage_with(views(stages@), line@) {
            Some(stage) => r matches Some(k) && k < stages@.len() && stages@[k as int]@ == stage,
            None => r is None,
        },
{
    let ghost all = views(stages@);
    let mut k: usize = 0;
    assert(all.skip(0) =~= all);
    while k < stages.len()
        invariant
            k <= stages@.len(),
            all == views(stages@),
            stage_with(all, line@) == stage_with(all.skip(k as int), line@),
        decreases stages@.len() - k,
    {
        let lines: Vec<String> = split_lines(stages[k].as_str());
        assert(all.skip(k as int)[0] == stages@[k as int]@);
        assert(all.skip(k as int).drop_first() =~= all.skip(k + 1));
        if holds_line(&lines, line) {
            return Some(k);
        }
        k += 1;
    }
    None
}

fn read_commitment(line: &str, label: &str) -> (r: Result<String, String>)
    ensures
        outcome(r, bound_commitment(line@, label@)),
{
    let chars: Vec<char> = chars_of(line);
    let mark: Vec<char> = chars_of("commitment = \"");
    let at: usize = match find(chars.as_slice(), mark.as_slice()) {
        Some(at) => at,
        None => return Err(String::from_str(label).concat(" is not an external binding")),
    };
    let total: usize = chars.len();
    assert(at + mark@.len() <= total);
    let start: usize = at + mark.len();
    let quote: Vec<char> = chars_of("\"");
    let rest: &[char] = &chars[start..chars.len()];
    assert(rest@ =~= line@.skip(at + marker().len() as int));
    match find(rest, quote.as_slice()) {
        Some(end) => {
            let found: String = text_of(&rest[0..end]);
            assert(found@ =~= rest@.take(end as int));
            Ok(found)
        },
        None => Err(String::from_str(label).concat(" has an unterminated commitment")),
    }
}

/// The commitment that a stage's parameter is bound to, read out of the stages' own
/// text.
pub fn stage_external_commitment(
    stages: &Vec<String>,
    stage_name: &str,
    parameter: &str,
) -> (r: Result<String, String>)
    ensures
        outcome(r, stage_commitment(views(stages@), stage_name@, parameter@)),
{
    let label: String = String::from_str(stage_name).concat(".").concat(parameter);
    let prefix: String = String::from_str("inputs.").concat(parameter).concat(" = ");
    let name: String = name_line(stage_name);
    match find_stage(stages, &name) {
        Some(k) => {
            let lines: Vec<String> = split_lines(stages[k].as_str());
            match find_line(&lines, prefix.as_str()) {
                Some(i) => return read_commitment(lines[i].as_str(), label.as_str()),
                None => {},
            }
        },
        None => {},
    }
    Err(
        String::from_str("generated prefill manifest has no ").concat(label.as_str()).concat(
            " binding",
        ),
    )
}

/// The commitments of the first `n` layers' stages, or what is missing first.
pub open spec fn layer_commitments(
    stages: Seq<Seq<char>>,
    prefix: Seq<char>,
    n: nat,
) -> Result<Seq<Seq<char>>, Seq<char>>
    decreases n,
{
    if n == 0 {
        Ok(Seq::empty())
    } else {
        match layer_commitments(stages, prefix, (n - 1) as nat) {
            Err(e) => Err(e),
            Ok(rest) => match stage_commitment(
                stages,
                numbered(prefix, (n - 1) as nat),
                "layer"@,
            ) {
                Err(e) => Err(e),
                Ok(commitment) => Ok(rest.push(commitment)),
            },
        }
    }
}

proof fn lemma_commitments_stay_failed(
    stages: Seq<Seq<char>>,
    prefix: Seq<char>,
    k: nat,
    n: nat,
)
    requires
        k <= n,
        layer_commitments(stages, prefix, k) is Err,
    ensures
        layer_commitments(stages, prefix, n) == layer_commitments(stages, prefix, k),
    decreases n,
{
    if k < n {
        lemma_commitments_stay_failed(stages, prefix, k, (n - 1) as nat);
    }
}

fn collect_commitments(stages: &Vec<String>, prefix: &str, layers: u64) -> (r: Result<
    Vec<String>,
    String,
>)
    ensures
        match layer_commitments(views(stages@), prefix@, layers as nat) {
            Ok(commitments) => r matches Ok(found) && views(found@) == commitments,
            Err(e) => r matches Err(s) && s@ == e,
        },
{
    broadcast use views_of_push;
    broadcast use views_of_empty;

    let mut found: Vec<String> = Vec::new();
    let mut layer: u64 = 0;
    while layer < layers
        invariant
            layer <= layers,
            layer_commitments(views(stages@), prefix@, layer as nat) == Ok::<
                Seq<Seq<char>>,
                Seq<char>,
            >(views(found@)),
        decreases layers - layer,
    {
        broadcast use views_of_push;

        let name: String = numbered_name(prefix, layer);
        match stage_external_commitment(stages, name.as_str(), "layer") {
            Ok(commitment) => {
                found.push(commitment);
                assert(layer_commitments(views(stages@), prefix@, (layer + 1) as nat) is Ok);
            },
            Err(e) => {
                proof {
                    lemma_commitments_stay_failed(
                        views(stages@),
                        prefix@,
                        (layer + 1) as nat,
                        layers as nat,
                    );
                }
                return Err(e);
            },
        }
        layer += 1;
    }
    Ok(found)
}

/// One committed layer in a list of inputs.
pub open spec fn input_entry(commitment: Seq<char>, layer: nat) -> Seq<char> {
    "  \""@ + commitment + "\", # l"@ + dec(layer)
}

/// The entries of a list of inputs; an empty line where there are none.
pub open spec fn input_entries(commitments: Seq<Seq<char>>) -> Seq<Seq<char>> {
    if commitments.len() == 0 {
        seq![Seq::<char>::empty()]
    } else {
        Seq::new(commitments.len(), |i: int| input_entry(commitments[i], i as nat))
    }
}

/// The lines in front of a list of inputs.
pub open spec fn input_head(name: Seq<char>, dir: Seq<char>) -> Seq<Seq<char>> {
    seq![
        ""@,
        "[chain.input."@ + name + "]"@,
        "index = \"l\""@,
        "path = \""@ + dir + "/layer{l}.rastered\""@,
        "index_path = \""@ + dir + "/layer{l}.rindex\""@,
        "commitments = ["@,
    ]
}

/// A list of inputs that every decode iteration binds by its layer's number.
pub open spec fn input_lines(name: Seq<char>, dir: Seq<char>, commitments: Seq<Seq<char>>) -> Seq<
    Seq<char>,
> {
    (input_head(name, dir) + input_entries(commitments)).push("]"@)
}

fn render_inputs(name: &str, dir: &str, commitments: &Vec<String>) -> (r: String)
    ensures
        r@ == joined(input_lines(name@, dir@, views(commitments@))),
{
    broadcast use views_of_push;

    let mut lines: Vec<String> = vec![
        text(""),
        String::from_str("[chain.input.").concat(name).concat("]"),
        text("index = \"l\""),
        String::from_str("path = \"").concat(dir).concat("/layer{l}.rastered\""),
        String::from_str("index_path = \"").concat(dir).concat("/layer{l}.rindex\""),
        text("commitments = ["),
    ];
    let ghost head = input_head(name@, dir@);
    let ghost all = views(commitments@);
    let ghost entries = input_entries(all);
    assert(views(lines@) =~= head);
    if commitments.len() == 0 {
        lines.push(String::new());
        assert(views(lines@) =~= head + entries);
    } else {
        let mut i: usize = 0;
        assert(head + entries.take(0) =~= head);
        while i < commitments.len()
            invariant
                i <= commitments@.len(),
                all == views(commitments@),
                all.len() > 0,
                entries == input_entries(all),
                views(lines@) == head + entries.take(i as int),
            decreases commitments@.len() - i,
        {
            broadcast use views_of_push;

            assert(all[i as int] == commitments@[i as int]@);
            lines.push(
                String::from_str("  \"").concat(commitments[i].as_str()).concat(
                    "\", # l",
                ).concat(decimal(i as u64).as_str()),
            );
            assert(head + entries.take(i + 1) =~= (head + entries.take(i as int)).push(
                entries[i as int],
            ));
            i += 1;
        }
        assert(entries.take(i as int) =~= entries);
    }
    lines.push(text("]"));
    assert(views(lines@) =~= input_lines(name@, dir@, all));
    join_lines(&lines)
}

/// The two lists of inputs of a manifest, or what is missing.
pub open spec fn inputs_text(stages: Seq<Seq<char>>, layers: nat) -> Result<Seq<char>, Seq<char>> {
    match layer_commitments(stages, "prefill_prepare_aux_l"@, layers) {
        Err(e) => Err(e),
        Ok(aux) => match layer_commitments(stages, "prefill_range_l"@, layers) {
            Err(e) => Err(e),
            Ok(transformer) => Ok(
                joined(input_lines("aux_layer"@, "prefill-prepare-aux"@, aux)) + joined(
                    input_lines("transformer_layer"@, "prefill-range"@, transformer),
                ),
            ),
        },
    }
}

/// Declares the layers' weights once, so that every decode iteration can bind them
/// by its layer's number.
pub fn indexed_model_inputs(shape: &Shape, stages: &Vec<String>) -> (r: Result<String, String>)
    ensures
        outcome(r, inputs_text(views(stages@), shape.layers as nat)),
{
    let aux: Vec<String> = match collect_commitments(
        stages,
        "prefill_prepare_aux_l",
        shape.layers,
    ) {
        Ok(found) => found,
        Err(e) => return Err(e),
    };
    let transformer: Vec<String> = match collect_commitments(
        stages,
        "prefill_range_l",
        shape.layers,
    ) {
        Ok(found) => found,
        Err(e) => return Err(e),
    };
    Ok(
        render_inputs("aux_layer", "prefill-prepare-aux", &aux).concat(
            render_inputs("transformer_layer", "prefill-range", &transformer).as_str(),
        ),
    )
}

/// The decode loop up to its embedding stage.
pub open spec fn decode_head(tokens: nat, embedding: Seq<char>) -> Seq<Seq<char>> {
    seq![
        ""@,
        "[[chain.stage]]"@,
        "name = \"decode_init\""@,
        "project = \"decode-init\""@,
        ""@,
        "[[chain.repeat]]"@,
        "name = \"decode\""@,
        "index = \"t\""@,
        "count = "@ + dec(tokens),
        ""@,
        "  [chain.repeat.exports.edge]"@,
        "stage = \"decode_select_t{t}\""@,
        "entry = \"decode_init\""@,
        ""@,
        "  [chain.repeat.exports.logits]"@,
        "stage = \"decode_finalize_t{t}\""@,
        "entry = \"prefill_finalize\""@,
        ""@,
        "  [[chain.repeat.stage]]"@,
        "name = \"decode_select_t{t}\""@,
        "project = \"decode-select-token\""@,
        "inputs.logits = { from = \"decode_finalize_t{t-1}\", first = \"prefill_finalize\" }"@,
        "inputs.prior = { from = \"decode_select_t{t-1}\", first = \"decode_init\" }"@,
        ""@,
        "  [[chain.repeat.stage]]"@,
        "name = \"decode_embed_t{t}\""@,
        "project = \"decode-embed\""@,
        "inputs.selected = { from = \"decode_select_t{t}\" }"@,
        "  "@ + external_text("embedding"@, "input-embedding"@, "embedding"@, embedding),
    ]
}

fn put_decode_head(lines: &mut Vec<String>, tokens: u64, embedding: &str)
    ensures
        views(final(lines)@) == views(old(lines)@) + decode_head(tokens as nat, embedding@),
{
    let ghost start = lines@;
    let mut more: Vec<String> = vec![
        text(""),
        text("[[chain.stage]]"),
        text("name = \"decode_init\""),
        text("project = \"decode-init\""),
        text(""),
        text("[[chain.repeat]]"),
        text("name = \"decode\""),
        text("index = \"t\""),
        String::from_str("count = ").concat(decimal(tokens).as_str()),
        text(""),
        text("  [chain.repeat.exports.edge]"),
        text("stage = \"decode_select_t{t}\""),
        text("entry = \"decode_init\""),
        text(""),
        text("  [chain.repeat.exports.logits]"),
        text("stage = \"decode_finalize_t{t}\""),
        text("entry = \"prefill_finalize\""),
        text(""),
        text("  [[chain.repeat.stage]]"),
        text("name = \"decode_select_t{t}\""),
        text("project = \"decode-select-token\""),
        text("inputs.logits = { from = \"decode_finalize_t{t-1}\", first = \"prefill_finalize\" }"),
        text("inputs.prior = { from = \"decode_select_t{t-1}\", first = \"decode_init\" }"),
        text(""),
        text("  [[chain.repeat.stage]]"),
        text("name = \"decode_embed_t{t}\""),
        text("project = \"decode-embed\""),
        text("inputs.selected = { from = \"decode_select_t{t}\" }"),
        String::from_str("  ").concat(external_binding("embedding", "input-embedding", "embedding", embedding).as_str()),
    ];
    assert(views(more@) =~= decode_head(tokens as nat, embedding@));
    let ghost added = more@;
    lines.append(&mut more);
    assert(views(lines@) =~= views(start) + views(added));
}

/// The decode loop's per-layer-embedding stages.
pub open spec fn decode_aux(layers: nat) -> Seq<Seq<char>> {
    seq![
        ""@,
        "  [[chain.repeat.stage]]"@,
        "name = \"decode_aux_t{t}_l{l}\""@,
        "index = \"l\""@,
        "count = "@ + dec(layers),
        "project = \"prefill-prepare-aux\""@,
        "inputs.embedded = { from = \"decode_embed_t{t}\" }"@,
        "inputs.layer = { input = \"aux_layer_{l}\" }"@,
    ]
}

fn put_decode_aux(lines: &mut Vec<String>, layers: u64)
    ensures
        views(final(lines)@) == views(old(lines)@) + decode_aux(layers as nat),
{
    let ghost start = lines@;
    let mut more: Vec<String> = vec![
        text(""),
        text("  [[chain.repeat.stage]]"),
        text("name = \"decode_aux_t{t}_l{l}\""),
        text("index = \"l\""),
        String::from_str("count = ").concat(decimal(layers).as_str()),
        text("project = \"prefill-prepare-aux\""),
        text("inputs.embedded = { from = \"decode_embed_t{t}\" }"),
        text("inputs.layer = { input = \"aux_layer_{l}\" }"),
    ];
    assert(views(more@) =~= decode_aux(layers as nat));
    let ghost added = more@;
    lines.append(&mut more);
    assert(views(lines@) =~= views(start) + views(added));
}

/// The decode loop's layers that own their keys and values.
pub open spec fn decode_owners(first_shared: nat) -> Seq<Seq<char>> {
    seq![
        ""@,
        "  [[chain.repeat.stage]]"@,
        "name = \"decode_range_t{t}_l{l}\""@,
        "index = \"l\""@,
        "start = 0"@,
        "count = "@ + dec(first_shared),
        "project = \"prefill-range\""@,
        "inputs.activations = { from = \"decode_range_t{t}_l{l-1}\", first = \"decode_embed_t{t}\" }"@,
        "inputs.prior_kv = { from = \"decode_range_t{t-1}_l{l}\", first = \"prefill_range_l{l}\" }"@,
        "inputs.donor_a_kv = { from = \"input_embedding\" }"@,
        "inputs.donor_b_kv = { from = \"input_embedding\" }"@,
        "inputs.ple = { from = \"decode_aux_t{t}_l{l}\" }"@,
        "inputs.layer = { input = \"transformer_layer_{l}\" }"@,
    ]
}

fn put_decode_owners(lines: &mut Vec<String>, first_shared: u64)
    ensures
        views(final(lines)@) == views(old(lines)@) + decode_owners(first_shared as nat),
{
    let ghost start = lines@;
    let mut more: Vec<String> = vec![
        text(""),
        text("  [[chain.repeat.stage]]"),
        text("name = \"decode_range_t{t}_l{l}\""),
        text("index = \"l\""),
        text("start = 0"),
        String::from_str("count = ").concat(decimal(first_shared).as_str()),
        text("project = \"prefill-range\""),
        text("inputs.activations = { from = \"decode_range_t{t}_l{l-1}\", first = \"decode_embed_t{t}\" }"),
        text("inputs.prior_kv = { from = \"decode_range_t{t-1}_l{l}\", first = \"prefill_range_l{l}\" }"),
        text("inputs.donor_a_kv = { from = \"input_embedding\" }"),
        text("inputs.donor_b_kv = { from = \"input_embedding\" }"),
        text("inputs.ple = { from = \"decode_aux_t{t}_l{l}\" }"),
        text("inputs.layer = { input = \"transformer_layer_{l}\" }"),
    ];
    assert(views(more@) =~= decode_owners(first_shared as nat));
    let ghost added = more@;
    lines.append(&mut more);
    assert(views(lines@) =~= views(start) + views(added));
}

/// The decode loop's layers that borrow their keys and values.
pub open spec fn decode_borrowers(first_shared: nat, count: nat, before: nat, donor_a: Seq<char>, donor_b: Seq<char>) -> Seq<Seq<char>> {
    seq![
        ""@,
        "  [[chain.repeat.stage]]"@,
        "name = \"decode_range_t{t}_l{l}\""@,
        "index = \"l\""@,
        "start = "@ + dec(first_shared),
        "count = "@ + dec(count),
        "project = \"prefill-range\""@,
        "inputs.activations = { from = \"decode_range_t{t}_l{l-1}\", first = \"decode_range_t{t}_l"@ + dec(before) + "\" }"@,
        "inputs.prior_kv = { from = \"decode_range_t{t-1}_l{l}\", first = \"prefill_range_l{l}\" }"@,
        from_text("donor_a_kv"@, donor_a),
        from_text("donor_b_kv"@, donor_b),
        "inputs.ple = { from = \"decode_aux_t{t}_l{l}\" }"@,
        "inputs.layer = { input = \"transformer_layer_{l}\" }"@,
    ]
}

fn put_decode_borrowers(lines: &mut Vec<String>, first_shared: u64, count: u64, before: u64, donor_a: &str, donor_b: &str)
    ensures
        views(final(lines)@) == views(old(lines)@) + decode_borrowers(first_shared as nat, count as nat, before as nat, donor_a@, donor_b@),
{
    let ghost start = lines@;
    let mut more: Vec<String> = vec![
        text(""),
        text("  [[chain.repeat.stage]]"),
        text("name = \"decode_range_t{t}_l{l}\""),
        text("index = \"l\""),
        String::from_str("start = ").concat(decimal(first_shared).as_str()),
        String::from_str("count = ").concat(decimal(count).as_str()),
        text("project = \"prefill-range\""),
        String::from_str("inputs.activations = { from = \"decode_range_t{t}_l{l-1}\", first = \"decode_range_t{t}_l").concat(decimal(before).as_str()).concat("\" }"),
        text("inputs.prior_kv = { from = \"decode_range_t{t-1}_l{l}\", first = \"prefill_range_l{l}\" }"),
        from_binding("donor_a_kv", donor_a),
        from_binding("donor_b_kv", donor_b),
        text("inputs.ple = { from = \"decode_aux_t{t}_l{l}\" }"),
        text("inputs.layer = { input = \"transformer_layer_{l}\" }"),
    ];
    assert(views(more@) =~= decode_borrowers(first_shared as nat, count as nat, before as nat, donor_a@, donor_b@));
    let ghost added = more@;
    lines.append(&mut more);
    assert(views(lines@) =~= views(start) + views(added));
}

/// The decode loop's scoring stage, and the stage that reports the answer.
pub open spec fn decode_tail(last: nat, head: Seq<char>, decoder: Seq<char>) -> Seq<Seq<char>> {
    seq![
        ""@,
        "  [[chain.repeat.stage]]"@,
        "name = \"decode_finalize_t{t}\""@,
        "project = \"prefill-finalize\""@,
        "inputs.activations = { from = \"decode_range_t{t}_l"@ + dec(last) + "\" }"@,
        external_text("head"@, "prefill-finalize"@, "head"@, head),
        ""@,
        "[[chain.stage]]"@,
        "name = \"output_finalize\""@,
        "project = \"output-finalize\""@,
        "inputs.edge = { from = \"decode.edge\" }"@,
        external_text("decoder"@, "output-finalize"@, "decoder"@, decoder),
    ]
}

fn put_decode_tail(lines: &mut Vec<String>, last: u64, head: &str, decoder: &str)
    ensures
        views(final(lines)@) == views(old(lines)@) + decode_tail(last as nat, head@, decoder@),
{
    let ghost start = lines@;
    let mut more: Vec<String> = vec![
        text(""),
        text("  [[chain.repeat.stage]]"),
        text("name = \"decode_finalize_t{t}\""),
        text("project = \"prefill-finalize\""),
        String::from_str("inputs.activations = { from = \"decode_range_t{t}_l").concat(decimal(last).as_str()).concat("\" }"),
        external_binding("head", "prefill-finalize", "head", head),
        text(""),
        text("[[chain.stage]]"),
        text("name = \"output_finalize\""),
        text("project = \"output-finalize\""),
        text("inputs.edge = { from = \"decode.edge\" }"),
        external_binding("decoder", "output-finalize", "decoder", decoder),
    ];
    assert(views(more@) =~= decode_tail(last as nat, head@, decoder@));
    let ghost added = more@;
    lines.append(&mut more);
    assert(views(lines@) =~= views(start) + views(added));
}

/// The stage that a decode layer's donor slot is bound to.
pub open spec fn decode_donor(donors: Seq<i32>, slot: int) -> Seq<char> {
    if slot < donors.len() {
        "decode_range_t{t}_l"@ + signed_dec(donors[slot] as int)
    } else {
        "input_embedding"@
    }
}

fn decode_donor_name(donors: &Vec<i32>, slot: usize) -> (r: String)
    ensures
        r@ == decode_donor(donors@, slot as int),
{
    if slot < donors.len() {
        String::from_str("decode_range_t{t}_l").concat(
            signed_decimal(donors[slot] as i64).as_str(),
        )
    } else {
        String::from_str("input_embedding")
    }
}

/// The lines of the decode loop and of the last stage.
pub open spec fn generation_lines(
    shape: ShapeView,
    donors: Seq<i32>,
    embedding: Seq<char>,
    head: Seq<char>,
    decoder: Seq<char>,
    tokens: u32,
) -> Seq<Seq<char>> {
    let first_shared = shape.first_shared() as nat;
    let start = decode_head(tokens as nat, embedding) + decode_aux(shape.layers as nat);
    let owners = if first_shared > 0 {
        start + decode_owners(first_shared)
    } else {
        start
    };
    let borrowers = if shape.num_kv_shared_layers > 0 {
        owners + decode_borrowers(
            first_shared,
            shape.num_kv_shared_layers as nat,
            if first_shared > 0 {
                (first_shared - 1) as nat
            } else {
                0
            },
            decode_donor(donors, 0),
            decode_donor(donors, 1),
        )
    } else {
        owners
    };
    borrowers + decode_tail((shape.layers - 1) as nat, head, decoder)
}

/// The decode loop and the last stage, or what is missing.
pub open spec fn generation_text(
    shape: ShapeView,
    donors: Seq<i32>,
    decoder: Seq<char>,
    tokens: u32,
    stages: Seq<Seq<char>>,
) -> Result<Seq<char>, Seq<char>> {
    match stage_commitment(stages, "input_embedding"@, "embedding"@) {
        Err(e) => Err(e),
        Ok(embedding) => match stage_commitment(stages, "prefill_finalize"@, "head"@) {
            Err(e) => Err(e),
            Ok(head) => if donors.len() > 2 {
                Err(
                    "decode repeat supports at most two donor candidates, model declares "@ + dec(
                        donors.len(),
                    ),
                )
            } else {
                Ok(joined(generation_lines(shape, donors, embedding, head, decoder, tokens)))
            },
        },
    }
}

/// Emits exactly `tokens` iterations of selecting a token and running it through the
/// model, as one repeat block, and the stage that reports the answer. `donors` are
/// the model's donor layers, in ascending order.
pub fn generation_stages(
    shape: &Shape,
    donors: &Vec<i32>,
    decoder_commitment: &str,
    tokens: u32,
    prefill_stages: &Vec<String>,
) -> (r: Result<String, String>)
    requires
        shape.layers > 0,
    ensures
        outcome(
            r,
            generation_text(
                shape@,
                donors@,
                decoder_commitment@,
                tokens,
                views(prefill_stages@),
            ),
        ),
{
    broadcast use views_of_empty;

    let embedding: String = match stage_external_commitment(
        prefill_stages,
        "input_embedding",
        "embedding",
    ) {
        Ok(found) => found,
        Err(e) => return Err(e),
    };
    let head: String = match stage_external_commitment(prefill_stages, "prefill_finalize", "head") {
        Ok(found) => found,
        Err(e) => return Err(e),
    };
    if donors.len() > 2 {
        return Err(
            String::from_str(
                "decode repeat supports at most two donor candidates, model declares ",
            ).concat(decimal(donors.len() as u64).as_str()),
        );
    }
    let first_shared: u64 = shape.first_shared();
    let mut lines: Vec<String> = Vec::new();
    put_decode_head(&mut lines, tokens as u64, embedding.as_str());
    assert(views(lines@) =~= decode_head(tokens as nat, embedding@));
    put_decode_aux(&mut lines, shape.layers);
    if first_shared > 0 {
        put_decode_owners(&mut lines, first_shared);
    }
    if shape.num_kv_shared_layers > 0 {
        let donor_a: String = decode_donor_name(donors, 0);
        let donor_b: String = decode_donor_name(donors, 1);
        let before: u64 = if first_shared > 0 {
            first_shared - 1
        } else {
            0
        };
        put_decode_borrowers(
            &mut lines,
            first_shared,
            shape.num_kv_shared_layers,
            before,
            donor_a.as_str(),
            donor_b.as_str(),
        );
    }
    put_decode_tail(&mut lines, shape.layers - 1, head.as_str(), decoder_commitment);
    Ok(join_lines(&lines))
}

/// The stages of a manifest, each behind an empty line.
pub open spec fn spaced_stages(stages: Seq<Seq<char>>) -> Seq<char>
    decreases stages.len(),
{
    if stages.len() == 0 {
        Seq::empty()
    } else {
        spaced_stages(stages.drop_last()) + seq!['\n'] + stages.last()
    }
}

/// A whole manifest, or what is missing.
pub open spec fn manifest_text(
    shape: ShapeView,
    donors: Seq<i32>,
    decoder: Seq<char>,
    tokens: u32,
    stages: Seq<Seq<char>>,
) -> Result<Seq<char>, Seq<char>> {
    match inputs_text(stages, shape.layers as nat) {
        Err(e) => Err(e),
        Ok(inputs) => match generation_text(shape, donors, decoder, tokens, stages) {
            Err(e) => Err(e),
            Ok(generation) => Ok(
                "[chain]\nname = \"raster-chain-inference\"\nversion = \"0.1.0\"\n"@ + inputs
                    + spaced_stages(stages) + generation,
            ),
        },
    }
}

/// The whole manifest of a chain.
pub fn chain_manifest(
    shape: &Shape,
    donors: &Vec<i32>,
    decoder_commitment: &str,
    tokens: u32,
    stages: &Vec<String>,
) -> (r: Result<String, String>)
    requires
        shape.layers > 0,
    ensures
        outcome(
            r,
            manifest_text(shape@, donors@, decoder_commitment@, tokens, views(stages@)),
        ),
{
    let inputs: String = match indexed_model_inputs(shape, stages) {
        Ok(found) => found,
        Err(e) => return Err(e),
    };
    let mut manifest: String = String::from_str(
        "[chain]\nname = \"raster-chain-inference\"\nversion = \"0.1.0\"\n",
    );
    manifest.append(inputs.as_str());
    let ghost start = manifest@;
    let ghost all = views(stages@);
    let mut i: usize = 0;
    assert(all.take(0) =~= Seq::empty());
    assert(start + spaced_stages(all.take(0)) =~= start);
    while i < stages.len()
        invariant
            i <= stages@.len(),
            all == views(stages@),
            manifest@ == start + spaced_stages(all.take(i as int)),
        decreases stages@.len() - i,
    {
        assert(all.take(i + 1).drop_last() =~= all.take(i as int));
        assert(all.take(i + 1).last() == stages@[i as int]@);
        manifest.push('\n');
        manifest.append(stages[i].as_str());
        assert(manifest@ =~= start + spaced_stages(all.take(i + 1)));
        i += 1;
    }
    assert(all.take(i as int) =~= all);
    let generation: String = match generation_stages(
        shape,
        donors,
        decoder_commitment,
        tokens,
        stages,
    ) {
        Ok(found) => found,
        Err(e) => return Err(e),
    };
    manifest.append(generation.as_str());
    Ok(manifest)
}

/// One input of a stage that is run on its own.
pub struct Fixture {
    pub param: String,
    pub name: String,
    pub commitment: String,
}

/// The entry of an input in a stage's `input.json`.
pub open spec fn path_entry(param: Seq<char>, name: Seq<char>) -> Seq<char> {
    "  \""@ + param + "\": { \"path\": \""@ + name + ".rastered\", \"index_path\": \""@ + name
        + ".rindex\", \"load_preference\": \"read\" }"@
}

/// The entry of an input in the file of a stage's commitments.
pub open spec fn commitment_entry(param: Seq<char>, commitment: Seq<char>) -> Seq<char> {
    "  \""@ + param + "\": { \"type\": \"sha256\", \"encoding\": \"raster\", \"commitment\": \""@
        + commitment + "\" }"@
}

/// Entries with commas and line feeds between them.
pub open spec fn listed(entries: Seq<Seq<char>>) -> Seq<char>
    decreases entries.len(),
{
    if entries.len() == 0 {
        Seq::empty()
    } else if entries.len() == 1 {
        entries[0]
    } else {
        listed(entries.drop_last()) + ",\n"@ + entries.last()
    }
}

/// Entries as a JSON object.
pub open spec fn object_text(entries: Seq<Seq<char>>) -> Seq<char> {
    "{\n"@ + listed(entries) + "\n}\n"@
}

fn object_of(entries: &Vec<String>) -> (r: String)
    ensures
        r@ == object_text(views(entries@)),
{
    let ghost all = views(entries@);
    let mut body: String = String::new();
    let mut i: usize = 0;
    assert(all.take(0) =~= Seq::empty());
    while i < entries.len()
        invariant
            i <= entries@.len(),
            all == views(entries@),
            body@ == listed(all.take(i as int)),
        decreases entries@.len() - i,
    {
        assert(all.take(i + 1).drop_last() =~= all.take(i as int));
        assert(all.take(i + 1).last() == entries@[i as int]@);
        if i > 0 {
            body.append(",\n");
        }
        body.append(entries[i].as_str());
        assert(body@ =~= listed(all.take(i + 1)));
        i += 1;
    }
    assert(all.take(i as int) =~= all);
    String::from_str("{\n").concat(body.as_str()).concat("\n}\n")
}

/// The texts of the two files that a stage is run with on its own: where its inputs
/// are, and what they are committed as.
pub fn stage_fixtures(params: &Vec<Fixture>) -> (r: (String, String))
    ensures
        r.0@ == object_text(
            Seq::new(params@.len(), |i: int| path_entry(params@[i].param@, params@[i].name@)),
        ),
        r.1@ == object_text(
            Seq::new(
                params@.len(),
                |i: int| commitment_entry(params@[i].param@, params@[i].commitment@),
            ),
        ),
{
    let mut paths: Vec<String> = Vec::new();
    let mut commitments: Vec<String> = Vec::new();
    let mut i: usize = 0;
    while i < params.len()
        invariant
            i <= params@.len(),
            paths@.len() == i,
            commitments@.len() == i,
            forall|j: int|
                0 <= j < i ==> (#[trigger] paths@[j])@ == path_entry(
                    params@[j].param@,
                    params@[j].name@,
                ),
            forall|j: int|
                0 <= j < i ==> (#[trigger] commitments@[j])@ == commitment_entry(
                    params@[j].param@,
                    params@[j].commitment@,
                ),
        decreases params@.len() - i,
    {
        let p: &Fixture = &params[i];
        paths.push(
            String::from_str("  \"").concat(p.param.as_str()).concat("\": { \"path\": \"").concat(
                p.name.as_str(),
            ).concat(".rastered\", \"index_path\": \"").concat(p.name.as_str()).concat(
                ".rindex\", \"load_preference\": \"read\" }",
            ),
        );
        commitments.push(
            String::from_str("  \"").concat(p.param.as_str()).concat(
                "\": { \"type\": \"sha256\", \"encoding\": \"raster\", \"commitment\": \"",
            ).concat(p.commitment.as_str()).concat("\" }"),
        );
        i += 1;
    }
    assert(views(paths@) =~= Seq::new(
        params@.len(),
        |i: int| path_entry(params@[i].param@, params@[i].name@),
    ));
    assert(views(commitments@) =~= Seq::new(
        params@.len(),
        |i: int| commitment_entry(params@[i].param@, params@[i].commitment@),
    ));
    (object_of(&paths), object_of(&commitments))
}

/// The commitments that go into a manifest.
pub struct Commitments {
    pub tokenizer: Seq<char>,
    pub pieces: Seq<char>,
    pub embedding: Seq<char>,
    pub aux: Seq<Seq<char>>,
    pub layers: Seq<Seq<char>>,
    pub head: Seq<char>,
}

/// The lines of the stages that an import writes: tokenizing, embedding, each
/// layer's auxiliary stage, each layer, scoring.
pub open spec fn stage_lines(
    shape: ShapeView,
    candidates: (i32, i32),
    c: Commitments,
    k: int,
) -> Seq<Seq<char>> {
    let n = shape.layers as int;
    if k == 0 {
        prompt_stage_lines(c.tokenizer, c.pieces)
    } else if k == 1 {
        embedding_stage_lines(c.embedding)
    } else if k < 2 + n {
        aux_stage_lines((k - 2) as nat, c.aux[k - 2])
    } else if k < 2 + 2 * n {
        range_stage_lines(shape, candidates, (k - 2 - n) as nat, c.layers[k - 2 - n])
    } else {
        finalize_stage_lines((n - 1) as nat, c.head)
    }
}

/// The stages that an import writes.
pub open spec fn written_stages(
    shape: ShapeView,
    candidates: (i32, i32),
    c: Commitments,
) -> Seq<Seq<char>> {
    Seq::new(
        (2 * shape.layers + 3) as nat,
        |k: int| joined(stage_lines(shape, candidates, c, k)),
    )
}


/// The commitments that go into a manifest.
pub struct StageCommitments {
    pub tokenizer: String,
    pub pieces: String,
    pub embedding: String,
    /// One for each layer's auxiliary stage.
    pub aux: Vec<String>,
    /// One for each layer.
    pub layers: Vec<String>,
    pub head: String,
}

impl View for StageCommitments {
    type V = Commitments;

    open spec fn view(&self) -> Commitments {
        Commitments {
            tokenizer: self.tokenizer@,
            pieces: self.pieces@,
            embedding: self.embedding@,
            aux: views(self.aux@),
            layers: views(self.layers@),
            head: self.head@,
        }
    }
}

/// Writes every stage of the prefill: tokenizing, embedding, each layer's auxiliary
/// stage, each layer, scoring.
pub fn write_stages(shape: &Shape, candidates: (i32, i32), c: &StageCommitments) -> (r: Vec<String>)
    requires
        shape.layers > 0,
        c.aux@.len() == shape.layers,
        c.layers@.len() == shape.layers,
    ensures
        views(r@) == written_stages(shape@, candidates, c@),
{
    let ghost all = written_stages(shape@, candidates, c@);
    let n: usize = c.aux.len();
    let mut stages: Vec<String> = Vec::new();
    stages.push(prompt_stage(c.tokenizer.as_str(), c.pieces.as_str()));
    stages.push(embedding_stage(c.embedding.as_str()));
    let mut i: usize = 0;
    while i < n
        invariant
            i <= n,
            n == c.aux@.len() == shape.layers,
            stages@.len() == 2 + i,
            all == written_stages(shape@, candidates, c@),
            forall|k: int| 0 <= k < 2 + i ==> (#[trigger] stages@[k])@ == all[k],
        decreases n - i,
    {
        assert(c@.aux[i as int] == c.aux@[i as int]@);
        assert(all[2 + i as int] == joined(stage_lines(shape@, candidates, c@, 2 + i as int)));
        stages.push(aux_stage(i as u64, c.aux[i].as_str()));
        i += 1;
    }
    let mut i: usize = 0;
    while i < n
        invariant
            i <= n,
            n == c.layers@.len() == shape.layers,
            stages@.len() == 2 + n + i,
            all == written_stages(shape@, candidates, c@),
            forall|k: int| 0 <= k < 2 + n + i ==> (#[trigger] stages@[k])@ == all[k],
        decreases n - i,
    {
        assert(c@.layers[i as int] == c.layers@[i as int]@);
        assert(all[2 + n + i as int] == joined(
            stage_lines(shape@, candidates, c@, 2 + n + i as int),
        ));
        stages.push(range_stage(shape, candidates, i as u64, c.layers[i].as_str()));
        i += 1;
    }
    assert(all[2 + 2 * n as int] == joined(
        stage_lines(shape@, candidates, c@, 2 + 2 * n as int),
    ));
    stages.push(finalize_stage(shape.layers - 1, c.head.as_str()));
    assert(views(stages@) =~= all);
    stages
}

/// Whether some layers are a model's donor layers, in ascending order.
pub open spec fn are_donors(shape: ShapeView, donors: Seq<i32>) -> bool {
    ascending_layers(donors) && forall|donor: i32| #[trigger]
        donors.contains(donor) <==> is_donor_layer(shape, donor)
}

proof fn lemma_same_layers(a: Seq<i32>, b: Seq<i32>)
    requires
        ascending_layers(a),
        ascending_layers(b),
        forall|x: i32| #[trigger] a.contains(x) <==> b.contains(x),
    ensures
        a == b,
    decreases a.len(),
{
    if a.len() == 0 {
        if b.len() > 0 {
            assert(b.contains(b[0]));
            assert(a.contains(b[0]));
        }
        assert(a =~= b);
    } else {
        let x = a.last();
        assert(a[a.len() - 1] == x);
        assert(a.contains(x));
        assert(b.contains(x));
        let y = b.last();
        assert(b[b.len() - 1] == y);
        assert(b.contains(y));
        assert(a.contains(y));
        let i = a.index_of(y);
        let j = b.index_of(x);
        assert(a[i] == y && b[j] == x);
        assert(y <= x && x <= y);
        let ra = a.drop_last();
        let rb = b.drop_last();
        assert forall|z: i32| #[trigger] ra.contains(z) <==> rb.contains(z) by {
            if ra.contains(z) {
                let k = ra.index_of(z);
                assert(a[k] == z);
                assert(a.contains(z));
                let m = b.index_of(z);
                assert(b[m] == z);
                assert(m != b.len() - 1);
                assert(rb[m] == z);
            }
            if rb.contains(z) {
                let k = rb.index_of(z);
                assert(b[k] == z);
                assert(b.contains(z));
                assert(a.contains(z));
                let m = a.index_of(z);
                assert(a[m] == z);
                assert(m != a.len() - 1);
                assert(ra[m] == z);
            }
        }
        lemma_same_layers(ra, rb);
        assert(a =~= ra.push(x));
        assert(b =~= rb.push(y));
    }
}

/// The manifest of an import, or why there is none.
pub open spec fn import_text(
    shape: ShapeView,
    donors: Seq<i32>,
    c: Commitments,
    decoder: Seq<char>,
    tokens: u32,
) -> Result<Seq<char>, Seq<char>> {
    match candidates(donors) {
        Err(e) => Err(e),
        Ok(pair) => manifest_text(
            shape,
            donors,
            decoder,
            tokens,
            written_stages(shape, pair, c),
        ),
    }
}

/// The whole manifest of a model, out of the commitments of its externals.
pub fn import_manifest(
    shape: &Shape,
    c: &StageCommitments,
    decoder_commitment: &str,
    tokens: u32,
) -> (r: Result<String, String>)
    requires
        0 < shape.layers <= usize::MAX,
        c.aux@.len() == shape.layers,
        c.layers@.len() == shape.layers,
    ensures
        forall|donors: Seq<i32>| #[trigger]
            are_donors(shape@, donors) ==> outcome(
                r,
                import_text(shape@, donors, c@, decoder_commitment@, tokens),
            ),
{
    let found: Vec<i32> = donor_layers(shape);
    proof {
        assert forall|donors: Seq<i32>| #[trigger] are_donors(shape@, donors) implies donors
            == found@ by {
            lemma_same_layers(donors, found@);
        }
    }
    let pair: (i32, i32) = match donor_candidates(&found) {
        Ok(pair) => pair,
        Err(e) => return Err(e),
    };
    let stages: Vec<String> = write_stages(shape, pair, c);
    chain_manifest(shape, &found, decoder_commitment, tokens, &stages)
}

} // verus!
