//! How the stages of a chain are wired: where each input of each stage comes from.

use crate::model_import::manifest::{
    aux_stage_lines, commitment_entry, decode_aux, decode_borrowers, decode_donor, decode_head,
    decode_owners, decode_tail, embedding_stage_lines, external_line, finalize_stage_lines,
    generation_lines, generation_text, input_lines, inputs_text, listed, manifest_text,
    object_text, path_entry, prompt_stage_lines, range_stage_lines, spaced_stages, stage_fixtures,
    written_stages, Commitments, Fixture,
};
use crate::model_import::shape::ShapeView;
use crate::model_import::text_lines::joined;
use crate::text::dec;
use vstd::prelude::*;

verus! {

/// Whether a stage's parameter is fed by another stage.
pub open spec fn fed(lines: Seq<Seq<char>>, param: Seq<char>, stage: Seq<char>) -> bool {
    lines.contains("inputs."@ + param + " = { from = \""@ + stage + "\" }"@)
}

/// Whether a stage's parameter is an external: the two files of a name in a directory,
/// under a commitment.
pub open spec fn committed(
    lines: Seq<Seq<char>>,
    param: Seq<char>,
    dir: Seq<char>,
    name: Seq<char>,
    commitment: Seq<char>,
) -> bool {
    lines.contains(
        "inputs."@ + param + " = { external = { path = \""@ + dir + "/"@ + name
            + ".rastered\", index_path = \""@ + dir + "/"@ + name
            + ".rindex\", commitment = \""@ + commitment + "\" } }"@,
    )
}

/// Whether lines are a stage of a name that runs a program.
pub open spec fn is_stage(lines: Seq<Seq<char>>, name: Seq<char>, program: Seq<char>) -> bool {
    &&& lines.len() >= 3
    &&& lines[0] == "[[chain.stage]]"@
    &&& lines[1] == "name = \""@ + name + "\""@
    &&& lines[2] == program
}

/// Tokenizing takes the tokenizer and the prompt's pieces.
pub proof fn how_tokenizing_is_wired(tokenizer: Seq<char>, pieces: Seq<char>)
    ensures
        ({
            let lines = prompt_stage_lines(tokenizer, pieces);
            &&& is_stage(lines, "prompt_prepare"@, "project = \"prompt-prepare\""@)
            &&& lines.len() == 5
            &&& committed(lines, "tokenizer"@, "prompt-prepare"@, "tokenizer"@, tokenizer)
            &&& committed(lines, "initial_pieces"@, "prompt-prepare"@, "initial_pieces"@, pieces)
        }),
{
    let lines = prompt_stage_lines(tokenizer, pieces);
    assert(lines.contains(lines[3]) && lines.contains(lines[4]));
}

/// Embedding takes the tokenized prompt and the embedding table.
pub proof fn how_embedding_is_wired(commitment: Seq<char>)
    ensures
        ({
            let lines = embedding_stage_lines(commitment);
            &&& is_stage(lines, "input_embedding"@, "project = \"input-embedding\""@)
            &&& lines.len() == 5
            &&& fed(lines, "prompt"@, "prompt_prepare"@)
            &&& committed(lines, "embedding"@, "input-embedding"@, "embedding"@, commitment)
        }),
{
    let lines = embedding_stage_lines(commitment);
    assert(lines.contains(lines[3]) && lines.contains(lines[4]));
}

/// A layer's auxiliary stage takes the embedded prompt and the layer's own external.
pub proof fn how_an_auxiliary_stage_is_wired(layer: nat, commitment: Seq<char>)
    ensures
        ({
            let lines = aux_stage_lines(layer, commitment);
            &&& is_stage(
                lines,
                "prefill_prepare_aux_l"@ + dec(layer),
                "project = \"prefill-prepare-aux\""@,
            )
            &&& lines.len() == 5
            &&& fed(lines, "embedded"@, "input_embedding"@)
            &&& committed(
                lines,
                "layer"@,
                "prefill-prepare-aux"@,
                "layer"@ + dec(layer),
                commitment,
            )
        }),
{
    let lines = aux_stage_lines(layer, commitment);
    assert(lines.contains(lines[3]) && lines.contains(lines[4]));
}

/// A layer takes the activations of the layer before it, the first those of the
/// embedding; no prior cache; its own auxiliary stage's output; and, from the sharing
/// boundary on, its donors' caches.
pub proof fn how_a_layer_is_wired(
    shape: ShapeView,
    donors: (i32, i32),
    layer: nat,
    commitment: Seq<char>,
)
    ensures
        ({
            let lines = range_stage_lines(shape, donors, layer, commitment);
            let shares = layer >= shape.first_shared();
            &&& is_stage(lines, "prefill_range_l"@ + dec(layer), "project = \"prefill-range\""@)
            &&& lines.len() == 9
            &&& layer == 0 ==> fed(lines, "activations"@, "input_embedding"@)
            &&& layer > 0 ==> fed(
                lines,
                "activations"@,
                "prefill_range_l"@ + dec((layer - 1) as nat),
            )
            &&& fed(lines, "prior_kv"@, "input_embedding"@)
            &&& !shares ==> fed(lines, "donor_a_kv"@, "input_embedding"@) && fed(
                lines,
                "donor_b_kv"@,
                "input_embedding"@,
            )
            &&& shares && donors.0 >= 0 ==> fed(
                lines,
                "donor_a_kv"@,
                "prefill_range_l"@ + dec(donors.0 as nat),
            )
            &&& shares && donors.1 >= 0 ==> fed(
                lines,
                "donor_b_kv"@,
                "prefill_range_l"@ + dec(donors.1 as nat),
            )
            &&& fed(lines, "ple"@, "prefill_prepare_aux_l"@ + dec(layer))
            &&& committed(lines, "layer"@, "prefill-range"@, "layer"@ + dec(layer), commitment)
        }),
{
    let lines = range_stage_lines(shape, donors, layer, commitment);
    assert(lines.contains(lines[3]) && lines.contains(lines[4]));
    assert(lines.contains(lines[5]) && lines.contains(lines[6]));
    assert(lines.contains(lines[7]) && lines.contains(lines[8]));
}

/// Scoring takes the last layer's activations and the head.
pub proof fn how_scoring_is_wired(last: nat, commitment: Seq<char>)
    ensures
        ({
            let lines = finalize_stage_lines(last, commitment);
            &&& is_stage(lines, "prefill_finalize"@, "project = \"prefill-finalize\""@)
            &&& lines.len() == 5
            &&& fed(lines, "activations"@, "prefill_range_l"@ + dec(last))
            &&& committed(lines, "head"@, "prefill-finalize"@, "head"@, commitment)
        }),
{
    let lines = finalize_stage_lines(last, commitment);
    assert(lines.contains(lines[3]) && lines.contains(lines[4]));
}

/// The stages stand in order: tokenizing, embedding, every layer's auxiliary stage,
/// every layer, scoring; each with its own commitments.
pub proof fn stages_stand_in_order(shape: ShapeView, donors: (i32, i32), c: Commitments, i: int)
    requires
        0 <= i < shape.layers,
    ensures
        ({
            let stages = written_stages(shape, donors, c);
            let n = shape.layers as int;
            &&& stages.len() == 2 * n + 3
            &&& stages[0] == joined(prompt_stage_lines(c.tokenizer, c.pieces))
            &&& stages[1] == joined(embedding_stage_lines(c.embedding))
            &&& stages[2 + i] == joined(aux_stage_lines(i as nat, c.aux[i]))
            &&& stages[2 + n + i] == joined(range_stage_lines(shape, donors, i as nat, c.layers[i]))
            &&& stages[2 * n + 2] == joined(finalize_stage_lines((n - 1) as nat, c.head))
        }),
{
}

/// One iteration of the decode loop starts by selecting from the scores before it, with
/// the transcript before it, and embeds what was selected; the loop runs once for every
/// token.
pub proof fn how_decoding_starts(tokens: nat, embedding: Seq<char>)
    ensures
        ({
            let lines = decode_head(tokens, embedding);
            &&& lines.contains("count = "@ + dec(tokens))
            &&& lines.contains("stage = \"decode_select_t{t}\""@)
            &&& lines.contains("entry = \"decode_init\""@)
            &&& lines.contains("stage = \"decode_finalize_t{t}\""@)
            &&& lines.contains("entry = \"prefill_finalize\""@)
            &&& lines.contains(
                "inputs.logits = { from = \"decode_finalize_t{t-1}\", first = \"prefill_finalize\" }"@,
            )
            &&& lines.contains(
                "inputs.prior = { from = \"decode_select_t{t-1}\", first = \"decode_init\" }"@,
            )
            &&& lines.contains("inputs.selected = { from = \"decode_select_t{t}\" }"@)
            &&& lines.last() == "  "@ + ("inputs."@ + "embedding"@ + " = { external = { path = \""@
                + "input-embedding"@ + "/"@ + "embedding"@ + ".rastered\", index_path = \""@
                + "input-embedding"@ + "/"@ + "embedding"@ + ".rindex\", commitment = \""@
                + embedding + "\" } }"@)
        }),
{
    let lines = decode_head(tokens, embedding);
    assert(lines.len() == 29);
    assert(lines.contains(lines[8]) && lines.contains(lines[11]) && lines.contains(lines[12]));
    assert(lines.contains(lines[15]) && lines.contains(lines[16]));
    assert(lines.contains(lines[21]) && lines.contains(lines[22]) && lines.contains(lines[27]));
}

/// Every decode iteration prepares each layer's auxiliary input from what it embedded.
pub proof fn how_decoding_prepares_its_layers(layers: nat)
    ensures
        ({
            let lines = decode_aux(layers);
            &&& lines.contains("name = \"decode_aux_t{t}_l{l}\""@)
            &&& lines.contains("count = "@ + dec(layers))
            &&& lines.contains("project = \"prefill-prepare-aux\""@)
            &&& lines.contains("inputs.embedded = { from = \"decode_embed_t{t}\" }"@)
            &&& lines.contains("inputs.layer = { input = \"aux_layer_{l}\" }"@)
        }),
{
    let lines = decode_aux(layers);
    assert(lines.contains(lines[2]) && lines.contains(lines[4]) && lines.contains(lines[5]));
    assert(lines.contains(lines[6]) && lines.contains(lines[7]));
}

/// The layers before the sharing boundary chain from the embedded token on, each with its
/// own cache of the iteration before, at first the prompt's, and no donors.
pub proof fn how_decoding_runs_its_owners(boundary: nat)
    ensures
        ({
            let lines = decode_owners(boundary);
            &&& lines.contains("name = \"decode_range_t{t}_l{l}\""@)
            &&& lines.contains("start = 0"@)
            &&& lines.contains("count = "@ + dec(boundary))
            &&& lines.contains("project = \"prefill-range\""@)
            &&& lines.contains(
                "inputs.activations = { from = \"decode_range_t{t}_l{l-1}\", first = \"decode_embed_t{t}\" }"@,
            )
            &&& lines.contains(
                "inputs.prior_kv = { from = \"decode_range_t{t-1}_l{l}\", first = \"prefill_range_l{l}\" }"@,
            )
            &&& lines.contains("inputs.donor_a_kv = { from = \"input_embedding\" }"@)
            &&& lines.contains("inputs.donor_b_kv = { from = \"input_embedding\" }"@)
            &&& lines.contains("inputs.ple = { from = \"decode_aux_t{t}_l{l}\" }"@)
            &&& lines.contains("inputs.layer = { input = \"transformer_layer_{l}\" }"@)
        }),
{
    let lines = decode_owners(boundary);
    assert(lines.contains(lines[2]) && lines.contains(lines[4]) && lines.contains(lines[5]));
    assert(lines.contains(lines[6]) && lines.contains(lines[7]) && lines.contains(lines[8]));
    assert(lines.contains(lines[9]) && lines.contains(lines[10]) && lines.contains(lines[11]));
    assert(lines.contains(lines[12]));
}

/// The sharing layers chain from the last owner on, and read the donors' caches of the
/// same iteration.
pub proof fn how_decoding_runs_its_borrowers(
    boundary: nat,
    count: nat,
    before: nat,
    donors: Seq<i32>,
)
    requires
        donors.len() <= 2,
        forall|i: int| 0 <= i < donors.len() ==> (#[trigger] donors[i]) >= 0,
    ensures
        ({
            let lines = decode_borrowers(
                boundary,
                count,
                before,
                decode_donor(donors, 0),
                decode_donor(donors, 1),
            );
            &&& lines.contains("name = \"decode_range_t{t}_l{l}\""@)
            &&& lines.contains("start = "@ + dec(boundary))
            &&& lines.contains("count = "@ + dec(count))
            &&& lines.contains("project = \"prefill-range\""@)
            &&& lines.contains(
                "inputs.activations = { from = \"decode_range_t{t}_l{l-1}\", first = \"decode_range_t{t}_l"@
                    + dec(before) + "\" }"@,
            )
            &&& lines.contains(
                "inputs.prior_kv = { from = \"decode_range_t{t-1}_l{l}\", first = \"prefill_range_l{l}\" }"@,
            )
            &&& donors.len() > 0 ==> fed(
                lines,
                "donor_a_kv"@,
                "decode_range_t{t}_l"@ + dec(donors[0] as nat),
            )
            &&& donors.len() == 0 ==> fed(lines, "donor_a_kv"@, "input_embedding"@)
            &&& donors.len() > 1 ==> fed(
                lines,
                "donor_b_kv"@,
                "decode_range_t{t}_l"@ + dec(donors[1] as nat),
            )
            &&& donors.len() <= 1 ==> fed(lines, "donor_b_kv"@, "input_embedding"@)
            &&& lines.contains("inputs.ple = { from = \"decode_aux_t{t}_l{l}\" }"@)
            &&& lines.contains("inputs.layer = { input = \"transformer_layer_{l}\" }"@)
        }),
{
    let lines = decode_borrowers(
        boundary,
        count,
        before,
        decode_donor(donors, 0),
        decode_donor(donors, 1),
    );
    assert(lines.contains(lines[2]) && lines.contains(lines[4]) && lines.contains(lines[5]));
    assert(lines.contains(lines[6]) && lines.contains(lines[7]) && lines.contains(lines[8]));
    assert(lines.contains(lines[9]) && lines.contains(lines[10]) && lines.contains(lines[11]));
    assert(lines.contains(lines[12]));
}

/// Every iteration ends by scoring the last layer's activations; the last stage of the
/// chain reports the final transcript.
pub proof fn how_decoding_ends(last: nat, head: Seq<char>, decoder: Seq<char>)
    ensures
        ({
            let lines = decode_tail(last, head, decoder);
            &&& lines.contains("name = \"decode_finalize_t{t}\""@)
            &&& lines.contains("project = \"prefill-finalize\""@)
            &&& lines.contains(
                "inputs.activations = { from = \"decode_range_t{t}_l"@ + dec(last) + "\" }"@,
            )
            &&& committed(lines, "head"@, "prefill-finalize"@, "head"@, head)
            &&& lines.contains("name = \"output_finalize\""@)
            &&& lines.contains("project = \"output-finalize\""@)
            &&& lines.contains("inputs.edge = { from = \"decode.edge\" }"@)
            &&& committed(lines, "decoder"@, "output-finalize"@, "decoder"@, decoder)
        }),
{
    let lines = decode_tail(last, head, decoder);
    assert(lines.contains(lines[2]) && lines.contains(lines[3]) && lines.contains(lines[4]));
    assert(lines.contains(lines[5]) && lines.contains(lines[8]) && lines.contains(lines[9]));
    assert(lines.contains(lines[10]) && lines.contains(lines[11]));
}

/// The decode loop has its parts in order: the head, the auxiliary stages, the owners if
/// there are any, the borrowers if there are any, and the tail.
pub proof fn decoding_has_its_parts_in_order(
    shape: ShapeView,
    donors: Seq<i32>,
    embedding: Seq<char>,
    head: Seq<char>,
    decoder: Seq<char>,
    tokens: u32,
)
    requires
        0 < shape.layers,
        shape.num_kv_shared_layers <= shape.layers,
    ensures
        ({
            let boundary = shape.layers - shape.num_kv_shared_layers;
            let start = decode_head(tokens as nat, embedding) + decode_aux(shape.layers as nat);
            let owners = decode_owners(boundary as nat);
            let borrowers = decode_borrowers(
                boundary as nat,
                shape.num_kv_shared_layers as nat,
                (boundary - 1) as nat,
                decode_donor(donors, 0),
                decode_donor(donors, 1),
            );
            let tail = decode_tail((shape.layers - 1) as nat, head, decoder);
            let all = generation_lines(shape, donors, embedding, head, decoder, tokens);
            &&& shape.num_kv_shared_layers == 0 ==> all == start + owners + tail
            &&& 0 < shape.num_kv_shared_layers < shape.layers ==> all == start + owners + borrowers
                + tail
            &&& shape.num_kv_shared_layers == shape.layers ==> all == start + decode_borrowers(
                0,
                shape.layers as nat,
                0,
                decode_donor(donors, 0),
                decode_donor(donors, 1),
            ) + tail
        }),
{
}

/// A stage stands behind an empty line.
pub proof fn stages_are_spaced(stages: Seq<Seq<char>>, stage: Seq<char>)
    ensures
        spaced_stages(stages.push(stage)) == spaced_stages(stages) + seq!['\n'] + stage,
        spaced_stages(Seq::empty()).len() == 0,
{
    assert(stages.push(stage).drop_last() =~= stages);
}

/// A list of inputs names its files by the layer's number and has a line for every
/// layer's commitment, in order.
pub proof fn a_list_of_inputs_has_every_commitment(
    name: Seq<char>,
    dir: Seq<char>,
    commitments: Seq<Seq<char>>,
    i: int,
)
    requires
        0 <= i < commitments.len(),
    ensures
        ({
            let lines = input_lines(name, dir, commitments);
            &&& lines.len() == commitments.len() + 7
            &&& lines[1] == "[chain.input."@ + name + "]"@
            &&& lines[2] == "index = \"l\""@
            &&& lines[3] == "path = \""@ + dir + "/layer{l}.rastered\""@
            &&& lines[4] == "index_path = \""@ + dir + "/layer{l}.rindex\""@
            &&& lines[5] == "commitments = ["@
            &&& lines[6 + i] == "  \""@ + commitments[i] + "\", # l"@ + dec(i as nat)
            &&& lines.last() == "]"@
        }),
{
}

/// The two files that a stage is run with have an entry for every input: where it is,
/// and what it is committed as.
pub proof fn entries_say_where_and_what(param: Seq<char>, name: Seq<char>, commitment: Seq<char>)
    ensures
        path_entry(param, name) == "  \""@ + param + "\": { \"path\": \""@ + name
            + ".rastered\", \"index_path\": \""@ + name
            + ".rindex\", \"load_preference\": \"read\" }"@,
        commitment_entry(param, commitment) == "  \""@ + param
            + "\": { \"type\": \"sha256\", \"encoding\": \"raster\", \"commitment\": \""@
            + commitment + "\" }"@,
{
}

/// Entries are listed in order, with a comma and a line feed between any two, inside
/// braces on lines of their own.
pub proof fn entries_are_listed_with_commas(entries: Seq<Seq<char>>, entry: Seq<char>)
    ensures
        listed(seq![entry]) == entry,
        entries.len() > 0 ==> listed(entries.push(entry)) == listed(entries) + ",\n"@ + entry,
        listed(Seq::empty()).len() == 0,
        object_text(entries) == "{\n"@ + listed(entries) + "\n}\n"@,
{
    assert(entries.push(entry).drop_last() =~= entries);
}

/// A manifest is its header, the lists of inputs, every stage behind an empty line, and
/// the decode loop.
pub proof fn a_manifest_has_its_parts_in_order(
    shape: ShapeView,
    donors: Seq<i32>,
    decoder: Seq<char>,
    tokens: u32,
    stages: Seq<Seq<char>>,
)
    ensures
        match (
            inputs_text(stages, shape.layers as nat),
            generation_text(shape, donors, decoder, tokens, stages),
        ) {
            (Ok(inputs), Ok(generation)) => manifest_text(shape, donors, decoder, tokens, stages)
                == Ok::<Seq<char>, Seq<char>>(
                "[chain]\nname = \"raster-chain-inference\"\nversion = \"0.1.0\"\n"@ + inputs
                    + spaced_stages(stages) + generation,
            ),
            _ => manifest_text(shape, donors, decoder, tokens, stages) is Err,
        },
{
}

/// The line that binds an external, and the two files that a stage is run with.
pub proof fn what_a_stage_is_run_with(
    param: &str,
    dir: &str,
    name: &str,
    commitment: &str,
    line: String,
    params: &Vec<Fixture>,
    files: (String, String),
)
    requires
        call_ensures(external_line, (param, dir, name, commitment), line),
        call_ensures(stage_fixtures, (params,), files),
    ensures
        line@ == "inputs."@ + param@ + " = { external = { path = \""@ + dir@ + "/"@ + name@
            + ".rastered\", index_path = \""@ + dir@ + "/"@ + name@
            + ".rindex\", commitment = \""@ + commitment@ + "\" } }"@ + "\n"@,
        params@.len() == 1 ==> files.0@ == "{\n"@ + path_entry(params@[0].param@, params@[0].name@)
            + "\n}\n"@ && files.1@ == "{\n"@ + commitment_entry(
            params@[0].param@,
            params@[0].commitment@,
        ) + "\n}\n"@,
{
    if params@.len() == 1 {
        let paths = Seq::new(
            params@.len(),
            |i: int| path_entry(params@[i].param@, params@[i].name@),
        );
        let commitments = Seq::new(
            params@.len(),
            |i: int| commitment_entry(params@[i].param@, params@[i].commitment@),
        );
        assert(listed(paths) == paths[0]);
        assert(listed(commitments) == commitments[0]);
    }
}

} // verus!
