//! What a manifest keeps: every commitment that goes into it is found again.

use crate::model_import::externals::candidates;
use crate::model_import::manifest::{
    aux_stage_lines, binding_line, bound_commitment, donor_stage, embedding_stage_lines, external_text,
    finalize_stage_lines, from_text, import_text, input_lines, inputs_text, layer_commitments,
    line_with, marker,
    name_text, numbered, prompt_stage_lines, range_stage_lines, stage_commitment, stage_lines,
    stage_with, upstream, written_stages, Commitments,
};
use crate::model_import::shape::ShapeView;
use crate::model_import::text_lines::{
    first_at, found_at, is_line, joined, lemma_found, lines_of, splitting_undoes_joining, stands_at,
};
use crate::text::{dec, decimal_is_injective, signed_dec};
use vstd::prelude::*;

verus! {

/// A text that a binding can hold: without quotes and line feeds.
pub open spec fn is_plain(s: Seq<char>) -> bool {
    !s.contains('"') && !s.contains('\n')
}

/// The part of a binding in front of the commitment's marker.
spec fn binding_front(param: Seq<char>, dir: Seq<char>, name: Seq<char>) -> Seq<char> {
    "inputs."@ + param + " = { external = { path = \""@ + dir + "/"@ + name
        + ".rastered\", index_path = \""@ + dir + "/"@ + name + ".rindex\", "@
}

proof fn lemma_front(
    param: Seq<char>,
    dir: Seq<char>,
    name: Seq<char>,
    commitment: Seq<char>,
)
    ensures
        external_text(param, dir, name, commitment) == binding_front(param, dir, name) + marker()
            + commitment + "\" } }"@,
        marker().len() == 14,
        marker()[13] == '"',
        marker()[12] == ' ',
        marker()[9] == 't',
        forall|i: int| 0 <= i < 13 ==> marker()[i] != '"',
{
    reveal_strlit("commitment = \"");
    reveal_strlit(".rindex\", ");
    reveal_strlit(".rindex\", commitment = \"");
    assert(".rindex\", commitment = \""@ =~= ".rindex\", "@ + marker());
    let head = "inputs."@ + param + " = { external = { path = \""@ + dir + "/"@ + name
        + ".rastered\", index_path = \""@ + dir + "/"@ + name;
    assert(head + (".rindex\", "@ + marker()) =~= (head + ".rindex\", "@) + marker());
}

/// In the front of a binding every quote stands behind something other than the
/// rest of the marker.
proof fn lemma_front_quotes(param: Seq<char>, dir: Seq<char>, name: Seq<char>, e: int)
    requires
        is_plain(param),
        is_plain(dir),
        is_plain(name),
        0 <= e < binding_front(param, dir, name).len(),
        binding_front(param, dir, name)[e] == '"',
    ensures
        e >= 4,
        binding_front(param, dir, name)[e - 4] == 'h' || binding_front(param, dir, name)[e - 1]
            != ' ',
{
    reveal_strlit("inputs.");
    reveal_strlit(" = { external = { path = \"");
    reveal_strlit("/");
    reveal_strlit(".rastered\", index_path = \"");
    reveal_strlit(".rindex\", ");
    let f = binding_front(param, dir, name);
    let p = param.len() as int;
    let d = dir.len() as int;
    let n = name.len() as int;
    assert forall|i: int| 0 <= i < p implies param[i] != '"' by {
        assert(param.contains(param[i]));
    }
    assert forall|i: int| 0 <= i < d implies dir[i] != '"' by {
        assert(dir.contains(dir[i]));
    }
    assert forall|i: int| 0 <= i < n implies name[i] != '"' by {
        assert(name.contains(name[i]));
    }
    let o3 = 7 + p;
    let o4 = o3 + 26;
    let o6 = o4 + d + 1;
    let o7 = o6 + n;
    let o8 = o7 + 26;
    let o10 = o8 + d + 1;
    let o11 = o10 + n;
    if e < 7 {
        assert(f[e] == "inputs."@[e]);
    } else if e < o3 {
        assert(f[e] == param[e - 7]);
    } else if e < o4 {
        assert(f[e] == " = { external = { path = \""@[e - o3]);
        assert(e - o3 == 25);
        assert(f[e - 4] == " = { external = { path = \""@[21]);
    } else if e < o4 + d {
        assert(f[e] == dir[e - o4]);
    } else if e < o6 {
        assert(f[e] == "/"@[0]);
    } else if e < o7 {
        assert(f[e] == name[e - o6]);
    } else if e < o8 {
        assert(f[e] == ".rastered\", index_path = \""@[e - o7]);
        assert(e - o7 == 9 || e - o7 == 25);
        assert(f[e - 4] == ".rastered\", index_path = \""@[e - o7 - 4]);
        assert(f[e - 1] == ".rastered\", index_path = \""@[e - o7 - 1]);
    } else if e < o8 + d {
        assert(f[e] == dir[e - o8]);
    } else if e < o10 {
        assert(f[e] == "/"@[0]);
    } else if e < o11 {
        assert(f[e] == name[e - o10]);
    } else {
        assert(f[e] == ".rindex\", "@[e - o11]);
        assert(e - o11 == 7);
        assert(f[e - 1] == ".rindex\", "@[6]);
    }
}

/// A commitment that a line binds is read back from the line.
pub proof fn a_bound_commitment_reads_back(
    param: Seq<char>,
    dir: Seq<char>,
    name: Seq<char>,
    commitment: Seq<char>,
    label: Seq<char>,
)
    requires
        is_plain(param),
        is_plain(dir),
        is_plain(name),
        is_plain(commitment),
    ensures
        bound_commitment(external_text(param, dir, name, commitment), label) == Ok::<
            Seq<char>,
            Seq<char>,
        >(commitment),
{
    let front = binding_front(param, dir, name);
    let line = external_text(param, dir, name, commitment);
    let tail = "\" } }"@;
    let at = front.len() as int;
    lemma_front(param, dir, name, commitment);
    reveal_strlit("\" } }");
    reveal_strlit("\"");
    assert(line.subrange(at, at + 14) =~= marker());
    assert forall|j: int| 0 <= j < at implies !stands_at(line, marker(), j) by {
        if stands_at(line, marker(), j) {
            let e = j + 13;
            let piece = line.subrange(j, j + 14);
            assert(piece[13] == '"' && piece[12] == ' ' && piece[9] == 't');
            assert(line[e] == '"' && line[e - 1] == ' ' && line[e - 4] == 't');
            if e < at {
                assert(line[e] == front[e]);
                lemma_front_quotes(param, dir, name, e);
                assert(line[e - 1] == front[e - 1] && line[e - 4] == front[e - 4]);
            } else {
                assert(line[e] == marker()[e - at]);
            }
        }
    }
    lemma_found(line, marker(), at);
    let rest = line.skip(at + 14);
    let end = commitment.len() as int;
    assert(rest =~= commitment + tail);
    assert(rest.subrange(end, end + 1) =~= "\""@);
    assert forall|j: int| 0 <= j < end implies !stands_at(rest, "\""@, j) by {
        if stands_at(rest, "\""@, j) {
            assert(rest.subrange(j, j + 1)[0] == '"');
            assert(commitment.contains(commitment[j]));
        }
    }
    lemma_found(rest, "\""@, end);
    assert(rest.take(end) =~= commitment);
}

spec fn feedless(s: Seq<char>) -> bool {
    forall|i: int| 0 <= i < s.len() ==> s[i] != '\n'
}

proof fn lemma_plain(s: Seq<char>)
    requires
        is_plain(s),
    ensures
        feedless(s),
{
    assert forall|i: int| 0 <= i < s.len() implies s[i] != '\n' by {
        assert(s.contains(s[i]));
    }
}

proof fn lemma_is_line(s: Seq<char>)
    requires
        feedless(s),
        s.len() > 0 ==> s.last() != '\r',
    ensures
        is_line(s),
{
}

proof fn lemma_digits(n: nat)
    ensures
        dec(n).len() > 0,
        forall|i: int| 0 <= i < dec(n).len() ==> 48 <= (#[trigger] dec(n)[i]) as u32 <= 57,
    decreases n,
{
    if n >= 10 {
        lemma_digits(n / 10);
    }
}

proof fn lemma_signed_digits(n: int)
    ensures
        feedless(signed_dec(n)),
{
    reveal_strlit("-");
    lemma_digits(n as nat);
    lemma_digits((-n) as nat);
}

proof fn lemma_numbered(prefix: Seq<char>, n: nat)
    requires
        feedless(prefix),
        !prefix.contains('"'),
    ensures
        feedless(numbered(prefix, n)),
        is_plain(numbered(prefix, n)),
{
    lemma_digits(n);
    let s = numbered(prefix, n);
    assert forall|i: int| 0 <= i < s.len() implies s[i] != '\n' && s[i] != '"' by {
        if i < prefix.len() {
            assert(s[i] == prefix[i]);
            assert(prefix.contains(prefix[i]));
        } else {
            assert(s[i] == dec(n)[i - prefix.len()]);
        }
    }
}

proof fn lemma_name_line(stage: Seq<char>)
    requires
        feedless(stage),
    ensures
        is_line(name_text(stage)),
{
    reveal_strlit("name = \"");
    reveal_strlit("\"");
    lemma_is_line(name_text(stage));
}

proof fn lemma_from_line(param: Seq<char>, stage: Seq<char>)
    requires
        feedless(param),
        param.len() > 0,
        feedless(stage),
    ensures
        is_line(from_text(param, stage)),
        from_text(param, stage).len() > 7,
        from_text(param, stage)[0] == 'i',
        from_text(param, stage)[7] == param[0],
{
    reveal_strlit("inputs.");
    reveal_strlit(" = { from = \"");
    reveal_strlit("\" }");
    lemma_is_line(from_text(param, stage));
}

proof fn lemma_external_line(
    param: Seq<char>,
    dir: Seq<char>,
    name: Seq<char>,
    commitment: Seq<char>,
)
    requires
        feedless(param),
        feedless(dir),
        feedless(name),
        feedless(commitment),
    ensures
        is_line(external_text(param, dir, name, commitment)),
        external_text(param, dir, name, commitment).len() > 7,
        external_text(param, dir, name, commitment)[0] == 'i',
        stands_at(
            external_text(param, dir, name, commitment),
            "inputs."@ + param + " = "@,
            0,
        ),
{
    reveal_strlit("inputs.");
    reveal_strlit(" = { external = { path = \"");
    reveal_strlit("/");
    reveal_strlit(".rastered\", index_path = \"");
    reveal_strlit(".rindex\", commitment = \"");
    reveal_strlit("\" } }");
    reveal_strlit(" = ");
    let line = external_text(param, dir, name, commitment);
    let prefix = "inputs."@ + param + " = "@;
    lemma_is_line(line);
    assert(line.subrange(0, prefix.len() as int) =~= prefix);
}

/// The lines of one named stage: the second names it, and no other could name one.
spec fn named(lines: Seq<Seq<char>>, name: Seq<char>) -> bool {
    &&& lines.len() > 1
    &&& lines[1] == name_text(name)
    &&& forall|i: int| 0 <= i < lines.len() ==> is_line(#[trigger] lines[i])
    &&& forall|i: int|
        0 <= i < lines.len() && i != 1 ==> (#[trigger] lines[i]).len() > 0 && lines[i][0] != 'n'
}

proof fn lemma_names(lines: Seq<Seq<char>>, name: Seq<char>, other: Seq<char>)
    requires
        named(lines, name),
    ensures
        lines_of(joined(lines)) == lines,
        lines_of(joined(lines)).contains(name_text(other)) <==> other == name,
{
    splitting_undoes_joining(lines);
    reveal_strlit("name = \"");
    reveal_strlit("\"");
    let wanted = name_text(other);
    assert(wanted[0] == 'n');
    if lines.contains(wanted) {
        let k = lines.index_of(wanted);
        assert(lines[k] == wanted);
        assert(k == 1);
        assert(name_text(name).subrange(8, name_text(name).len() - 1) =~= name);
        assert(name_text(other).subrange(8, name_text(other).len() - 1) =~= other);
    }
    if other == name {
        assert(lines[1] == wanted);
    }
}

proof fn lemma_line_with(lines: Seq<Seq<char>>, prefix: Seq<char>, k: int)
    requires
        0 <= k < lines.len(),
        stands_at(lines[k], prefix, 0),
        forall|i: int| 0 <= i < k ==> !stands_at(#[trigger] lines[i], prefix, 0),
    ensures
        line_with(lines, prefix) == Some(lines[k]),
    decreases lines.len(),
{
    if k > 0 {
        assert(!stands_at(lines[0], prefix, 0));
        let rest = lines.drop_first();
        assert forall|i: int| 0 <= i < k - 1 implies !stands_at(#[trigger] rest[i], prefix, 0) by {
            assert(rest[i] == lines[i + 1]);
        }
        lemma_line_with(rest, prefix, k - 1);
    }
}

proof fn lemma_stage_with(stages: Seq<Seq<char>>, line: Seq<char>, k: int)
    requires
        0 <= k < stages.len(),
        lines_of(stages[k]).contains(line),
        forall|i: int| 0 <= i < k ==> !lines_of(#[trigger] stages[i]).contains(line),
    ensures
        stage_with(stages, line) == Some(stages[k]),
    decreases stages.len(),
{
    if k > 0 {
        assert(!lines_of(stages[0]).contains(line));
        let rest = stages.drop_first();
        assert forall|i: int| 0 <= i < k - 1 implies !lines_of(#[trigger] rest[i]).contains(
            line,
        ) by {
            assert(rest[i] == stages[i + 1]);
        }
        lemma_stage_with(rest, line, k - 1);
    }
}

proof fn lemma_wrong_prefix(line: Seq<char>, param: Seq<char>)
    requires
        line.len() > 0,
        param.len() > 0,
        line[0] != 'i' || (line.len() > 7 && line[7] != param[0]),
    ensures
        !stands_at(line, "inputs."@ + param + " = "@, 0),
{
    reveal_strlit("inputs.");
    reveal_strlit(" = ");
    let prefix = "inputs."@ + param + " = "@;
    if stands_at(line, prefix, 0) {
        let head = line.subrange(0, prefix.len() as int);
        assert(head[0] == line[0] && head[7] == line[7]);
        assert(prefix[0] == 'i' && prefix[7] == param[0]);
    }
}

/// The text of a stage that has a name and one binding.
pub open spec fn one_stage(stage: Seq<char>, binding: Seq<char>) -> Seq<char> {
    "[[chain.stage]]\nname = \""@ + stage + "\"\n"@ + binding + "\n"@
}

/// What a lookup in one such stage comes to: its name and the binding's front decide.
proof fn lemma_one_stage(
    stage: Seq<char>,
    binding: Seq<char>,
    wanted: Seq<char>,
    parameter: Seq<char>,
)
    requires
        feedless(stage),
        is_line(binding),
        binding.len() > 0,
        binding[0] != 'n',
    ensures
        binding_line(seq![one_stage(stage, binding)], wanted, parameter) == (if wanted == stage
            && stands_at(binding, "inputs."@ + parameter + " = "@, 0) {
            Some(binding)
        } else {
            None
        }),
{
    let lines = seq!["[[chain.stage]]"@, name_text(stage), binding];
    let text = one_stage(stage, binding);
    let prefix = "inputs."@ + parameter + " = "@;
    assert(joined(lines) == text) by {
        reveal_strlit("[[chain.stage]]\nname = \"");
        reveal_strlit("[[chain.stage]]");
        reveal_strlit("name = \"");
        reveal_strlit("\"\n");
        reveal_strlit("\"");
        reveal_strlit("\n");
        reveal_with_fuel(joined, 4);
        assert(lines.drop_last().drop_last().drop_last() =~= Seq::empty());
        assert(joined(lines) =~= text);
    }
    reveal_strlit("[[chain.stage]]");
    reveal_strlit("name = \"");
    reveal_strlit("\"");
    reveal_strlit("inputs.");
    lemma_name_line(stage);
    lemma_is_line("[[chain.stage]]"@);
    assert(named(lines, stage));
    lemma_names(lines, stage, wanted);
    let stages = seq![text];
    assert(stages.drop_first() =~= Seq::empty());
    if wanted == stage {
        assert(stage_with(stages, name_text(wanted)) == Some(text));
        assert forall|i: int| 0 <= i < 2 implies !stands_at(#[trigger] lines[i], prefix, 0) by {
            if stands_at(lines[i], prefix, 0) {
                assert(lines[i].subrange(0, prefix.len() as int)[0] == lines[i][0]);
                assert(prefix[0] == 'i');
            }
        }
        if stands_at(binding, prefix, 0) {
            lemma_line_with(lines, prefix, 2);
        } else {
            reveal_with_fuel(line_with, 4);
            assert(!stands_at(lines[0], prefix, 0));
            assert(lines.drop_first()[0] == lines[1]);
            assert(lines.drop_first().drop_first()[0] == lines[2]);
        }
    } else {
        reveal_with_fuel(stage_with, 2);
        assert(stage_with(stages, name_text(wanted)) is None);
    }
}

/// Distinct parameters without an equals sign have distinct fronts.
proof fn lemma_fronts_differ(
    param: Seq<char>,
    dir: Seq<char>,
    name: Seq<char>,
    commitment: Seq<char>,
    other: Seq<char>,
)
    requires
        !param.contains('='),
        !other.contains('='),
        other != param,
    ensures
        !stands_at(
            external_text(param, dir, name, commitment),
            "inputs."@ + other + " = "@,
            0,
        ),
{
    reveal_strlit("inputs.");
    reveal_strlit(" = { external = { path = \"");
    reveal_strlit(" = ");
    let line = external_text(param, dir, name, commitment);
    let prefix = "inputs."@ + other + " = "@;
    if stands_at(line, prefix, 0) {
        let head = line.subrange(0, prefix.len() as int);
        assert(head == prefix);
        let p = param.len() as int;
        let o = other.len() as int;
        assert(line[7 + p + 1] == '=' && line[7 + p] == ' ');
        assert(prefix[7 + o + 1] == '=' && prefix[7 + o] == ' ');
        if o < p {
            assert(head[7 + o + 1] == line[7 + o + 1]);
            if o + 1 < p {
                assert(line[7 + o + 1] == param[o + 1]);
                assert(param.contains(param[o + 1]));
            }
        } else if p < o {
            assert(head[7 + p + 1] == line[7 + p + 1]);
            if p + 1 < o {
                assert(prefix[7 + p + 1] == other[p + 1]);
                assert(other.contains(other[p + 1]));
            }
        } else {
            assert forall|i: int| 0 <= i < p implies param[i] == other[i] by {
                assert(line[7 + i] == param[i]);
                assert(prefix[7 + i] == other[i]);
                assert(head[7 + i] == line[7 + i]);
            }
            assert(param =~= other);
        }
    }
}

/// What one written stage binds is read back: a lookup of its name and parameter gives
/// the commitment, and a lookup of any other stage is refused. A parameter is answered
/// exactly if the binding starts with it, so that among parameters without an equals
/// sign only the written one is.
pub proof fn a_written_binding_is_found(
    stage: Seq<char>,
    param: Seq<char>,
    dir: Seq<char>,
    name: Seq<char>,
    commitment: Seq<char>,
    wanted: Seq<char>,
    parameter: Seq<char>,
)
    requires
        is_plain(stage),
        is_plain(param),
        is_plain(dir),
        is_plain(name),
        is_plain(commitment),
    ensures
        ({
            let binding = external_text(param, dir, name, commitment);
            let stages = seq![one_stage(stage, binding)];
            let missing = Err::<Seq<char>, Seq<char>>(
                "generated prefill manifest has no "@ + (wanted + "."@ + parameter) + " binding"@,
            );
            &&& stage_commitment(stages, stage, param) == Ok::<Seq<char>, Seq<char>>(commitment)
            &&& wanted != stage ==> stage_commitment(stages, wanted, parameter) == missing
            &&& stands_at(binding, "inputs."@ + parameter + " = "@, 0) ==> stage_commitment(
                stages,
                stage,
                parameter,
            ) == Ok::<Seq<char>, Seq<char>>(commitment)
            &&& wanted == stage && !stands_at(binding, "inputs."@ + parameter + " = "@, 0)
                ==> stage_commitment(stages, wanted, parameter) == missing
            &&& wanted == stage && parameter != param && !param.contains('=')
                && !parameter.contains('=') ==> stage_commitment(stages, wanted, parameter)
                == missing
        }),
{
    let binding = external_text(param, dir, name, commitment);
    lemma_plain(stage);
    lemma_plain(param);
    lemma_plain(dir);
    lemma_plain(name);
    lemma_plain(commitment);
    lemma_external_line(param, dir, name, commitment);
    lemma_one_stage(stage, binding, stage, param);
    lemma_one_stage(stage, binding, stage, parameter);
    lemma_one_stage(stage, binding, wanted, parameter);
    a_bound_commitment_reads_back(param, dir, name, commitment, stage + "."@ + param);
    a_bound_commitment_reads_back(param, dir, name, commitment, stage + "."@ + parameter);
    if parameter != param && !param.contains('=') && !parameter.contains('=') {
        lemma_fronts_differ(param, dir, name, commitment, parameter);
    }
}

/// A parameter that is bound to another stage's output has no commitment.
pub proof fn a_stage_output_is_no_commitment(
    stage: Seq<char>,
    param: Seq<char>,
    source: Seq<char>,
)
    requires
        is_plain(stage),
        is_plain(param),
        is_plain(source),
    ensures
        stage_commitment(seq![one_stage(stage, from_text(param, source))], stage, param) is Err,
{
    reveal_strlit("inputs.");
    reveal_strlit(" = { from = \"");
    reveal_strlit("\" }");
    reveal_strlit(" = ");
    reveal_strlit("\"");
    reveal_strlit("commitment = \"");
    let line = from_text(param, source);
    let prefix = "inputs."@ + param + " = "@;
    lemma_plain(stage);
    lemma_plain(param);
    lemma_plain(source);
    lemma_is_line(line);
    assert(line.subrange(0, prefix.len() as int) =~= prefix);
    lemma_one_stage(stage, line, stage, param);
    match found_at(line, marker()) {
        None => {},
        Some(at) => {
            assert(first_at(line, marker(), at)) by {
                let k = choose|k: int| first_at(line, marker(), k);
                assert(first_at(line, marker(), k));
            }
            let p = param.len() as int;
            let n = source.len() as int;
            let e = at + 13;
            let piece = line.subrange(at, at + 14);
            assert(piece[13] == '"' && piece[9] == 't');
            assert(line[e] == '"' && line[e - 4] == 't');
            assert(e == 7 + p + 13 + n) by {
                if e < 7 {
                    assert(line[e] == "inputs."@[e]);
                } else if e < 7 + p {
                    assert(line[e] == param[e - 7]);
                    assert(param.contains(param[e - 7]));
                } else if e < 7 + p + 13 {
                    assert(line[e] == " = { from = \""@[e - 7 - p]);
                    assert(e - 7 - p == 12);
                    assert(line[e - 4] == " = { from = \""@[8]);
                } else if e < 7 + p + 13 + n {
                    assert(line[e] == source[e - 20 - p]);
                    assert(source.contains(source[e - 20 - p]));
                } else {
                    assert(line[e] == "\" }"@[e - 20 - p - n]);
                }
            }
            let rest = line.skip(at + 14);
            reveal_strlit(" }");
            assert(rest =~= " }"@);
            assert(found_at(rest, "\""@) is None) by {
                assert forall|j: int| !first_at(rest, "\""@, j) by {
                    if stands_at(rest, "\""@, j) {
                        assert(rest.subrange(j, j + 1)[0] == '"');
                        assert(rest[j] == '"');
                    }
                }
            }
        },
    }
}

/// Every commitment can stand in a binding, and every layer has its two.
pub open spec fn well_formed(c: Commitments, layers: nat) -> bool {
    &&& is_plain(c.tokenizer)
    &&& is_plain(c.pieces)
    &&& is_plain(c.embedding)
    &&& is_plain(c.head)
    &&& c.aux.len() == layers
    &&& c.layers.len() == layers
    &&& forall|i: int| 0 <= i < layers ==> is_plain(#[trigger] c.aux[i])
    &&& forall|i: int| 0 <= i < layers ==> is_plain(#[trigger] c.layers[i])
}

spec fn stage_name(layers: int, k: int) -> Seq<char> {
    if k == 0 {
        "prompt_prepare"@
    } else if k == 1 {
        "input_embedding"@
    } else if k < 2 + layers {
        numbered("prefill_prepare_aux_l"@, (k - 2) as nat)
    } else if k < 2 + 2 * layers {
        numbered("prefill_range_l"@, (k - 2 - layers) as nat)
    } else {
        "prefill_finalize"@
    }
}

proof fn lemma_numbered_injective(prefix: Seq<char>, a: nat, b: nat)
    requires
        numbered(prefix, a) == numbered(prefix, b),
    ensures
        a == b,
{
    let p = prefix.len() as int;
    assert(numbered(prefix, a).skip(p) =~= dec(a));
    assert(numbered(prefix, b).skip(p) =~= dec(b));
    decimal_is_injective(a, b);
}

proof fn lemma_names_differ(layers: int, a: int, b: int)
    requires
        0 <= a < b < 2 * layers + 3,
    ensures
        stage_name(layers, a) != stage_name(layers, b),
{
    reveal_strlit("prompt_prepare");
    reveal_strlit("input_embedding");
    reveal_strlit("prefill_prepare_aux_l");
    reveal_strlit("prefill_range_l");
    reveal_strlit("prefill_finalize");
    let x = stage_name(layers, a);
    let y = stage_name(layers, b);
    if x == y {
        if 2 <= a && b < 2 + layers {
            lemma_numbered_injective("prefill_prepare_aux_l"@, (a - 2) as nat, (b - 2) as nat);
        } else if 2 + layers <= a && b < 2 + 2 * layers {
            lemma_numbered_injective(
                "prefill_range_l"@,
                (a - 2 - layers) as nat,
                (b - 2 - layers) as nat,
            );
        } else {
            assert(x[0] == y[0] && x[2] == y[2] && x[8] == y[8]);
        }
    }
}

proof fn lemma_literals()
    ensures
        is_line("[[chain.stage]]"@),
        "[[chain.stage]]"@.len() > 0,
        "[[chain.stage]]"@[0] == '[',
        is_line("project = \"prompt-prepare\""@),
        "project = \"prompt-prepare\""@.len() > 0,
        "project = \"prompt-prepare\""@[0] == 'p',
        is_line("project = \"input-embedding\""@),
        "project = \"input-embedding\""@.len() > 0,
        "project = \"input-embedding\""@[0] == 'p',
        is_line("project = \"prefill-prepare-aux\""@),
        "project = \"prefill-prepare-aux\""@.len() > 0,
        "project = \"prefill-prepare-aux\""@[0] == 'p',
        is_line("project = \"prefill-range\""@),
        "project = \"prefill-range\""@.len() > 0,
        "project = \"prefill-range\""@[0] == 'p',
        is_line("project = \"prefill-finalize\""@),
        "project = \"prefill-finalize\""@.len() > 0,
        "project = \"prefill-finalize\""@[0] == 'p',
{
    reveal_strlit("[[chain.stage]]");
    reveal_strlit("project = \"prompt-prepare\"");
    reveal_strlit("project = \"input-embedding\"");
    reveal_strlit("project = \"prefill-prepare-aux\"");
    reveal_strlit("project = \"prefill-range\"");
    reveal_strlit("project = \"prefill-finalize\"");
    lemma_is_line("[[chain.stage]]"@);
    lemma_is_line("project = \"prompt-prepare\""@);
    lemma_is_line("project = \"input-embedding\""@);
    lemma_is_line("project = \"prefill-prepare-aux\""@);
    lemma_is_line("project = \"prefill-range\""@);
    lemma_is_line("project = \"prefill-finalize\""@);
}

proof fn lemma_prompt_named(tokenizer: Seq<char>, pieces: Seq<char>)
    requires
        is_plain(tokenizer),
        is_plain(pieces),
    ensures
        named(prompt_stage_lines(tokenizer, pieces), "prompt_prepare"@),
{
    lemma_literals();
    reveal_strlit("prompt_prepare");
    reveal_strlit("prompt-prepare");
    reveal_strlit("tokenizer");
    reveal_strlit("initial_pieces");
    lemma_plain(tokenizer);
    lemma_plain(pieces);
    lemma_name_line("prompt_prepare"@);
    lemma_external_line("tokenizer"@, "prompt-prepare"@, "tokenizer"@, tokenizer);
    lemma_external_line("initial_pieces"@, "prompt-prepare"@, "initial_pieces"@, pieces);
}

proof fn lemma_embedding_named(commitment: Seq<char>)
    requires
        is_plain(commitment),
    ensures
        named(embedding_stage_lines(commitment), "input_embedding"@),
        line_with(embedding_stage_lines(commitment), "inputs."@ + "embedding"@ + " = "@) == Some(
            external_text("embedding"@, "input-embedding"@, "embedding"@, commitment),
        ),
        is_plain("embedding"@),
        is_plain("input-embedding"@),
{
    lemma_literals();
    reveal_strlit("input_embedding");
    reveal_strlit("input-embedding");
    reveal_strlit("embedding");
    reveal_strlit("prompt");
    reveal_strlit("prompt_prepare");
    reveal_strlit("name = \"");
    lemma_plain(commitment);
    lemma_name_line("input_embedding"@);
    lemma_from_line("prompt"@, "prompt_prepare"@);
    lemma_external_line("embedding"@, "input-embedding"@, "embedding"@, commitment);
    let lines = embedding_stage_lines(commitment);
    assert(lines[1][0] == 'n');
    lemma_wrong_prefix(lines[0], "embedding"@);
    lemma_wrong_prefix(lines[1], "embedding"@);
    lemma_wrong_prefix(lines[2], "embedding"@);
    lemma_wrong_prefix(lines[3], "embedding"@);
    lemma_line_with(lines, "inputs."@ + "embedding"@ + " = "@, 4);
}

proof fn lemma_aux_named(layer: nat, commitment: Seq<char>)
    requires
        is_plain(commitment),
    ensures
        named(aux_stage_lines(layer, commitment), numbered("prefill_prepare_aux_l"@, layer)),
        line_with(aux_stage_lines(layer, commitment), "inputs."@ + "layer"@ + " = "@) == Some(
            external_text(
                "layer"@,
                "prefill-prepare-aux"@,
                numbered("layer"@, layer),
                commitment,
            ),
        ),
        is_plain("layer"@),
        is_plain("prefill-prepare-aux"@),
        is_plain(numbered("layer"@, layer)),
{
    lemma_literals();
    reveal_strlit("prefill_prepare_aux_l");
    reveal_strlit("prefill-prepare-aux");
    reveal_strlit("layer");
    reveal_strlit("embedded");
    reveal_strlit("input_embedding");
    reveal_strlit("name = \"");
    lemma_plain(commitment);
    lemma_numbered("prefill_prepare_aux_l"@, layer);
    lemma_numbered("layer"@, layer);
    lemma_name_line(numbered("prefill_prepare_aux_l"@, layer));
    lemma_from_line("embedded"@, "input_embedding"@);
    lemma_external_line(
        "layer"@,
        "prefill-prepare-aux"@,
        numbered("layer"@, layer),
        commitment,
    );
    let lines = aux_stage_lines(layer, commitment);
    assert(lines[1][0] == 'n');
    lemma_wrong_prefix(lines[0], "layer"@);
    lemma_wrong_prefix(lines[1], "layer"@);
    lemma_wrong_prefix(lines[2], "layer"@);
    lemma_wrong_prefix(lines[3], "layer"@);
    lemma_line_with(lines, "inputs."@ + "layer"@ + " = "@, 4);
}

proof fn lemma_range_named(
    shape: ShapeView,
    candidates: (i32, i32),
    layer: nat,
    commitment: Seq<char>,
)
    requires
        is_plain(commitment),
    ensures
        named(
            range_stage_lines(shape, candidates, layer, commitment),
            numbered("prefill_range_l"@, layer),
        ),
        line_with(
            range_stage_lines(shape, candidates, layer, commitment),
            "inputs."@ + "layer"@ + " = "@,
        ) == Some(
            external_text("layer"@, "prefill-range"@, numbered("layer"@, layer), commitment),
        ),
        is_plain("layer"@),
        is_plain("prefill-range"@),
        is_plain(numbered("layer"@, layer)),
{
    lemma_literals();
    reveal_strlit("prefill_range_l");
    reveal_strlit("prefill_prepare_aux_l");
    reveal_strlit("prefill-range");
    reveal_strlit("layer");
    reveal_strlit("activations");
    reveal_strlit("prior_kv");
    reveal_strlit("donor_a_kv");
    reveal_strlit("donor_b_kv");
    reveal_strlit("ple");
    reveal_strlit("input_embedding");
    reveal_strlit("name = \"");
    lemma_plain(commitment);
    lemma_numbered("prefill_range_l"@, layer);
    lemma_numbered("prefill_prepare_aux_l"@, layer);
    lemma_numbered("layer"@, layer);
    if layer > 0 {
        lemma_numbered("prefill_range_l"@, (layer - 1) as nat);
    }
    lemma_signed_digits(candidates.0 as int);
    lemma_signed_digits(candidates.1 as int);
    lemma_name_line(numbered("prefill_range_l"@, layer));
    lemma_from_line("activations"@, upstream(layer));
    lemma_from_line("prior_kv"@, "input_embedding"@);
    lemma_from_line("donor_a_kv"@, donor_stage(shape, layer, candidates.0));
    lemma_from_line("donor_b_kv"@, donor_stage(shape, layer, candidates.1));
    lemma_from_line("ple"@, numbered("prefill_prepare_aux_l"@, layer));
    lemma_external_line("layer"@, "prefill-range"@, numbered("layer"@, layer), commitment);
    let lines = range_stage_lines(shape, candidates, layer, commitment);
    assert(lines[1][0] == 'n');
    lemma_wrong_prefix(lines[0], "layer"@);
    lemma_wrong_prefix(lines[1], "layer"@);
    lemma_wrong_prefix(lines[2], "layer"@);
    lemma_wrong_prefix(lines[3], "layer"@);
    lemma_wrong_prefix(lines[4], "layer"@);
    lemma_wrong_prefix(lines[5], "layer"@);
    lemma_wrong_prefix(lines[6], "layer"@);
    lemma_wrong_prefix(lines[7], "layer"@);
    lemma_line_with(lines, "inputs."@ + "layer"@ + " = "@, 8);
}

proof fn lemma_finalize_named(last: nat, commitment: Seq<char>)
    requires
        is_plain(commitment),
    ensures
        named(finalize_stage_lines(last, commitment), "prefill_finalize"@),
        line_with(finalize_stage_lines(last, commitment), "inputs."@ + "head"@ + " = "@) == Some(
            external_text("head"@, "prefill-finalize"@, "head"@, commitment),
        ),
        is_plain("head"@),
        is_plain("prefill-finalize"@),
{
    lemma_literals();
    reveal_strlit("prefill_finalize");
    reveal_strlit("prefill-finalize");
    reveal_strlit("head");
    reveal_strlit("activations");
    reveal_strlit("prefill_range_l");
    reveal_strlit("name = \"");
    lemma_plain(commitment);
    lemma_numbered("prefill_range_l"@, last);
    lemma_name_line("prefill_finalize"@);
    lemma_from_line("activations"@, numbered("prefill_range_l"@, last));
    lemma_external_line("head"@, "prefill-finalize"@, "head"@, commitment);
    let lines = finalize_stage_lines(last, commitment);
    assert(lines[1][0] == 'n');
    lemma_wrong_prefix(lines[0], "head"@);
    lemma_wrong_prefix(lines[1], "head"@);
    lemma_wrong_prefix(lines[2], "head"@);
    lemma_wrong_prefix(lines[3], "head"@);
    lemma_line_with(lines, "inputs."@ + "head"@ + " = "@, 4);
}

proof fn lemma_stage_named(shape: ShapeView, candidates: (i32, i32), c: Commitments, k: int)
    requires
        well_formed(c, shape.layers as nat),
        0 <= k < 2 * shape.layers + 3,
    ensures
        named(stage_lines(shape, candidates, c, k), stage_name(shape.layers as int, k)),
{
    let n = shape.layers as int;
    if k == 0 {
        lemma_prompt_named(c.tokenizer, c.pieces);
    } else if k == 1 {
        lemma_embedding_named(c.embedding);
    } else if k < 2 + n {
        lemma_aux_named((k - 2) as nat, c.aux[k - 2]);
    } else if k < 2 + 2 * n {
        lemma_range_named(shape, candidates, (k - 2 - n) as nat, c.layers[k - 2 - n]);
    } else {
        lemma_finalize_named((n - 1) as nat, c.head);
    }
}

proof fn lemma_written_stage(shape: ShapeView, candidates: (i32, i32), c: Commitments, k: int)
    requires
        well_formed(c, shape.layers as nat),
        0 <= k < 2 * shape.layers + 3,
    ensures
        stage_with(
            written_stages(shape, candidates, c),
            name_text(stage_name(shape.layers as int, k)),
        ) == Some(joined(stage_lines(shape, candidates, c, k))),
        lines_of(joined(stage_lines(shape, candidates, c, k))) == stage_lines(
            shape,
            candidates,
            c,
            k,
        ),
{
    let stages = written_stages(shape, candidates, c);
    let n = shape.layers as int;
    let name = stage_name(n, k);
    lemma_stage_named(shape, candidates, c, k);
    lemma_names(stage_lines(shape, candidates, c, k), name, name);
    assert forall|i: int| 0 <= i < k implies !lines_of(#[trigger] stages[i]).contains(
        name_text(name),
    ) by {
        lemma_stage_named(shape, candidates, c, i);
        lemma_names_differ(n, i, k);
        lemma_names(stage_lines(shape, candidates, c, i), stage_name(n, i), name);
    }
    lemma_stage_with(stages, name_text(name), k);
}

/// Every commitment that an import writes into its stages is found again there.
pub proof fn written_commitments_are_found(
    shape: ShapeView,
    candidates: (i32, i32),
    c: Commitments,
    layer: nat,
)
    requires
        well_formed(c, shape.layers as nat),
    ensures
        ({
            let stages = written_stages(shape, candidates, c);
            &&& stage_commitment(stages, "input_embedding"@, "embedding"@) == Ok::<
                Seq<char>,
                Seq<char>,
            >(c.embedding)
            &&& stage_commitment(stages, "prefill_finalize"@, "head"@) == Ok::<
                Seq<char>,
                Seq<char>,
            >(c.head)
            &&& layer < shape.layers ==> stage_commitment(
                stages,
                numbered("prefill_prepare_aux_l"@, layer),
                "layer"@,
            ) == Ok::<Seq<char>, Seq<char>>(c.aux[layer as int])
            &&& layer < shape.layers ==> stage_commitment(
                stages,
                numbered("prefill_range_l"@, layer),
                "layer"@,
            ) == Ok::<Seq<char>, Seq<char>>(c.layers[layer as int])
        }),
{
    let n = shape.layers as int;
    lemma_written_stage(shape, candidates, c, 1);
    lemma_embedding_named(c.embedding);
    a_bound_commitment_reads_back(
        "embedding"@,
        "input-embedding"@,
        "embedding"@,
        c.embedding,
        "input_embedding"@ + "."@ + "embedding"@,
    );
    lemma_written_stage(shape, candidates, c, 2 + 2 * n);
    lemma_finalize_named((n - 1) as nat, c.head);
    a_bound_commitment_reads_back(
        "head"@,
        "prefill-finalize"@,
        "head"@,
        c.head,
        "prefill_finalize"@ + "."@ + "head"@,
    );
    if layer < shape.layers {
        let i = layer as int;
        lemma_written_stage(shape, candidates, c, 2 + i);
        lemma_aux_named(layer, c.aux[i]);
        a_bound_commitment_reads_back(
            "layer"@,
            "prefill-prepare-aux"@,
            numbered("layer"@, layer),
            c.aux[i],
            numbered("prefill_prepare_aux_l"@, layer) + "."@ + "layer"@,
        );
        lemma_written_stage(shape, candidates, c, 2 + n + i);
        lemma_range_named(shape, candidates, layer, c.layers[i]);
        a_bound_commitment_reads_back(
            "layer"@,
            "prefill-range"@,
            numbered("layer"@, layer),
            c.layers[i],
            numbered("prefill_range_l"@, layer) + "."@ + "layer"@,
        );
    }
}

proof fn lemma_all_layers(
    shape: ShapeView,
    candidates: (i32, i32),
    c: Commitments,
    k: nat,
)
    requires
        well_formed(c, shape.layers as nat),
        k <= shape.layers,
    ensures
        layer_commitments(
            written_stages(shape, candidates, c),
            "prefill_prepare_aux_l"@,
            k,
        ) == Ok::<Seq<Seq<char>>, Seq<char>>(c.aux.take(k as int)),
        layer_commitments(
            written_stages(shape, candidates, c),
            "prefill_range_l"@,
            k,
        ) == Ok::<Seq<Seq<char>>, Seq<char>>(c.layers.take(k as int)),
    decreases k,
{
    if k > 0 {
        lemma_all_layers(shape, candidates, c, (k - 1) as nat);
        written_commitments_are_found(shape, candidates, c, (k - 1) as nat);
        assert(c.aux.take(k - 1).push(c.aux[k - 1]) =~= c.aux.take(k as int));
        assert(c.layers.take(k - 1).push(c.layers[k - 1]) =~= c.layers.take(k as int));
    } else {
        assert(c.aux.take(0) =~= Seq::empty());
        assert(c.layers.take(0) =~= Seq::empty());
    }
}

/// An import always makes a manifest, if the model has at most two donor layers.
pub proof fn an_import_makes_a_manifest(
    shape: ShapeView,
    donors: Seq<i32>,
    c: Commitments,
    decoder: Seq<char>,
    tokens: u32,
)
    requires
        well_formed(c, shape.layers as nat),
        donors.len() <= 2,
    ensures
        import_text(shape, donors, c, decoder, tokens) is Ok,
{
    let pair = candidates(donors)->Ok_0;
    lemma_all_layers(shape, pair, c, shape.layers as nat);
    written_commitments_are_found(shape, pair, c, 0);
}

/// The lists of inputs in an import's manifest hold every layer's commitments, in
/// order.
pub proof fn the_inputs_list_every_layer(
    shape: ShapeView,
    candidates: (i32, i32),
    c: Commitments,
)
    requires
        well_formed(c, shape.layers as nat),
    ensures
        inputs_text(written_stages(shape, candidates, c), shape.layers as nat) == Ok::<
            Seq<char>,
            Seq<char>,
        >(
            joined(input_lines("aux_layer"@, "prefill-prepare-aux"@, c.aux)) + joined(
                input_lines("transformer_layer"@, "prefill-range"@, c.layers),
            ),
        ),
{
    lemma_all_layers(shape, candidates, c, shape.layers as nat);
    assert(c.aux.take(shape.layers as int) =~= c.aux);
    assert(c.layers.take(shape.layers as int) =~= c.layers);
}

} // verus!
