# raster-chain-inference

Verified stages of a chain that runs a Gemma model: committed prompt in, exactly N
generated token ids and decoded text out, one stage per inference phase. Values are
Q16.16 fixed-point bits, so that a replay reproduces every bit.

| module | what it does |
| --- | --- |
| `prompt_prepare`, `prompt_laws` | merges a prompt's pieces to a fixed point and looks them up |
| `input_embedding`, `decode_embed` | gathers the embedding rows of a prompt or of one selected token |
| `prefill_prepare_aux` | per-layer embeddings of one layer |
| `prefill_range` | one transformer layer: projection, attention over own, cached or borrowed keys, feed-forward and per-layer-embedding blocks |
| `prefill_finalize` | scores the last position against the vocabulary |
| `decode` | opens a transcript, selects a token and appends it |
| `output_finalize` | decodes the transcript, commits its ids, reports why it ended |
| `model_import` | turns a model bundle into the stages' externals and the chain's manifest |
| `det_num`, `floor_num`, `numerics`, `numeric_laws`, `matvec`, `kernels` | arithmetic |
| `pages`, `packed`, `activations`, `lists`, `text`, `digest` | data |

Each public function states what it returns for every input it takes; what relates
several functions is stated as a public proof function beside them. Two things come
from outside: the transcendental kernels (root-mean-square norm, GELU, softcap,
rotary rotation, softmax), which every stage takes as an argument and of which it
assumes only that equal requests get equal answers of the right width; and the calls
into `sha2`, `serde_json` and the standard library that are marked
`external_body` or `assume_specification`.

`app/` is the importer's program: command line, files, and the conversions of the
configuration's floating-point numbers. `tests/` runs the library on concrete values.
