//! The shapes that every stage needs, read from a model's `config.json`.

use crate::lists::{views, views_of_empty, views_of_push};
use crate::model_import::json::{document, read_json, Json, JsonView};
use crate::prefill_prepare_aux::{is_isqrt, isqrt};
use crate::text::outcome;
use vstd::prelude::*;

verus! {

/// The attention type of a sliding-window layer.
pub open spec fn sliding_attention() -> Seq<char> {
    "sliding_attention"@
}

/// The shapes of a model.
pub struct Shape {
    pub hidden: u64,
    pub layers: u64,
    pub heads: u64,
    pub kv_heads: u64,
    /// Head dim of the sliding layers.
    pub head_dim: u64,
    /// Head dim of the full-attention layers.
    pub global_head_dim: u64,
    /// How many trailing layers borrow their keys and values from an earlier one.
    pub num_kv_shared_layers: u64,
    pub vocab: u64,
    pub ple_width: u64,
    pub sliding_window: u32,
    pub layer_types: Vec<String>,
}

/// The shapes of a model as a mathematical value.
#[verifier::ext_equal]
pub struct ShapeView {
    pub hidden: u64,
    pub layers: u64,
    pub heads: u64,
    pub kv_heads: u64,
    pub head_dim: u64,
    pub global_head_dim: u64,
    pub num_kv_shared_layers: u64,
    pub vocab: u64,
    pub ple_width: u64,
    pub sliding_window: u32,
    pub layer_types: Seq<Seq<char>>,
}

impl View for Shape {
    type V = ShapeView;

    open spec fn view(&self) -> ShapeView {
        ShapeView {
            hidden: self.hidden,
            layers: self.layers,
            heads: self.heads,
            kv_heads: self.kv_heads,
            head_dim: self.head_dim,
            global_head_dim: self.global_head_dim,
            num_kv_shared_layers: self.num_kv_shared_layers,
            vocab: self.vocab,
            ple_width: self.ple_width,
            sliding_window: self.sliding_window,
            layer_types: views(self.layer_types@),
        }
    }
}

/// Fixed-point values that come out of a configuration's floating-point numbers.
pub struct Scalars {
    /// RoPE base of the sliding layers, a whole number.
    pub rope_base_sliding: i64,
    /// RoPE base of the full-attention layers, a whole number.
    pub rope_base_full: i64,
    /// Rotating lanes of a full-attention head.
    pub full_rotary_dim: u64,
    /// Epsilon of every norm, in accumulator units.
    pub norm_eps: i64,
    /// Scale of a token embedding.
    pub embedding_scale: i32,
    /// Scale of a per-layer embedding.
    pub ple_embedding_scale: i32,
    /// Scale of the per-layer projection.
    pub projection_scalar: i32,
    /// Scale of the sum of the two.
    pub input_scale: i32,
    /// Soft cap of the logits; zero means none.
    pub softcap: i32,
}

/// Whether `r` is `1 / sqrt(n)` in Q16.16, rounded to the nearest with a half rounded
/// up: twice the value lies from `2r - 1` up to `2r + 1`. Of zero it is zero.
pub open spec fn is_inv_sqrt(n: int, r: int) -> bool {
    &&& r >= 0
    &&& n == 0 ==> r == 0
    &&& n > 0 && r > 0 ==> (2 * r - 1) * (2 * r - 1) * n <= 0x4_0000_0000
    &&& n > 0 ==> 0x4_0000_0000 < (2 * r + 1) * (2 * r + 1) * n
}

/// A number has one inverse square root.
pub proof fn the_inverse_root_is_unique(n: int, a: int, b: int)
    requires
        n >= 0,
        is_inv_sqrt(n, a),
        is_inv_sqrt(n, b),
    ensures
        a == b,
{
    if n > 0 && a < b {
        lemma_roots_apart(n, a, b);
    } else if n > 0 && b < a {
        lemma_roots_apart(n, b, a);
    }
}

proof fn lemma_roots_apart(n: int, a: int, b: int)
    requires
        n > 0,
        0 <= a < b,
    ensures
        (2 * a + 1) * (2 * a + 1) * n <= (2 * b - 1) * (2 * b - 1) * n,
{
    let x = 2 * a + 1;
    let y = 2 * b - 1;
    assert(x * x <= y * y) by (nonlinear_arith)
        requires
            0 <= x <= y,
    ;
    assert(x * x * n <= y * y * n) by (nonlinear_arith)
        requires
            x * x <= y * y,
            n > 0,
    ;
}

/// `1 / sqrt(n)` in Q16.16, computed in integers.
pub fn inv_sqrt_q16(n: u64) -> (r: i32)
    ensures
        is_inv_sqrt(n as int, r as int),
{
    if n == 0 {
        return 0;
    }
    let v: u64 = 0x4_0000_0000u64 / n;
    assert(v <= 0x4_0000_0000) by {
        vstd::arithmetic::div_mod::lemma_div_is_ordered_by_denominator(
            0x4_0000_0000,
            1,
            n as int,
        );
    }
    let s: i64 = isqrt(v as i64);
    let ghost m = n as int;
    proof {
        if v == 0 {
            assert(is_isqrt(v as int, 0));
        }
        assert(is_isqrt(v as int, s as int));
        assert(s <= 131072) by (nonlinear_arith)
            requires
                s * s <= 0x4_0000_0000,
                s >= 0,
        ;
        vstd::arithmetic::div_mod::lemma_fundamental_div_mod(0x4_0000_0000, m);
        vstd::arithmetic::div_mod::lemma_mod_bound(0x4_0000_0000, m);
        assert(s * s * m <= 0x4_0000_0000) by (nonlinear_arith)
            requires
                s * s <= v,
                m * v <= 0x4_0000_0000,
                m > 0,
        ;
        assert(0x4_0000_0000 < (s + 1) * (s + 1) * m) by (nonlinear_arith)
            requires
                v + 1 <= (s + 1) * (s + 1),
                0x4_0000_0000 < m * v + m,
                m > 0,
        ;
    }
    let r: i32 = ((s as u64 + 1) / 2) as i32;
    proof {
        let low = 2 * r - 1;
        let high = 2 * r + 1;
        assert(low <= s < high);
        if r > 0 {
            assert(low * low * m <= s * s * m) by (nonlinear_arith)
                requires
                    0 <= low <= s,
                    m > 0,
            ;
        }
        assert((s + 1) * (s + 1) * m <= high * high * m) by (nonlinear_arith)
            requires
                0 <= s + 1 <= high,
                m > 0,
        ;
    }
    r
}

/// The texts among some values, in order.
pub open spec fn texts(items: Seq<JsonView>) -> Seq<Seq<char>>
    decreases items.len(),
{
    if items.len() == 0 {
        Seq::empty()
    } else {
        match items.last().as_text() {
            Some(s) => texts(items.drop_last()).push(s),
            None => texts(items.drop_last()),
        }
    }
}

/// The message that the configuration lacks a key.
pub open spec fn lacks(key: Seq<char>) -> Seq<char> {
    "config.json text_config has no "@ + key
}

/// The shapes that a text configuration declares, or the message for the first
/// key that it lacks.
pub open spec fn shape_of(text: JsonView) -> Result<ShapeView, Seq<char>> {
    if text.u64_at("hidden_size"@) is None {
        Err(lacks("hidden_size"@))
    } else if text.u64_at("num_hidden_layers"@) is None {
        Err(lacks("num_hidden_layers"@))
    } else if text.u64_at("num_attention_heads"@) is None {
        Err(lacks("num_attention_heads"@))
    } else if text.u64_at("num_key_value_heads"@) is None {
        Err(lacks("num_key_value_heads"@))
    } else if text.u64_at("head_dim"@) is None {
        Err(lacks("head_dim"@))
    } else if text.u64_at("vocab_size"@) is None {
        Err(lacks("vocab_size"@))
    } else if text.u64_at("hidden_size_per_layer_input"@) is None {
        Err(lacks("hidden_size_per_layer_input"@))
    } else {
        Ok(
            ShapeView {
                hidden: text.u64_at("hidden_size"@)->0,
                layers: text.u64_at("num_hidden_layers"@)->0,
                heads: text.u64_at("num_attention_heads"@)->0,
                kv_heads: text.u64_at("num_key_value_heads"@)->0,
                head_dim: text.u64_at("head_dim"@)->0,
                global_head_dim: match text.u64_at("global_head_dim"@) {
                    Some(v) => v,
                    None => text.u64_at("head_dim"@)->0,
                },
                num_kv_shared_layers: match text.u64_at("num_kv_shared_layers"@) {
                    Some(v) => v,
                    None => 0,
                },
                vocab: text.u64_at("vocab_size"@)->0,
                ple_width: text.u64_at("hidden_size_per_layer_input"@)->0,
                sliding_window: match text.u64_at("sliding_window"@) {
                    Some(v) => (v as int % 0x1_0000_0000) as u32,
                    None => 0,
                },
                layer_types: texts(text.items_at("layer_types"@)),
            },
        )
    }
}

fn required(text: &Json, key: &str) -> (r: Result<u64, String>)
    ensures
        match text@.u64_at(key@) {
            Some(v) => r == Ok::<u64, String>(v),
            None => r matches Err(s) && s@ == lacks(key@),
        },
{
    match text.u64_at(key) {
        Some(v) => Ok(v),
        None => Err(String::from_str("config.json text_config has no ").concat(key)),
    }
}

fn copied(s: &String) -> (r: String)
    ensures
        r@ == s@,
{
    String::from_str(s.as_str())
}

fn texts_at(text: &Json, key: &str) -> (r: Vec<String>)
    ensures
        views(r@) == texts(text@.items_at(key@)),
{
    broadcast use views_of_push;
    broadcast use views_of_empty;

    let mut r: Vec<String> = Vec::new();
    match text.get(key) {
        Some(value) => match value.as_list() {
            Some(items) => {
                let ghost all = views(items@);
                let mut i: usize = 0;
                assert(all.take(0) =~= Seq::empty());
                while i < items.len()
                    invariant
                        i <= items.len(),
                        all == views(items@),
                        views(r@) == texts(all.take(i as int)),
                    decreases items.len() - i,
                {
                    assert(all.take(i + 1).drop_last() =~= all.take(i as int));
                    assert(all.take(i + 1).last() == items@[i as int]@);
                    match items[i].as_text() {
                        Some(s) => {
                            r.push(copied(s));
                        },
                        None => {},
                    }
                    i += 1;
                }
                assert(all.take(i as int) =~= all);
            },
            None => {},
        },
        None => {},
    }
    r
}

impl Shape {
    /// The shapes that a text configuration declares.
    pub fn from_config(text: &Json) -> (r: Result<Shape, String>)
        ensures
            outcome(r, shape_of(text@)),
    {
        let layer_types: Vec<String> = texts_at(text, "layer_types");
        let hidden: u64 = match required(text, "hidden_size") {
            Ok(v) => v,
            Err(e) => return Err(e),
        };
        let layers: u64 = match required(text, "num_hidden_layers") {
            Ok(v) => v,
            Err(e) => return Err(e),
        };
        let heads: u64 = match required(text, "num_attention_heads") {
            Ok(v) => v,
            Err(e) => return Err(e),
        };
        let kv_heads: u64 = match required(text, "num_key_value_heads") {
            Ok(v) => v,
            Err(e) => return Err(e),
        };
        let head_dim: u64 = match required(text, "head_dim") {
            Ok(v) => v,
            Err(e) => return Err(e),
        };
        let global_head_dim: u64 = match text.u64_at("global_head_dim") {
            Some(v) => v,
            None => head_dim,
        };
        let num_kv_shared_layers: u64 = match text.u64_at("num_kv_shared_layers") {
            Some(v) => v,
            None => 0,
        };
        let vocab: u64 = match required(text, "vocab_size") {
            Ok(v) => v,
            Err(e) => return Err(e),
        };
        let ple_width: u64 = match required(text, "hidden_size_per_layer_input") {
            Ok(v) => v,
            Err(e) => return Err(e),
        };
        let sliding_window: u32 = match text.u64_at("sliding_window") {
            Some(v) => (v % 0x1_0000_0000) as u32,
            None => 0,
        };
        Ok(
            Shape {
                hidden,
                layers,
                heads,
                kv_heads,
                head_dim,
                global_head_dim,
                num_kv_shared_layers,
                vocab,
                ple_width,
                sliding_window,
                layer_types,
            },
        )
    }
}

impl ShapeView {
    /// Whether a layer attends over a sliding window.
    pub open spec fn is_sliding(self, idx: int) -> bool {
        0 <= idx < self.layer_types.len() && self.layer_types[idx] == sliding_attention()
    }

    /// Head dim of a layer.
    pub open spec fn head_dim_at(self, idx: int) -> u64 {
        if self.is_sliding(idx) {
            self.head_dim
        } else {
            self.global_head_dim
        }
    }

    /// The first layer that borrows its keys and values.
    pub open spec fn first_shared(self) -> int {
        if self.num_kv_shared_layers <= self.layers {
            self.layers - self.num_kv_shared_layers
        } else {
            0
        }
    }

    /// Whether `donor` is the last layer before the sharing boundary with the
    /// attention type of layer `idx`.
    pub open spec fn is_donor(self, idx: int, donor: int) -> bool {
        &&& 0 <= donor < self.first_shared()
        &&& self.layer_types[donor] == self.layer_types[idx]
        &&& forall|j: int|
            donor < j < self.first_shared() ==> #[trigger] self.layer_types[j]
                != self.layer_types[idx]
    }

    /// Whether a layer borrows its keys and values.
    pub open spec fn borrows(self, idx: int) -> bool {
        &&& self.num_kv_shared_layers > 0
        &&& self.first_shared() <= idx < self.layer_types.len()
        &&& exists|donor: int| #[trigger] self.is_donor(idx, donor)
    }

    /// The layer whose keys and values layer `idx` borrows, or `-1`.
    pub open spec fn kv_donor_layer(self, idx: int) -> i32 {
        if self.borrows(idx) {
            (choose|donor: int| #[trigger] self.is_donor(idx, donor)) as i32
        } else {
            (-1) as i32
        }
    }
}

proof fn lemma_one_donor(shape: ShapeView, idx: int, a: int, b: int)
    requires
        shape.is_donor(idx, a),
        shape.is_donor(idx, b),
    ensures
        a == b,
{
    if a < b {
        assert(shape.layer_types[b] != shape.layer_types[idx]);
    } else if b < a {
        assert(shape.layer_types[a] != shape.layer_types[idx]);
    }
}

/// A borrowing layer's donor lies before the sharing boundary, computes its own
/// keys and values, and has the borrower's attention type.
pub proof fn a_donor_owns_its_keys(shape: ShapeView, idx: int)
    requires
        shape.borrows(idx),
        shape.first_shared() <= i32::MAX,
    ensures
        0 <= shape.kv_donor_layer(idx) < shape.first_shared() <= idx,
        shape.layer_types[shape.kv_donor_layer(idx) as int] == shape.layer_types[idx],
        shape.kv_donor_layer(shape.kv_donor_layer(idx) as int) == -1,
{
    let d = choose|donor: int| #[trigger] shape.is_donor(idx, donor);
    assert(shape.is_donor(idx, d));
}

/// Layers of one attention type that borrow at all borrow from one layer.
pub proof fn one_donor_per_attention_type(shape: ShapeView, a: int, b: int)
    requires
        shape.borrows(a),
        shape.borrows(b),
        shape.layer_types[a] == shape.layer_types[b],
    ensures
        shape.kv_donor_layer(a) == shape.kv_donor_layer(b),
{
    let da = choose|donor: int| #[trigger] shape.is_donor(a, donor);
    let db = choose|donor: int| #[trigger] shape.is_donor(b, donor);
    assert(shape.is_donor(b, da));
    lemma_one_donor(shape, b, da, db);
}

impl Shape {
    /// Whether a layer attends over a sliding window.
    pub fn is_sliding(&self, idx: usize) -> (r: bool)
        ensures
            r == self@.is_sliding(idx as int),
    {
        if idx < self.layer_types.len() {
            let wanted: String = String::from_str("sliding_attention");
            assert(self@.layer_types[idx as int] == self.layer_types@[idx as int]@);
            self.layer_types[idx] == wanted
        } else {
            false
        }
    }

    /// Head dim of a layer.
    pub fn head_dim_at(&self, idx: usize) -> (r: u64)
        ensures
            r == self@.head_dim_at(idx as int),
    {
        if self.is_sliding(idx) {
            self.head_dim
        } else {
            self.global_head_dim
        }
    }

    /// The first layer that borrows its keys and values.
    pub fn first_shared(&self) -> (r: u64)
        ensures
            r == self@.first_shared(),
    {
        if self.num_kv_shared_layers <= self.layers {
            self.layers - self.num_kv_shared_layers
        } else {
            0
        }
    }

    /// The layer whose keys and values layer `idx` borrows, or `-1` if it computes
    /// its own: the last layer before the sharing boundary with the same attention
    /// type.
    pub fn kv_donor_layer(&self, idx: usize) -> (r: i32)
        ensures
            r == self@.kv_donor_layer(idx as int),
    {
        let first_shared: u64 = self.first_shared();
        if self.num_kv_shared_layers == 0 || (idx as u64) < first_shared || idx
            >= self.layer_types.len() {
            return -1;
        }
        let ghost types = self@.layer_types;
        assert(types[idx as int] == self.layer_types@[idx as int]@);
        let mut donor: usize = first_shared as usize;
        while donor > 0
            invariant
                donor <= first_shared <= idx < self.layer_types.len(),
                first_shared == self@.first_shared(),
                self.num_kv_shared_layers > 0,
                types == self@.layer_types,
                types[idx as int] == self.layer_types@[idx as int]@,
                forall|j: int| donor <= j < first_shared ==> #[trigger] types[j] != types[idx as int],
            decreases donor,
        {
            donor -= 1;
            assert(types[donor as int] == self.layer_types@[donor as int]@);
            if self.layer_types[donor] == self.layer_types[idx] {
                proof {
                    assert(self@.is_donor(idx as int, donor as int));
                    let d = choose|d: int| #[trigger] self@.is_donor(idx as int, d);
                    lemma_one_donor(self@, idx as int, donor as int, d);
                }
                return donor as i32;
            }
        }
        -1
    }

    /// RoPE parameters of a layer: the base in accumulator bits, the rotating lanes
    /// of a head, and the width that the frequency ladder is built over.
    pub fn rope_at(&self, scalars: &Scalars, idx: usize) -> (r: (i64, u32, u32))
        ensures
            r == rope_of(self@, *scalars, idx as int),
    {
        let head_dim: u64 = self.head_dim_at(idx);
        if self.is_sliding(idx) {
            (
                scalars.rope_base_sliding << 32u32,
                (head_dim % 0x1_0000_0000) as u32,
                (head_dim % 0x1_0000_0000) as u32,
            )
        } else {
            (
                scalars.rope_base_full << 32u32,
                (scalars.full_rotary_dim % 0x1_0000_0000) as u32,
                (head_dim % 0x1_0000_0000) as u32,
            )
        }
    }
}

/// The low 32 bits of a number.
pub open spec fn low32(n: u64) -> u32 {
    (n as int % 0x1_0000_0000) as u32
}

/// RoPE parameters of a layer.
pub open spec fn rope_of(shape: ShapeView, scalars: Scalars, idx: int) -> (i64, u32, u32) {
    if shape.is_sliding(idx) {
        (
            scalars.rope_base_sliding << 32u32,
            low32(shape.head_dim),
            low32(shape.head_dim),
        )
    } else {
        (
            scalars.rope_base_full << 32u32,
            low32(scalars.full_rotary_dim),
            low32(shape.global_head_dim),
        )
    }
}

/// A base that fits 31 bits is encoded exactly: its accumulator bits are the base
/// times two to the 32nd.
pub proof fn a_whole_base_is_encoded_exactly(base: i64)
    requires
        0 <= base < 0x8000_0000,
    ensures
        base << 32u32 == base * 0x1_0000_0000,
{
    assert(base << 32u32 == base * 0x1_0000_0000) by (bit_vector)
        requires
            0 <= base < 0x8000_0000,
    ;
}

/// The text configuration of a configuration, or the message that there is none.
pub open spec fn text_config_of(config: JsonView) -> Result<JsonView, Seq<char>> {
    match config.get("text_config"@) {
        Some(text) => Ok(text),
        None => Err("config.json has no text_config"@),
    }
}

/// The text configuration of a configuration.
pub fn text_config(config: &Json) -> (r: Result<&Json, String>)
    ensures
        outcome(r, text_config_of(config@)),
{
    match config.get("text_config") {
        Some(text) => Ok(text),
        None => Err(String::from_str("config.json has no text_config")),
    }
}

/// The shapes that a parsed `config.json` declares.
pub open spec fn config_shape(config: JsonView) -> Result<ShapeView, Seq<char>> {
    match text_config_of(config) {
        Ok(text) => shape_of(text),
        Err(e) => Err(e),
    }
}

/// The shapes that a parsed `config.json` declares.
pub fn shape_of_config(config: &Json) -> (r: Result<Shape, String>)
    ensures
        outcome(r, config_shape(config@)),
{
    match text_config(config) {
        Ok(text) => Shape::from_config(text),
        Err(e) => Err(e),
    }
}

/// The declared end-of-sequence ids: at the top of the configuration, else in its
/// text configuration.
pub open spec fn declared_eos(config: JsonView) -> Option<JsonView> {
    match config.get("eos_token_id"@) {
        Some(value) => Some(value),
        None => match config.get("text_config"@) {
            Some(text) => text.get("eos_token_id"@),
            None => None,
        },
    }
}

/// Whether a declaration of one id or of a list of ids holds an id.
pub open spec fn declares(declared: Option<JsonView>, id: u32) -> bool {
    match declared {
        Some(JsonView::Number(n)) => n matches Some(v) && low32(v) == id,
        Some(JsonView::List(items)) => exists|i: int|
            0 <= i < items.len() && #[trigger] id_of(items[i]) == Some(id),
        _ => false,
    }
}

/// The id that a value stands for.
pub open spec fn id_of(value: JsonView) -> Option<u32> {
    match value.as_u64() {
        Some(v) => Some(low32(v)),
        None => None,
    }
}

/// Numbers in ascending order, without repetition.
pub open spec fn ascending_ids(ids: Seq<u32>) -> bool {
    forall|i: int, j: int| 0 <= i < j < ids.len() ==> ids[i] < ids[j]
}

/// Adds a number to an ascending list, once.
pub(crate) fn add_id(ids: &mut Vec<u32>, id: u32)
    requires
        ascending_ids(old(ids)@),
    ensures
        ascending_ids(final(ids)@),
        forall|x: u32| #[trigger]
            final(ids)@.contains(x) <==> old(ids)@.contains(x) || x == id,
{
    let ghost before = ids@;
    let mut k: usize = 0;
    while k < ids.len() && ids[k] < id
        invariant
            k <= ids@.len(),
            ids@ == before,
            ascending_ids(before),
            forall|j: int| 0 <= j < k ==> before[j] < id,
        decreases ids@.len() - k,
    {
        k += 1;
    }
    if k < ids.len() && ids[k] == id {
        assert(before.contains(id));
        return ;
    }
    ids.insert(k, id);
    proof {
        assert forall|x: u32| #[trigger] ids@.contains(x) <==> before.contains(x) || x == id by {
            if before.contains(x) {
                let j = before.index_of(x);
                if j < k {
                    assert(ids@[j] == x);
                } else {
                    assert(ids@[j + 1] == x);
                }
            }
            if x == id {
                assert(ids@[k as int] == x);
            }
            if ids@.contains(x) && x != id {
                let j = ids@.index_of(x);
                if j < k {
                    assert(before[j] == x);
                } else {
                    assert(before[j - 1] == x);
                }
            }
        }
        assert forall|i: int, j: int| 0 <= i < j < ids@.len() implies ids@[i] < ids@[j] by {
            if k < before.len() {
                assert(id < before[k as int]);
            }
            assert(forall|m: int| k <= m < before.len() ==> id < #[trigger] before[m]);
        }
    }
}

/// The set of end-of-sequence ids that a parsed `config.json` declares, in
/// ascending order.
pub fn eos_ids(config: &Json) -> (r: Vec<u32>)
    ensures
        ascending_ids(r@),
        forall|id: u32| #[trigger] r@.contains(id) <==> declares(declared_eos(config@), id),
{
    let declared: Option<&Json> = match config.get("eos_token_id") {
        Some(value) => Some(value),
        None => match config.get("text_config") {
            Some(text) => text.get("eos_token_id"),
            None => None,
        },
    };
    let mut ids: Vec<u32> = Vec::new();
    match declared {
        Some(value) => {
            match value.as_list() {
                Some(items) => {
                    let ghost all = views(items@);
                    let mut i: usize = 0;
                    while i < items.len()
                        invariant
                            i <= items.len(),
                            all == views(items@),
                            ascending_ids(ids@),
                            forall|id: u32| #[trigger]
                                ids@.contains(id) <==> exists|j: int|
                                    0 <= j < i && #[trigger] id_of(all[j]) == Some(id),
                        decreases items.len() - i,
                    {
                        assert(all[i as int] == items@[i as int]@);
                        match items[i].as_u64() {
                            Some(v) => {
                                add_id(&mut ids, (v % 0x1_0000_0000) as u32);
                                assert(id_of(all[i as int]) == Some(low32(v)));
                            },
                            None => {
                                assert(id_of(all[i as int]) is None);
                            },
                        }
                        i += 1;
                    }
                },
                None => match value.as_u64() {
                    Some(v) => {
                        add_id(&mut ids, (v % 0x1_0000_0000) as u32);
                    },
                    None => {},
                },
            }
        },
        None => {},
    }
    ids
}

/// Whether the bytes of a `config.json` declare an end-of-sequence id: a document
/// that cannot be read declares none.
pub open spec fn file_declares(bytes: Seq<u8>, id: u32) -> bool {
    match document(bytes) {
        Ok(config) => declares(declared_eos(config), id),
        Err(_) => false,
    }
}

/// The set of end-of-sequence ids that the bytes of a `config.json` declare, in
/// ascending order; none where the document cannot be read.
pub fn load_eos_ids(bytes: &[u8]) -> (r: Vec<u32>)
    ensures
        ascending_ids(r@),
        forall|id: u32| #[trigger] r@.contains(id) <==> file_declares(bytes@, id),
{
    match read_json(bytes) {
        Ok(config) => eos_ids(&config),
        Err(_) => Vec::new(),
    }
}

/// The shapes that the bytes of a `config.json` declare.
pub open spec fn file_shape(bytes: Seq<u8>) -> Result<ShapeView, Seq<char>> {
    match document(bytes) {
        Ok(config) => config_shape(config),
        Err(e) => Err(e),
    }
}

/// The shapes that the bytes of a `config.json` declare.
pub fn load_shape(bytes: &[u8]) -> (r: Result<Shape, String>)
    ensures
        outcome(r, file_shape(bytes@)),
{
    match read_json(bytes) {
        Ok(config) => shape_of_config(&config),
        Err(e) => Err(e),
    }
}

/// Whether a layer is the first of its attention type.
pub open spec fn leads_its_type(types: Seq<Seq<char>>, idx: int) -> bool {
    forall|j: int| 0 <= j < idx ==> #[trigger] types[j] != types[idx]
}

/// The layers among the first `n` that are the first of their attention type.
pub open spec fn type_leaders(types: Seq<Seq<char>>, n: nat) -> Seq<usize>
    decreases n,
{
    if n == 0 {
        Seq::empty()
    } else if leads_its_type(types, n - 1) {
        type_leaders(types, (n - 1) as nat).push((n - 1) as usize)
    } else {
        type_leaders(types, (n - 1) as nat)
    }
}

/// The layers among the first `n` that borrow from a donor.
pub open spec fn borrowers_of(shape: ShapeView, donor: i32, n: nat) -> Seq<usize>
    decreases n,
{
    if n == 0 {
        Seq::empty()
    } else if shape.kv_donor_layer(n - 1) == donor {
        borrowers_of(shape, donor, (n - 1) as nat).push((n - 1) as usize)
    } else {
        borrowers_of(shape, donor, (n - 1) as nat)
    }
}

impl Shape {
    /// One layer of each attention type, the first.
    pub fn families(&self) -> (r: Vec<usize>)
        ensures
            r@ == type_leaders(self@.layer_types, self@.layer_types.len()),
    {
        let ghost types = self@.layer_types;
        let mut leaders: Vec<usize> = Vec::new();
        let mut idx: usize = 0;
        while idx < self.layer_types.len()
            invariant
                idx <= self.layer_types@.len(),
                types == self@.layer_types,
                leaders@ == type_leaders(types, idx as nat),
            decreases self.layer_types@.len() - idx,
        {
            assert(types[idx as int] == self.layer_types@[idx as int]@);
            let mut leads: bool = true;
            let mut j: usize = 0;
            while j < idx
                invariant
                    j <= idx < self.layer_types@.len(),
                    types == self@.layer_types,
                    types[idx as int] == self.layer_types@[idx as int]@,
                    leads <==> forall|k: int| 0 <= k < j ==> #[trigger] types[k] != types[idx as int],
                decreases idx - j,
            {
                assert(types[j as int] == self.layer_types@[j as int]@);
                if self.layer_types[j] == self.layer_types[idx] {
                    leads = false;
                }
                j += 1;
            }
            if leads {
                leaders.push(idx);
            }
            idx += 1;
        }
        leaders
    }

    /// The layers that borrow from a donor.
    pub fn borrowers(&self, donor: i32) -> (r: Vec<usize>)
        requires
            self.layers <= usize::MAX,
        ensures
            r@ == borrowers_of(self@, donor, self.layers as nat),
    {
        let mut found: Vec<usize> = Vec::new();
        let mut idx: usize = 0;
        while idx < self.layers as usize
            invariant
                idx <= self.layers <= usize::MAX,
                found@ == borrowers_of(self@, donor, idx as nat),
            decreases self.layers - idx,
        {
            if self.kv_donor_layer(idx) == donor {
                found.push(idx);
            }
            idx += 1;
        }
        found
    }
}

} // verus!
