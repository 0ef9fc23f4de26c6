//! Stage `prompt_prepare`: a prompt, pre-split into pieces, to token ids.
//!
//! Byte-pair merging runs in left-to-right rounds until nothing merges, then
//! every piece is looked up in the vocabulary. Both tables are bucketed by a
//! hash of their key, so a lookup reads one bucket.

use crate::lists::{views, views_of_empty, views_of_push};
use crate::text::{dec, decimal, outcome};
use vstd::prelude::*;
use vstd::utf8::encode_utf8;

pub use crate::input_embedding::PromptTokenization;

verus! {

/// Token id of pieces that are not in the vocabulary.
pub const UNK_TOKEN_ID: u32 = 0;

/// One vocabulary entry: a token and its id.
pub struct TokenEntry {
    pub token: String,
    pub id: u32,
}

/// A vocabulary entry as a mathematical value.
#[verifier::ext_equal]
pub struct EntryView {
    pub token: Seq<char>,
    pub id: u32,
}

impl View for TokenEntry {
    type V = EntryView;

    open spec fn view(&self) -> EntryView {
        EntryView { token: self.token@, id: self.id }
    }
}

impl Clone for TokenEntry {
    fn clone(&self) -> (r: TokenEntry)
        ensures
            r@ == self@,
    {
        TokenEntry { token: self.token.clone(), id: self.id }
    }
}

/// One merge rule: `left + right` becomes `merged`; the lowest rank wins when
/// several rules match one pair.
pub struct BpeMerge {
    pub rank: u32,
    pub left: String,
    pub right: String,
    pub merged: String,
}

/// A merge rule as a mathematical value.
#[verifier::ext_equal]
pub struct RuleView {
    pub rank: u32,
    pub left: Seq<char>,
    pub right: Seq<char>,
    pub merged: Seq<char>,
}

impl View for BpeMerge {
    type V = RuleView;

    open spec fn view(&self) -> RuleView {
        RuleView {
            rank: self.rank,
            left: self.left@,
            right: self.right@,
            merged: self.merged@,
        }
    }
}

impl Clone for BpeMerge {
    fn clone(&self) -> (r: BpeMerge)
        ensures
            r@ == self@,
    {
        BpeMerge {
            rank: self.rank,
            left: self.left.clone(),
            right: self.right.clone(),
            merged: self.merged.clone(),
        }
    }
}

/// The vocabulary entries whose token hashes to one slot.
pub struct VocabBucket {
    pub entries: Vec<TokenEntry>,
}

impl View for VocabBucket {
    type V = Seq<EntryView>;

    open spec fn view(&self) -> Seq<EntryView> {
        views(self.entries@)
    }
}

/// The merge rules whose pair hashes to one slot.
pub struct MergeBucket {
    pub rules: Vec<BpeMerge>,
}

impl View for MergeBucket {
    type V = Seq<RuleView>;

    open spec fn view(&self) -> Seq<RuleView> {
        views(self.rules@)
    }
}

/// The tokenizer: vocabulary and merge table, bucketed by a hash of their key.
pub struct PromptTokenizer {
    pub vocab_bucket_count: u32,
    pub merge_bucket_count: u32,
    pub vocab_buckets: Vec<VocabBucket>,
    pub merge_buckets: Vec<MergeBucket>,
}

/// A tokenizer as a mathematical value.
#[verifier::ext_equal]
pub struct TokenizerView {
    pub vocab_buckets: Seq<Seq<EntryView>>,
    pub merge_buckets: Seq<Seq<RuleView>>,
}

impl View for PromptTokenizer {
    type V = TokenizerView;

    open spec fn view(&self) -> TokenizerView {
        TokenizerView {
            vocab_buckets: views(self.vocab_buckets@),
            merge_buckets: views(self.merge_buckets@),
        }
    }
}

impl PromptTokenizer {
    /// Each bucket count is the length of its list, and neither list is empty:
    /// every hash has a bucket.
    pub open spec fn well_formed(self) -> bool {
        &&& self.vocab_bucket_count == self.vocab_buckets@.len()
        &&& self.merge_bucket_count == self.merge_buckets@.len()
        &&& self.vocab_bucket_count > 0
        &&& self.merge_bucket_count > 0
    }
}

/// FNV-1a offset basis.
pub const FNV_OFFSET_BASIS: u64 = 0xcbf2_9ce4_8422_2325;

/// FNV-1a prime.
pub const FNV_PRIME: u64 = 0x0000_0100_0000_01b3;

/// One FNV-1a step.
pub open spec fn fnv_step(hash: u64, byte: u8) -> u64 {
    (((hash ^ (byte as u64)) * FNV_PRIME) % 0x1_0000_0000_0000_0000) as u64
}

/// FNV-1a continued over a byte string.
pub open spec fn fnv_from(hash: u64, bytes: Seq<u8>) -> u64
    decreases bytes.len(),
{
    if bytes.len() == 0 {
        hash
    } else {
        fnv_step(fnv_from(hash, bytes.drop_last()), bytes.last())
    }
}

/// Folds `bytes` into a running FNV-1a hash.
pub fn fnv1a64_continue(hash: u64, bytes: &[u8]) -> (r: u64)
    ensures
        r == fnv_from(hash, bytes@),
{
    let ghost start = hash;
    let mut hash: u64 = hash;
    let mut i: usize = 0;
    assert(bytes@.take(0) =~= Seq::empty());
    while i < bytes.len()
        invariant
            i <= bytes.len(),
            hash == fnv_from(start, bytes@.take(i as int)),
        decreases bytes.len() - i,
    {
        hash = hash ^ (bytes[i] as u64);
        hash = hash.wrapping_mul(FNV_PRIME);
        i += 1;
        assert(bytes@.take(i as int).drop_last() =~= bytes@.take(i - 1));
        assert(bytes@.take(i as int).last() == bytes@[i - 1]);
    }
    assert(bytes@.take(i as int) =~= bytes@);
    hash
}

/// FNV-1a over a byte string.
pub fn fnv1a64(bytes: &[u8]) -> (r: u64)
    ensures
        r == fnv_from(FNV_OFFSET_BASIS, bytes@),
{
    fnv1a64_continue(FNV_OFFSET_BASIS, bytes)
}

/// Hashing a byte string in two pieces is hashing it whole.
pub proof fn hashing_in_pieces_is_hashing_whole(hash: u64, a: Seq<u8>, b: Seq<u8>)
    ensures
        fnv_from(fnv_from(hash, a), b) == fnv_from(hash, a + b),
    decreases b.len(),
{
    if b.len() == 0 {
        assert(a + b =~= a);
    } else {
        hashing_in_pieces_is_hashing_whole(hash, a, b.drop_last());
        assert((a + b).drop_last() =~= a + b.drop_last());
        assert((a + b).last() == b.last());
    }
}

/// The bucket of a vocabulary token.
pub open spec fn vocab_slot(token: Seq<char>, bucket_count: u32) -> u32 {
    if bucket_count == 0 {
        0
    } else {
        (fnv_from(FNV_OFFSET_BASIS, encode_utf8(token)) % (bucket_count as u64)) as u32
    }
}

/// The bytes that a pair is hashed as: the two tokens around a byte that UTF-8
/// never uses.
pub open spec fn pair_key(left: Seq<char>, right: Seq<char>) -> Seq<u8> {
    encode_utf8(left) + seq![0xffu8] + encode_utf8(right)
}

/// The bucket of a merge pair.
pub open spec fn merge_slot(left: Seq<char>, right: Seq<char>, bucket_count: u32) -> u32 {
    if bucket_count == 0 {
        0
    } else {
        (fnv_from(FNV_OFFSET_BASIS, pair_key(left, right)) % (bucket_count as u64)) as u32
    }
}

/// Bucket a vocabulary token lands in.
pub fn vocab_bucket_of(token: &str, bucket_count: u32) -> (r: u32)
    ensures
        r == vocab_slot(token@, bucket_count),
        bucket_count > 0 ==> r < bucket_count,
{
    if bucket_count == 0 {
        return 0;
    }
    (fnv1a64(token.as_bytes()) % bucket_count as u64) as u32
}

/// Bucket a merge rule's pair lands in.
pub fn merge_bucket_of(left: &str, right: &str, bucket_count: u32) -> (r: u32)
    ensures
        r == merge_slot(left@, right@, bucket_count),
        bucket_count > 0 ==> r < bucket_count,
{
    if bucket_count == 0 {
        return 0;
    }
    let hash: u64 = fnv1a64_continue(FNV_OFFSET_BASIS, left.as_bytes());
    let separator: [u8; 1] = [0xff];
    let hash: u64 = fnv1a64_continue(hash, &separator);
    let hash: u64 = fnv1a64_continue(hash, right.as_bytes());
    proof {
        assert(separator@ =~= seq![0xffu8]);
        hashing_in_pieces_is_hashing_whole(FNV_OFFSET_BASIS, encode_utf8(left@), separator@);
        hashing_in_pieces_is_hashing_whole(
            FNV_OFFSET_BASIS,
            encode_utf8(left@) + separator@,
            encode_utf8(right@),
        );
    }
    (hash % bucket_count as u64) as u32
}

/// A prompt, pre-split into initial pieces. The list ends with a terminator
/// piece that is in no merge rule: it is what flushes the last pending token of
/// a round.
pub struct BpePieces {
    pub pieces: Vec<String>,
}

/// The pieces after a merge round.
pub struct MergedPieces {
    pub pieces: Vec<String>,
}

impl View for MergedPieces {
    type V = Seq<Seq<char>>;

    open spec fn view(&self) -> Seq<Seq<char>> {
        views(self.pieces@)
    }
}

impl Default for MergedPieces {
    fn default() -> (r: MergedPieces)
        ensures
            r@ == Seq::<Seq<char>>::empty(),
    {
        broadcast use views_of_empty;

        MergedPieces { pieces: Vec::new() }
    }
}

/// Loop-carried cursor of a merge round: the token being accumulated.
pub struct MergeCursor {
    pub pending: String,
    pub has_pending: bool,
}

/// One merge decision in flight: the pending token and the incoming piece.
pub struct MergeStep {
    pub pending: String,
    pub has_pending: bool,
    pub piece: String,
}

/// A merge decision as a mathematical value.
#[verifier::ext_equal]
pub struct StepView {
    pub pending: Seq<char>,
    pub has_pending: bool,
    pub piece: Seq<char>,
}

impl View for MergeStep {
    type V = StepView;

    open spec fn view(&self) -> StepView {
        StepView {
            pending: self.pending@,
            has_pending: self.has_pending,
            piece: self.piece@,
        }
    }
}

/// Outcome of scanning the merge table for a pair.
pub struct MergeMatch {
    pub matched: bool,
    pub rank: u32,
    pub merged: String,
}

/// A merge outcome as a mathematical value.
#[verifier::ext_equal]
pub struct MatchView {
    pub matched: bool,
    pub rank: u32,
    pub merged: Seq<char>,
}

impl View for MergeMatch {
    type V = MatchView;

    open spec fn view(&self) -> MatchView {
        MatchView { matched: self.matched, rank: self.rank, merged: self.merged@ }
    }
}

/// One vocabulary lookup.
pub struct VocabQuery {
    pub piece: String,
}

/// Outcome of scanning the vocabulary for a piece.
#[derive(Clone, Copy, PartialEq, Eq, Structural, Debug)]
pub struct VocabMatch {
    pub found: bool,
    pub token_id: u32,
}

/// Loop-carried state of the convergence check.
pub struct MergeScan {
    pub previous: String,
    pub has_previous: bool,
    pub remaining: u32,
}

/// One pair of the convergence check, with the running count.
pub struct ScanStep {
    pub step: MergeStep,
    pub remaining: u32,
}

/// Pairs the cursor with the incoming piece.
pub fn begin_merge_step(cursor: MergeCursor, piece: String) -> (r: MergeStep)
    ensures
        r@ == (StepView {
            pending: cursor.pending@,
            has_pending: cursor.has_pending,
            piece: piece@,
        }),
{
    MergeStep { pending: cursor.pending, has_pending: cursor.has_pending, piece }
}

/// Bucket of the current pair.
pub fn merge_bucket_index(step: &MergeStep, bucket_count: u32) -> (r: u32)
    ensures
        r == merge_slot(step@.pending, step@.piece, bucket_count),
        bucket_count > 0 ==> r < bucket_count,
{
    merge_bucket_of(step.pending.as_str(), step.piece.as_str(), bucket_count)
}

/// The outcome before any rule.
pub open spec fn no_match() -> MatchView {
    MatchView { matched: false, rank: 0, merged: Seq::empty() }
}

/// The outcome after one more rule: the lowest rank that applies, and the first
/// among equals.
pub open spec fn rule_scanned(state: MatchView, rule: RuleView, step: StepView) -> MatchView {
    if step.has_pending && rule.left == step.pending && rule.right == step.piece && (!state.matched
        || rule.rank < state.rank) {
        MatchView { matched: true, rank: rule.rank, merged: rule.merged }
    } else {
        state
    }
}

/// The outcome of scanning a run of rules.
pub open spec fn best_rule(rules: Seq<RuleView>, step: StepView) -> MatchView
    decreases rules.len(),
{
    if rules.len() == 0 {
        no_match()
    } else {
        rule_scanned(best_rule(rules.drop_last(), step), rules.last(), step)
    }
}

/// Scans one merge rule for the current pair, keeping the lowest-ranked match.
pub fn scan_merge_rules(rule: &BpeMerge, state: MergeMatch, step: &MergeStep) -> (r: MergeMatch)
    ensures
        r@ == rule_scanned(state@, rule@, step@),
{
    let mut state: MergeMatch = state;
    if !step.has_pending {
        return state;
    }
    let applies: bool = rule.left == step.pending && rule.right == step.piece;
    if applies && (!state.matched || rule.rank < state.rank) {
        state.matched = true;
        state.rank = rule.rank;
        state.merged = rule.merged.clone();
    }
    state
}

/// The rule that applies to a pair: the best of the one bucket it can be in.
pub open spec fn merge_of(buckets: Seq<Seq<RuleView>>, step: StepView) -> MatchView {
    best_rule(
        buckets[merge_slot(step.pending, step.piece, buckets.len() as u32) as int],
        step,
    )
}

fn find_merge(buckets: &Vec<MergeBucket>, bucket_count: u32, step: &MergeStep) -> (r: MergeMatch)
    requires
        bucket_count == buckets@.len(),
        bucket_count > 0,
    ensures
        r@ == merge_of(views(buckets@), step@),
{
    let bucket_idx: u32 = merge_bucket_index(step, bucket_count);
    let rules: &Vec<BpeMerge> = &buckets[bucket_idx as usize].rules;
    let ghost all = views(rules@);
    let mut hit: MergeMatch = MergeMatch { matched: false, rank: 0, merged: String::new() };
    let mut i: usize = 0;
    assert(all.take(0) =~= Seq::empty());
    while i < rules.len()
        invariant
            i <= rules.len(),
            all == views(rules@),
            hit@ == best_rule(all.take(i as int), step@),
        decreases rules.len() - i,
    {
        hit = scan_merge_rules(&rules[i], hit, step);
        i += 1;
        assert(all.take(i as int).drop_last() =~= all.take(i - 1));
        assert(all.take(i as int).last() == rules@[i - 1]@);
    }
    assert(all.take(i as int) =~= all);
    assert(views(buckets@)[bucket_idx as int] == all);
    hit
}

/// The pieces emitted at one step: the pending token when the piece does not
/// extend it, and the terminator itself.
pub open spec fn emitted(
    output: Seq<Seq<char>>,
    step: StepView,
    hit: MatchView,
    terminator: Seq<char>,
) -> Seq<Seq<char>> {
    let flushed = if step.has_pending && !hit.matched {
        output.push(step.pending)
    } else {
        output
    };
    if step.piece == terminator {
        flushed.push(step.piece)
    } else {
        flushed
    }
}

/// Appends the finished token when the merge stops, and the terminator.
pub fn emit_merged_piece(
    output: MergedPieces,
    step: &MergeStep,
    hit: &MergeMatch,
    terminator: &String,
) -> (r: MergedPieces)
    ensures
        r@ == emitted(output@, step@, hit@, terminator@),
{
    broadcast use views_of_push;

    let mut output: MergedPieces = output;
    if step.has_pending && !hit.matched {
        output.pieces.push(step.pending.clone());
    }
    if step.piece == *terminator {
        output.pieces.push(step.piece.clone());
    }
    output
}

/// Appends a piece unless it is the terminator.
pub fn append_unless_terminator(output: MergedPieces, piece: &String, terminator: &String) -> (r:
    MergedPieces)
    ensures
        r@ == (if piece@ == terminator@ {
            output@
        } else {
            output@.push(piece@)
        }),
{
    broadcast use views_of_push;

    let mut output: MergedPieces = output;
    if !(*piece == *terminator) {
        output.pieces.push(piece.clone());
    }
    output
}

/// The token carried to the next piece.
pub open spec fn carried_token(step: StepView, hit: MatchView) -> Seq<char> {
    if hit.matched {
        hit.merged
    } else {
        step.piece
    }
}

/// Extends the pending token on a hit, otherwise starts anew at the piece.
pub fn advance_merge_cursor(step: MergeStep, hit: MergeMatch) -> (r: MergeCursor)
    ensures
        r.pending@ == carried_token(step@, hit@),
        r.has_pending,
{
    if hit.matched {
        MergeCursor { pending: hit.merged, has_pending: true }
    } else {
        MergeCursor { pending: step.piece, has_pending: true }
    }
}

/// A merge round in flight: what is pending, and what has been emitted.
#[verifier::ext_equal]
pub struct RoundView {
    pub pending: Seq<char>,
    pub has_pending: bool,
    pub output: Seq<Seq<char>>,
}

/// A merge round after one more piece.
pub open spec fn round_step(
    buckets: Seq<Seq<RuleView>>,
    terminator: Seq<char>,
    state: RoundView,
    piece: Seq<char>,
) -> RoundView {
    let step = StepView { pending: state.pending, has_pending: state.has_pending, piece };
    let hit = merge_of(buckets, step);
    RoundView {
        pending: carried_token(step, hit),
        has_pending: true,
        output: emitted(state.output, step, hit, terminator),
    }
}

/// A merge round over a run of pieces.
pub open spec fn round_of(
    buckets: Seq<Seq<RuleView>>,
    terminator: Seq<char>,
    pieces: Seq<Seq<char>>,
) -> RoundView
    decreases pieces.len(),
{
    if pieces.len() == 0 {
        RoundView { pending: Seq::empty(), has_pending: false, output: Seq::empty() }
    } else {
        round_step(
            buckets,
            terminator,
            round_of(buckets, terminator, pieces.drop_last()),
            pieces.last(),
        )
    }
}

/// One piece of a merge round: pair it with the pending token, look the pair
/// up, emit the finished token if the merge stopped, and carry the result on.
pub fn merge_prompt_piece(
    piece: &String,
    state: MergeCursor,
    output: MergedPieces,
    merge_buckets: &Vec<MergeBucket>,
    merge_bucket_count: u32,
    terminator: &String,
) -> (r: (MergeCursor, MergedPieces))
    requires
        merge_bucket_count == merge_buckets@.len(),
        merge_bucket_count > 0,
    ensures
        (RoundView { pending: r.0.pending@, has_pending: r.0.has_pending, output: r.1@ })
            == round_step(
            views(merge_buckets@),
            terminator@,
            RoundView { pending: state.pending@, has_pending: state.has_pending, output: output@ },
            piece@,
        ),
{
    let step: MergeStep = begin_merge_step(state, piece.clone());
    let hit: MergeMatch = find_merge(merge_buckets, merge_bucket_count, &step);
    let output: MergedPieces = emit_merged_piece(output, &step, &hit, terminator);
    let state: MergeCursor = advance_merge_cursor(step, hit);
    (state, output)
}

/// One left-to-right merge round over the pieces.
pub fn merge_round(
    pieces: &Vec<String>,
    merge_buckets: &Vec<MergeBucket>,
    merge_bucket_count: u32,
    terminator: &String,
) -> (r: MergedPieces)
    requires
        merge_bucket_count == merge_buckets@.len(),
        merge_bucket_count > 0,
    ensures
        r@ == round_of(views(merge_buckets@), terminator@, views(pieces@)).output,
{
    let ghost all = views(pieces@);
    let mut state: MergeCursor = MergeCursor { pending: String::new(), has_pending: false };
    let mut output: MergedPieces = MergedPieces::default();
    let mut i: usize = 0;
    assert(all.take(0) =~= Seq::empty());
    while i < pieces.len()
        invariant
            i <= pieces.len(),
            all == views(pieces@),
            merge_bucket_count == merge_buckets@.len(),
            merge_bucket_count > 0,
            (RoundView {
                pending: state.pending@,
                has_pending: state.has_pending,
                output: output@,
            }) == round_of(views(merge_buckets@), terminator@, all.take(i as int)),
        decreases pieces.len() - i,
    {
        let (next, grown) = merge_prompt_piece(
            &pieces[i],
            state,
            output,
            merge_buckets,
            merge_bucket_count,
            terminator,
        );
        state = next;
        output = grown;
        i += 1;
        assert(all.take(i as int).drop_last() =~= all.take(i - 1));
        assert(all.take(i as int).last() == pieces@[i - 1]@);
    }
    assert(all.take(i as int) =~= all);
    output
}

/// The pieces that are not the terminator.
pub open spec fn stripped(pieces: Seq<Seq<char>>, terminator: Seq<char>) -> Seq<Seq<char>> {
    pieces.filter(|p: Seq<char>| p != terminator)
}

/// Drops the terminator.
pub fn strip_terminator(pieces: &Vec<String>, terminator: &String) -> (r: MergedPieces)
    ensures
        r@ == stripped(views(pieces@), terminator@),
{
    let ghost all = views(pieces@);
    let ghost keep = |p: Seq<char>| p != terminator@;
    let mut output: MergedPieces = MergedPieces::default();
    let mut i: usize = 0;
    proof {
        reveal(Seq::filter);
        assert(all.take(0) =~= Seq::empty());
    }
    while i < pieces.len()
        invariant
            i <= pieces.len(),
            all == views(pieces@),
            keep == (|p: Seq<char>| p != terminator@),
            output@ == all.take(i as int).filter(keep),
        decreases pieces.len() - i,
    {
        output = append_unless_terminator(output, &pieces[i], terminator);
        i += 1;
        proof {
            reveal(Seq::filter);
            assert(all.take(i as int).drop_last() =~= all.take(i - 1));
            assert(all.take(i as int).last() == pieces@[i - 1]@);
        }
    }
    assert(all.take(i as int) =~= all);
    output
}

/// How many adjacent pairs of a run a further round would merge, capped at the
/// largest `u32`.
pub open spec fn mergeable_pairs(buckets: Seq<Seq<RuleView>>, pieces: Seq<Seq<char>>) -> u32
    decreases pieces.len(),
{
    if pieces.len() < 2 {
        0
    } else {
        let n = pieces.len() as int;
        let rest = mergeable_pairs(buckets, pieces.drop_last());
        let step = StepView {
            pending: pieces[n - 2],
            has_pending: true,
            piece: pieces[n - 1],
        };
        if merge_of(buckets, step).matched && rest < u32::MAX {
            (rest + 1) as u32
        } else {
            rest
        }
    }
}

/// Pairs the previous piece with the incoming one, carrying the running count.
pub fn begin_scan_step(scan: MergeScan, piece: String) -> (r: ScanStep)
    ensures
        r.step@ == (StepView {
            pending: scan.previous@,
            has_pending: scan.has_previous,
            piece: piece@,
        }),
        r.remaining == scan.remaining,
{
    ScanStep {
        step: MergeStep { pending: scan.previous, has_pending: scan.has_previous, piece },
        remaining: scan.remaining,
    }
}

/// Bucket of the pair under inspection.
pub fn scan_bucket_index(step: &MergeStep, bucket_count: u32) -> (r: u32)
    ensures
        r == merge_slot(step@.pending, step@.piece, bucket_count),
        bucket_count > 0 ==> r < bucket_count,
{
    merge_bucket_of(step.pending.as_str(), step.piece.as_str(), bucket_count)
}

/// Counts a pair that a further round would merge, and slides on.
pub fn advance_scan(scan_step: ScanStep, hit: &MergeMatch) -> (r: MergeScan)
    ensures
        r.previous@ == scan_step.step@.piece,
        r.has_previous,
        r.remaining == (if hit.matched && scan_step.remaining < u32::MAX {
            (scan_step.remaining + 1) as u32
        } else {
            scan_step.remaining
        }),
{
    MergeScan {
        previous: scan_step.step.piece,
        has_previous: true,
        remaining: if hit.matched && scan_step.remaining < u32::MAX {
            scan_step.remaining + 1
        } else {
            scan_step.remaining
        },
    }
}

/// Without a pending piece no rule applies.
pub proof fn lemma_no_pending_no_match(rules: Seq<RuleView>, step: StepView)
    requires
        !step.has_pending,
    ensures
        best_rule(rules, step) == no_match(),
    decreases rules.len(),
{
    if rules.len() > 0 {
        lemma_no_pending_no_match(rules.drop_last(), step);
    }
}

/// Counts the adjacent pairs that a further round would still merge.
pub fn count_remaining_merges(
    pieces: &Vec<String>,
    merge_buckets: &Vec<MergeBucket>,
    merge_bucket_count: u32,
) -> (r: u32)
    requires
        merge_bucket_count == merge_buckets@.len(),
        merge_bucket_count > 0,
    ensures
        r == mergeable_pairs(views(merge_buckets@), views(pieces@)),
{
    let ghost all = views(pieces@);
    let ghost buckets = views(merge_buckets@);
    let mut scan: MergeScan = MergeScan {
        previous: String::new(),
        has_previous: false,
        remaining: 0,
    };
    let mut i: usize = 0;
    while i < pieces.len()
        invariant
            i <= pieces.len(),
            all == views(pieces@),
            buckets == views(merge_buckets@),
            merge_bucket_count == merge_buckets@.len(),
            merge_bucket_count > 0,
            scan.has_previous == (i > 0),
            i > 0 ==> scan.previous@ == all[i - 1],
            scan.remaining == mergeable_pairs(buckets, all.take(i as int)),
        decreases pieces.len() - i,
    {
        let scan_step: ScanStep = begin_scan_step(scan, pieces[i].clone());
        let hit: MergeMatch = find_merge(merge_buckets, merge_bucket_count, &scan_step.step);
        proof {
            let slot = merge_slot(
                scan_step.step@.pending,
                scan_step.step@.piece,
                buckets.len() as u32,
            );
            if i == 0 {
                lemma_no_pending_no_match(buckets[slot as int], scan_step.step@);
            }
            assert(all.take(i + 1).drop_last() =~= all.take(i as int));
        }
        scan = advance_scan(scan_step, &hit);
        i += 1;
    }
    assert(all.take(i as int) =~= all);
    scan.remaining
}

/// Whether merging has converged, and the message if not.
pub open spec fn convergence_check(remaining: u32) -> Result<u32, Seq<char>> {
    if remaining == 0 {
        Ok(remaining)
    } else {
        Err(
            dec(remaining as nat)
                + " adjacent pair(s) would still merge after the last round; the merge unroll in `main` is too short for this prompt"@,
        )
    }
}

/// Rejects a tokenization that is still mergeable.
pub fn assert_merges_converged(remaining: u32) -> (r: Result<u32, String>)
    ensures
        outcome(r, convergence_check(remaining)),
{
    if remaining == 0 {
        Ok(remaining)
    } else {
        Err(
            decimal(remaining as u64).concat(
                " adjacent pair(s) would still merge after the last round; the merge unroll in `main` is too short for this prompt",
            ),
        )
    }
}

/// Turns a merged piece into a vocabulary query.
pub fn begin_vocab_lookup(piece: String) -> (r: VocabQuery)
    ensures
        r.piece == piece,
{
    VocabQuery { piece }
}

/// Bucket of a vocabulary query.
pub fn vocab_bucket_index(query: &VocabQuery, bucket_count: u32) -> (r: u32)
    ensures
        r == vocab_slot(query.piece@, bucket_count),
        bucket_count > 0 ==> r < bucket_count,
{
    vocab_bucket_of(query.piece.as_str(), bucket_count)
}

/// The lookup before any entry: not found, and the id of unknown pieces.
pub open spec fn not_found() -> VocabMatch {
    VocabMatch { found: false, token_id: UNK_TOKEN_ID }
}

/// The lookup after one more entry: the first that matches stays.
pub open spec fn entry_scanned(state: VocabMatch, entry: EntryView, piece: Seq<char>) -> VocabMatch {
    if !state.found && entry.token == piece {
        VocabMatch { found: true, token_id: entry.id }
    } else {
        state
    }
}

/// The lookup of a piece in a run of entries.
pub open spec fn first_entry(entries: Seq<EntryView>, piece: Seq<char>) -> VocabMatch
    decreases entries.len(),
{
    if entries.len() == 0 {
        not_found()
    } else {
        entry_scanned(first_entry(entries.drop_last(), piece), entries.last(), piece)
    }
}

/// Scans one vocabulary entry for the queried piece.
pub fn scan_vocab_chunk(entry: &TokenEntry, state: VocabMatch, query: &VocabQuery) -> (r:
    VocabMatch)
    ensures
        r == entry_scanned(state, entry@, query.piece@),
{
    let mut state: VocabMatch = state;
    if !state.found && entry.token == query.piece {
        state.found = true;
        state.token_id = entry.id;
    }
    state
}

/// A piece's vocabulary match: the first entry of the one bucket it can be in.
pub open spec fn vocab_of(buckets: Seq<Seq<EntryView>>, piece: Seq<char>) -> VocabMatch {
    first_entry(buckets[vocab_slot(piece, buckets.len() as u32) as int], piece)
}

/// Appends one resolved token id.
pub fn append_token_id(output: PromptTokenization, hit: VocabMatch) -> (r: PromptTokenization)
    ensures
        r.token_ids@ == output.token_ids@.push(hit.token_id),
{
    let mut output: PromptTokenization = output;
    output.token_ids.push(hit.token_id);
    output
}

/// Resolves one merged piece against the vocabulary and appends its id.
pub fn resolve_piece_token(
    piece: &String,
    output: PromptTokenization,
    vocab_buckets: &Vec<VocabBucket>,
    vocab_bucket_count: u32,
) -> (r: PromptTokenization)
    requires
        vocab_bucket_count == vocab_buckets@.len(),
        vocab_bucket_count > 0,
    ensures
        r.token_ids@ == output.token_ids@.push(vocab_of(views(vocab_buckets@), piece@).token_id),
{
    let query: VocabQuery = begin_vocab_lookup(piece.clone());
    let bucket_idx: u32 = vocab_bucket_index(&query, vocab_bucket_count);
    let entries: &Vec<TokenEntry> = &vocab_buckets[bucket_idx as usize].entries;
    let ghost all = views(entries@);
    let mut hit: VocabMatch = VocabMatch { found: false, token_id: UNK_TOKEN_ID };
    let mut i: usize = 0;
    assert(all.take(0) =~= Seq::empty());
    while i < entries.len()
        invariant
            i <= entries.len(),
            all == views(entries@),
            hit == first_entry(all.take(i as int), query.piece@),
        decreases entries.len() - i,
    {
        hit = scan_vocab_chunk(&entries[i], hit, &query);
        i += 1;
        assert(all.take(i as int).drop_last() =~= all.take(i - 1));
        assert(all.take(i as int).last() == entries@[i - 1]@);
    }
    assert(all.take(i as int) =~= all);
    assert(views(vocab_buckets@)[bucket_idx as int] == all);
    append_token_id(output, hit)
}

/// How many merge rounds a prompt is given.
pub const MERGE_ROUNDS: u32 = 8;

/// The pieces after `n` merge rounds.
pub open spec fn rounds(
    buckets: Seq<Seq<RuleView>>,
    terminator: Seq<char>,
    pieces: Seq<Seq<char>>,
    n: nat,
) -> Seq<Seq<char>>
    decreases n,
{
    if n == 0 {
        pieces
    } else {
        round_of(
            buckets,
            terminator,
            rounds(buckets, terminator, pieces, (n - 1) as nat),
        ).output
    }
}

/// The token ids of a prompt, or why it has none.
pub open spec fn tokenized(tokenizer: TokenizerView, pieces: Seq<Seq<char>>) -> Result<
    Seq<u32>,
    Seq<char>,
> {
    let merged = rounds(tokenizer.merge_buckets, "</w>"@, pieces, MERGE_ROUNDS as nat);
    match convergence_check(mergeable_pairs(tokenizer.merge_buckets, merged)) {
        Err(e) => Err(e),
        Ok(_) => Ok(
            stripped(merged, "</w>"@).map_values(
                |piece: Seq<char>| vocab_of(tokenizer.vocab_buckets, piece).token_id,
            ),
        ),
    }
}

/// Runs the stage: merges the pieces to a fixed point and looks each one up.
pub fn tokenize_prompt(tokenizer: &PromptTokenizer, initial_pieces: BpePieces) -> (r: Result<
    PromptTokenization,
    String,
>)
    requires
        tokenizer.well_formed(),
    ensures
        match tokenized(tokenizer@, views(initial_pieces.pieces@)) {
            Ok(ids) => r matches Ok(p) && p.token_ids@ == ids,
            Err(e) => r matches Err(s) && s@ == e,
        },
{
    let terminator: String = String::from_str("</w>");
    let ghost start = views(initial_pieces.pieces@);
    let mut pieces: Vec<String> = initial_pieces.pieces;
    let mut round: u32 = 0;
    while round < MERGE_ROUNDS
        invariant
            round <= MERGE_ROUNDS,
            tokenizer.well_formed(),
            terminator@ == "</w>"@,
            views(pieces@) == rounds(
                tokenizer@.merge_buckets,
                terminator@,
                start,
                round as nat,
            ),
        decreases MERGE_ROUNDS - round,
    {
        let merged: MergedPieces = merge_round(
            &pieces,
            &tokenizer.merge_buckets,
            tokenizer.merge_bucket_count,
            &terminator,
        );
        pieces = merged.pieces;
        round += 1;
    }
    let remaining: u32 = count_remaining_merges(
        &pieces,
        &tokenizer.merge_buckets,
        tokenizer.merge_bucket_count,
    );
    match assert_merges_converged(remaining) {
        Ok(_) => {},
        Err(e) => return Err(e),
    }
    let merged: MergedPieces = strip_terminator(&pieces, &terminator);
    let ghost all = merged@;
    let mut output: PromptTokenization = PromptTokenization { token_ids: Vec::new() };
    let mut i: usize = 0;
    while i < merged.pieces.len()
        invariant
            i <= merged.pieces.len(),
            tokenizer.well_formed(),
            all == views(merged.pieces@),
            output.token_ids@.len() == i,
            forall|j: int|
                0 <= j < i ==> output.token_ids@[j] == vocab_of(
                    tokenizer@.vocab_buckets,
                    #[trigger] all[j],
                ).token_id,
        decreases merged.pieces.len() - i,
    {
        output = resolve_piece_token(
            &merged.pieces[i],
            output,
            &tokenizer.vocab_buckets,
            tokenizer.vocab_bucket_count,
        );
        i += 1;
    }
    assert(output.token_ids@ =~= tokenized(tokenizer@, start)->Ok_0);
    Ok(output)
}

} // verus!
