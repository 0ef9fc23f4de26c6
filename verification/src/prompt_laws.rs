//! What holds of prompt tokenization as a whole.

use crate::prompt_prepare::{
    best_rule, first_entry, lemma_no_pending_no_match, merge_of, merge_slot, mergeable_pairs,
    no_match, not_found, pair_key, round_of, rounds, EntryView, RoundView, RuleView, StepView,
    VocabMatch,
};
use vstd::prelude::*;
use vstd::utf8::{encode_scalar, encode_utf8, encode_utf8_decode_utf8};

verus! {

proof fn lemma_scalar_bytes(c: u32)
    by (bit_vector)
    ensures
        (c & 0x7F) as u8 != 0xff,
        0xC0 | ((c >> 6) & 0x1F) as u8 != 0xff,
        0xE0 | ((c >> 12) & 0x0F) as u8 != 0xff,
        0xF0 | ((c >> 18) & 0x7) as u8 != 0xff,
        0x80 | (c & 0x3F) as u8 != 0xff,
        0x80 | ((c >> 6) & 0x3F) as u8 != 0xff,
        0x80 | ((c >> 12) & 0x3F) as u8 != 0xff,
{
}

/// UTF-8 never uses the byte that separates a pair.
pub proof fn utf8_has_no_separator(chars: Seq<char>, i: int)
    requires
        0 <= i < encode_utf8(chars).len(),
    ensures
        encode_utf8(chars)[i] != 0xff,
    decreases chars.len(),
{
    let c = chars[0] as u32;
    lemma_scalar_bytes(c);
    let head = encode_scalar(c);
    if i >= head.len() {
        utf8_has_no_separator(chars.drop_first(), i - head.len());
    }
}

/// No pair of tokens is hashed as the bytes of another pair: the separator keeps
/// `("ab", "c")` and `("a", "bc")` apart.
pub proof fn pair_keys_are_distinct(
    left: Seq<char>,
    right: Seq<char>,
    other_left: Seq<char>,
    other_right: Seq<char>,
)
    requires
        pair_key(left, right) == pair_key(other_left, other_right),
    ensures
        left == other_left,
        right == other_right,
{
    let key = pair_key(left, right);
    let a = encode_utf8(left);
    let b = encode_utf8(other_left);
    assert(key[a.len() as int] == 0xff);
    assert(pair_key(other_left, other_right)[b.len() as int] == 0xff);
    if a.len() < b.len() {
        assert(key[a.len() as int] == b[a.len() as int]);
        utf8_has_no_separator(other_left, a.len() as int);
    } else if b.len() < a.len() {
        assert(key[b.len() as int] == a[b.len() as int]);
        utf8_has_no_separator(left, b.len() as int);
    }
    assert(a =~= key.subrange(0, a.len() as int));
    assert(b =~= key.subrange(0, a.len() as int));
    let c = encode_utf8(right);
    let d = encode_utf8(other_right);
    assert(c =~= key.subrange(a.len() as int + 1, key.len() as int));
    assert(d =~= key.subrange(a.len() as int + 1, key.len() as int));
    encode_utf8_decode_utf8(left);
    encode_utf8_decode_utf8(other_left);
    encode_utf8_decode_utf8(right);
    encode_utf8_decode_utf8(other_right);
}

/// Pieces that end with the terminator and hold it nowhere else.
pub open spec fn terminated(pieces: Seq<Seq<char>>, terminator: Seq<char>) -> bool {
    &&& pieces.len() > 0
    &&& pieces.last() == terminator
    &&& forall|i: int| 0 <= i < pieces.len() - 1 ==> #[trigger] pieces[i] != terminator
}

/// The pair of pieces `i` and `i + 1`.
pub open spec fn pair_at(pieces: Seq<Seq<char>>, i: int) -> StepView {
    StepView { pending: pieces[i], has_pending: true, piece: pieces[i + 1] }
}

/// No adjacent pair merges.
pub open spec fn settled(buckets: Seq<Seq<RuleView>>, pieces: Seq<Seq<char>>) -> bool {
    forall|i: int|
        0 <= i < pieces.len() - 1 ==> !merge_of(buckets, #[trigger] pair_at(pieces, i)).matched
}

/// The convergence count is zero exactly when no adjacent pair merges.
pub proof fn zero_remaining_means_settled(buckets: Seq<Seq<RuleView>>, pieces: Seq<Seq<char>>)
    ensures
        mergeable_pairs(buckets, pieces) == 0 <==> settled(buckets, pieces),
    decreases pieces.len(),
{
    if pieces.len() >= 2 {
        let rest = pieces.drop_last();
        let n = pieces.len() as int;
        zero_remaining_means_settled(buckets, rest);
        assert(pair_at(pieces, n - 2) == (StepView {
            pending: pieces[n - 2],
            has_pending: true,
            piece: pieces[n - 1],
        }));
        assert forall|i: int| 0 <= i < rest.len() - 1 implies #[trigger] pair_at(rest, i) == pair_at(
            pieces,
            i,
        ) by {}
        if settled(buckets, rest) && !merge_of(buckets, pair_at(pieces, n - 2)).matched {
            assert forall|i: int| 0 <= i < n - 1 implies !merge_of(
                buckets,
                #[trigger] pair_at(pieces, i),
            ).matched by {
                if i < n - 2 {
                    assert(pair_at(rest, i) == pair_at(pieces, i));
                }
            }
        }
        if settled(buckets, pieces) {
            assert forall|i: int| 0 <= i < rest.len() - 1 implies !merge_of(
                buckets,
                #[trigger] pair_at(rest, i),
            ).matched by {
                assert(pair_at(rest, i) == pair_at(pieces, i));
            }
        }
    }
}

proof fn lemma_settled_prefix(
    buckets: Seq<Seq<RuleView>>,
    terminator: Seq<char>,
    pieces: Seq<Seq<char>>,
    k: nat,
)
    requires
        settled(buckets, pieces),
        0 < k < pieces.len(),
        terminated(pieces, terminator),
    ensures
        round_of(buckets, terminator, pieces.take(k as int)) == (RoundView {
            pending: pieces[k - 1],
            has_pending: true,
            output: pieces.take(k - 1),
        }),
    decreases k,
{
    let here = pieces.take(k as int);
    assert(here.drop_last() =~= pieces.take(k - 1));
    assert(here.last() == pieces[k - 1]);
    if k == 1 {
        assert(pieces.take(0) =~= Seq::empty());
        let start = round_of(buckets, terminator, pieces.take(0));
        let step = StepView { pending: start.pending, has_pending: false, piece: pieces[0] };
        lemma_unpaired(buckets, step);
        assert(start.output =~= pieces.take(0));
    } else {
        lemma_settled_prefix(buckets, terminator, pieces, (k - 1) as nat);
        assert(!merge_of(buckets, pair_at(pieces, k - 2)).matched);
        assert(pieces.take(k - 2).push(pieces[k - 2]) =~= pieces.take(k - 1));
    }
}

proof fn lemma_unpaired(buckets: Seq<Seq<RuleView>>, step: StepView)
    requires
        !step.has_pending,
    ensures
        merge_of(buckets, step) == no_match(),
{
    lemma_no_pending_no_match(
        buckets[merge_slot(step.pending, step.piece, buckets.len() as u32) as int],
        step,
    );
}

/// A merge round over pieces of which no adjacent pair merges gives the pieces
/// back: a round too many is harmless.
pub proof fn a_settled_round_changes_nothing(
    buckets: Seq<Seq<RuleView>>,
    terminator: Seq<char>,
    pieces: Seq<Seq<char>>,
)
    requires
        settled(buckets, pieces),
        terminated(pieces, terminator),
    ensures
        round_of(buckets, terminator, pieces).output == pieces,
{
    let n = pieces.len();
    assert(pieces.drop_last() =~= pieces.take(n - 1));
    if n == 1 {
        assert(pieces.take(0) =~= Seq::empty());
        let start = round_of(buckets, terminator, pieces.take(0));
        let step = StepView { pending: start.pending, has_pending: false, piece: pieces[0] };
        lemma_unpaired(buckets, step);
        assert(round_of(buckets, terminator, pieces).output =~= pieces);
    } else {
        lemma_settled_prefix(buckets, terminator, pieces, (n - 1) as nat);
        assert(!merge_of(buckets, pair_at(pieces, n - 2)).matched);
        assert(pieces.take(n - 2).push(pieces[n - 2]).push(pieces[n - 1]) =~= pieces);
    }
}

/// Once no adjacent pair merges, every further round gives the same pieces.
pub proof fn rounds_reach_a_fixed_point(
    buckets: Seq<Seq<RuleView>>,
    terminator: Seq<char>,
    pieces: Seq<Seq<char>>,
    n: nat,
    m: nat,
)
    requires
        n <= m,
        settled(buckets, rounds(buckets, terminator, pieces, n)),
        terminated(rounds(buckets, terminator, pieces, n), terminator),
    ensures
        rounds(buckets, terminator, pieces, m) == rounds(buckets, terminator, pieces, n),
    decreases m,
{
    if n < m {
        rounds_reach_a_fixed_point(buckets, terminator, pieces, n, (m - 1) as nat);
        a_settled_round_changes_nothing(
            buckets,
            terminator,
            rounds(buckets, terminator, pieces, n),
        );
    }
}

/// A tokenizer without merge rules leaves the pieces as they are.
pub proof fn no_rules_no_merging(
    buckets: Seq<Seq<RuleView>>,
    terminator: Seq<char>,
    pieces: Seq<Seq<char>>,
    n: nat,
)
    requires
        0 < buckets.len() <= u32::MAX,
        forall|b: int| 0 <= b < buckets.len() ==> (#[trigger] buckets[b]).len() == 0,
        terminated(pieces, terminator),
    ensures
        rounds(buckets, terminator, pieces, n) == pieces,
        mergeable_pairs(buckets, pieces) == 0,
{
    assert forall|i: int| 0 <= i < pieces.len() - 1 implies !merge_of(
        buckets,
        #[trigger] pair_at(pieces, i),
    ).matched by {
        let step = pair_at(pieces, i);
        let slot = merge_slot(step.pending, step.piece, buckets.len() as u32) as int;
        assert(0 <= slot < buckets.len());
        assert(buckets[slot].len() == 0);
    }
    zero_remaining_means_settled(buckets, pieces);
    rounds_reach_a_fixed_point(buckets, terminator, pieces, 0, n);
}

/// The text that a run of pieces spells.
pub open spec fn spelled(pieces: Seq<Seq<char>>) -> Seq<char>
    decreases pieces.len(),
{
    if pieces.len() == 0 {
        Seq::empty()
    } else {
        spelled(pieces.drop_last()) + pieces.last()
    }
}

/// Every rule joins its two sides, and none of them mentions the terminator.
pub open spec fn joins_only(buckets: Seq<Seq<RuleView>>, terminator: Seq<char>) -> bool {
    forall|b: int, r: int|
        0 <= b < buckets.len() && 0 <= r < buckets[b].len() ==> {
            let rule = #[trigger] buckets[b][r];
            &&& rule.merged == rule.left + rule.right
            &&& rule.right != terminator
            &&& rule.merged != terminator
        }
}

proof fn lemma_match_comes_from_a_rule(rules: Seq<RuleView>, step: StepView)
    requires
        best_rule(rules, step).matched,
    ensures
        exists|r: int|
            0 <= r < rules.len() && (#[trigger] rules[r]).left == step.pending && rules[r].right
                == step.piece && rules[r].merged == best_rule(rules, step).merged,
    decreases rules.len(),
{
    let rest = rules.drop_last();
    if rules.len() > 0 {
        if best_rule(rest, step).matched {
            lemma_match_comes_from_a_rule(rest, step);
            let r = choose|r: int|
                0 <= r < rest.len() && (#[trigger] rest[r]).left == step.pending && rest[r].right
                    == step.piece && rest[r].merged == best_rule(rest, step).merged;
            assert(rules[r] == rest[r]);
        }
        assert(rules[rules.len() - 1] == rules.last());
    }
}

proof fn lemma_spelled_push(pieces: Seq<Seq<char>>, piece: Seq<char>)
    ensures
        spelled(pieces.push(piece)) == spelled(pieces) + piece,
{
    assert(pieces.push(piece).drop_last() =~= pieces);
}

proof fn lemma_round_prefix(
    buckets: Seq<Seq<RuleView>>,
    terminator: Seq<char>,
    pieces: Seq<Seq<char>>,
)
    requires
        0 < buckets.len() <= u32::MAX,
        joins_only(buckets, terminator),
        forall|i: int| 0 <= i < pieces.len() ==> #[trigger] pieces[i] != terminator,
    ensures
        ({
            let state = round_of(buckets, terminator, pieces);
            &&& state.has_pending == (pieces.len() > 0)
            &&& spelled(state.output) + state.pending == spelled(pieces)
            &&& state.has_pending ==> state.pending != terminator
            &&& forall|i: int|
                0 <= i < state.output.len() ==> #[trigger] state.output[i] != terminator
        }),
    decreases pieces.len(),
{
    if pieces.len() == 0 {
        assert(Seq::<char>::empty() + Seq::<char>::empty() =~= Seq::<char>::empty());
    } else {
        let rest = pieces.drop_last();
        let piece = pieces.last();
        lemma_round_prefix(buckets, terminator, rest);
        let before = round_of(buckets, terminator, rest);
        let step = StepView { pending: before.pending, has_pending: before.has_pending, piece };
        let hit = merge_of(buckets, step);
        let slot = merge_slot(step.pending, step.piece, buckets.len() as u32) as int;
        assert(piece == pieces[pieces.len() - 1]);
        if hit.matched {
            if !step.has_pending {
                lemma_unpaired(buckets, step);
            }
            lemma_match_comes_from_a_rule(buckets[slot], step);
            let r = choose|r: int|
                0 <= r < buckets[slot].len() && (#[trigger] buckets[slot][r]).left == step.pending
                    && buckets[slot][r].right == step.piece && buckets[slot][r].merged
                    == hit.merged;
            assert(hit.merged == step.pending + step.piece);
            assert(spelled(before.output) + (before.pending + piece) =~= spelled(before.output)
                + before.pending + piece);
        } else if before.has_pending {
            lemma_spelled_push(before.output, before.pending);
        } else {
            assert(rest.len() == 0);
            assert(spelled(before.output) + piece =~= spelled(before.output) + before.pending
                + piece) by {
                let start = round_of(buckets, terminator, Seq::empty());
                assert(rest =~= Seq::empty());
                assert(before == start);
            }
        }
    }
}

/// A merge round loses no text and adds none, and hands the terminator on: the
/// output spells what the input spells, and ends with the terminator alone.
pub proof fn a_round_keeps_the_text(
    buckets: Seq<Seq<RuleView>>,
    terminator: Seq<char>,
    pieces: Seq<Seq<char>>,
)
    requires
        0 < buckets.len() <= u32::MAX,
        joins_only(buckets, terminator),
        terminated(pieces, terminator),
    ensures
        spelled(round_of(buckets, terminator, pieces).output) == spelled(pieces),
        terminated(round_of(buckets, terminator, pieces).output, terminator),
{
    let rest = pieces.drop_last();
    assert forall|i: int| 0 <= i < rest.len() implies #[trigger] rest[i] != terminator by {
        assert(rest[i] == pieces[i]);
    }
    lemma_round_prefix(buckets, terminator, rest);
    let before = round_of(buckets, terminator, rest);
    let step = StepView {
        pending: before.pending,
        has_pending: before.has_pending,
        piece: terminator,
    };
    let hit = merge_of(buckets, step);
    let slot = merge_slot(step.pending, step.piece, buckets.len() as u32) as int;
    if hit.matched {
        lemma_match_comes_from_a_rule(buckets[slot], step);
        let r = choose|r: int|
            0 <= r < buckets[slot].len() && (#[trigger] buckets[slot][r]).left == step.pending
                && buckets[slot][r].right == step.piece && buckets[slot][r].merged == hit.merged;
        assert(false);
    }
    if before.has_pending {
        lemma_spelled_push(before.output, before.pending);
        lemma_spelled_push(before.output.push(before.pending), terminator);
    } else {
        lemma_spelled_push(before.output, terminator);
        assert(rest =~= Seq::empty());
        assert(before == round_of(buckets, terminator, Seq::empty()));
        assert(spelled(before.output) + before.pending =~= spelled(before.output));
    }
}

/// Any number of merge rounds loses no text and adds none.
pub proof fn merging_keeps_the_text(
    buckets: Seq<Seq<RuleView>>,
    terminator: Seq<char>,
    pieces: Seq<Seq<char>>,
    n: nat,
)
    requires
        0 < buckets.len() <= u32::MAX,
        joins_only(buckets, terminator),
        terminated(pieces, terminator),
    ensures
        spelled(rounds(buckets, terminator, pieces, n)) == spelled(pieces),
        terminated(rounds(buckets, terminator, pieces, n), terminator),
    decreases n,
{
    if n > 0 {
        merging_keeps_the_text(buckets, terminator, pieces, (n - 1) as nat);
        a_round_keeps_the_text(
            buckets,
            terminator,
            rounds(buckets, terminator, pieces, (n - 1) as nat),
        );
    }
}

/// A piece that the vocabulary lacks gets the id of unknown pieces.
pub proof fn an_unknown_piece_is_unk(entries: Seq<EntryView>, piece: Seq<char>)
    requires
        forall|i: int| 0 <= i < entries.len() ==> (#[trigger] entries[i]).token != piece,
    ensures
        first_entry(entries, piece) == not_found(),
    decreases entries.len(),
{
    if entries.len() > 0 {
        assert(entries[entries.len() - 1].token != piece);
        an_unknown_piece_is_unk(entries.drop_last(), piece);
    }
}

/// A piece of the vocabulary gets the id of its first entry.
pub proof fn a_known_piece_gets_its_id(entries: Seq<EntryView>, k: int)
    requires
        0 <= k < entries.len(),
        forall|i: int| 0 <= i < k ==> (#[trigger] entries[i]).token != entries[k].token,
    ensures
        first_entry(entries, entries[k].token) == (VocabMatch {
            found: true,
            token_id: entries[k].id,
        }),
    decreases entries.len(),
{
    let rest = entries.drop_last();
    if k < rest.len() {
        a_known_piece_gets_its_id(rest, k);
    } else {
        an_unknown_piece_is_unk(rest, entries[k].token);
    }
}

} // verus!
