//! What one merge decision, one merge round and one lookup come to.

use crate::prompt_laws::{pair_at, settled, terminated, zero_remaining_means_settled};
use crate::prompt_prepare::{
    best_rule, first_entry, fnv_from, merge_of, merge_slot, mergeable_pairs, round_step, rounds,
    stripped, tokenized, vocab_of, vocab_slot, EntryView, RoundView, RuleView, StepView,
    TokenizerView, FNV_OFFSET_BASIS,
};
use vstd::prelude::*;
use vstd::utf8::encode_utf8;

verus! {

/// Whether a rule merges a pair.
pub open spec fn applies(rule: RuleView, step: StepView) -> bool {
    step.has_pending && rule.left == step.pending && rule.right == step.piece
}

/// A pair merges exactly if a rule is made for it, by the rule of the lowest rank, and by
/// the first of several such.
pub proof fn the_lowest_ranked_rule_wins(rules: Seq<RuleView>, step: StepView)
    ensures
        ({
            let hit = best_rule(rules, step);
            &&& hit.matched ==> exists|r: int|
                #![trigger rules[r]]
                0 <= r < rules.len() && applies(rules[r], step) && hit.rank == rules[r].rank
                    && hit.merged == rules[r].merged && (forall|j: int|
                    0 <= j < rules.len() && applies(#[trigger] rules[j], step) ==> rules[r].rank
                        <= rules[j].rank) && (forall|j: int|
                    0 <= j < r && applies(#[trigger] rules[j], step) ==> rules[r].rank
                        < rules[j].rank)
            &&& !hit.matched ==> forall|j: int|
                0 <= j < rules.len() ==> !applies(#[trigger] rules[j], step)
        }),
    decreases rules.len(),
{
    if rules.len() > 0 {
        let rest = rules.drop_last();
        let n = rules.len() - 1;
        the_lowest_ranked_rule_wins(rest, step);
        let before = best_rule(rest, step);
        let hit = best_rule(rules, step);
        assert(forall|j: int| 0 <= j < n ==> #[trigger] rest[j] == rules[j]);
        if hit.matched {
            if applies(rules[n], step) && (!before.matched || rules[n].rank < before.rank) {
                assert forall|j: int|
                    0 <= j < n && applies(#[trigger] rules[j], step) implies rules[n].rank
                    < rules[j].rank by {
                    assert(rest[j] == rules[j]);
                }
            } else {
                let r = choose|r: int|
                    #![trigger rest[r]]
                    0 <= r < rest.len() && applies(rest[r], step) && before.rank == rest[r].rank
                        && before.merged == rest[r].merged && (forall|j: int|
                        0 <= j < rest.len() && applies(#[trigger] rest[j], step) ==> rest[r].rank
                            <= rest[j].rank) && (forall|j: int|
                        0 <= j < r && applies(#[trigger] rest[j], step) ==> rest[r].rank
                            < rest[j].rank);
                assert(rules[r] == rest[r]);
                assert forall|j: int|
                    0 <= j < rules.len() && applies(#[trigger] rules[j], step) implies rules[r].rank
                    <= rules[j].rank by {
                    if j < n {
                        assert(rest[j] == rules[j]);
                    }
                }
                assert forall|j: int|
                    0 <= j < r && applies(#[trigger] rules[j], step) implies rules[r].rank
                    < rules[j].rank by {
                    assert(rest[j] == rules[j]);
                }
            }
        } else {
            assert forall|j: int| 0 <= j < rules.len() implies !applies(
                #[trigger] rules[j],
                step,
            ) by {
                if j < n {
                    assert(rest[j] == rules[j]);
                }
            }
        }
    }
}

/// One piece of a round. A piece that merges with the pending token replaces it by the
/// merged token, and nothing is put out; any other piece puts the pending token out and
/// becomes pending itself. The terminator is put out at once.
pub proof fn what_a_piece_does_in_a_round(
    buckets: Seq<Seq<RuleView>>,
    terminator: Seq<char>,
    state: RoundView,
    piece: Seq<char>,
)
    ensures
        ({
            let step = StepView { pending: state.pending, has_pending: state.has_pending, piece };
            let hit = merge_of(buckets, step);
            let next = round_step(buckets, terminator, state, piece);
            let out = if state.has_pending && !hit.matched {
                seq![state.pending]
            } else {
                Seq::empty()
            };
            let end = if piece == terminator {
                seq![piece]
            } else {
                Seq::empty()
            };
            &&& next.has_pending
            &&& hit.matched ==> next.pending == hit.merged
            &&& !hit.matched ==> next.pending == piece
            &&& next.output == state.output + out + end
        }),
{
    let step = StepView { pending: state.pending, has_pending: state.has_pending, piece };
    let next = round_step(buckets, terminator, state, piece);
    assert(state.output + Seq::<Seq<char>>::empty() + Seq::<Seq<char>>::empty() =~= state.output);
    assert(state.output + Seq::<Seq<char>>::empty() + seq![piece] =~= state.output.push(piece));
    assert(state.output + seq![state.pending] + Seq::<Seq<char>>::empty() =~= state.output.push(
        state.pending,
    ));
    assert(state.output + seq![state.pending] + seq![piece] =~= state.output.push(
        state.pending,
    ).push(piece));
}

/// A prompt is tokenized by eight merge rounds, and refused if a pair would still merge.
/// Every piece but the terminator gets an id, in order: that of the first vocabulary
/// entry of its text.
pub proof fn a_prompt_gets_the_ids_of_its_merged_pieces(
    tokenizer: TokenizerView,
    pieces: Seq<Seq<char>>,
)
    requires
        terminated(rounds(tokenizer.merge_buckets, "</w>"@, pieces, 8), "</w>"@),
    ensures
        ({
            let merged = rounds(tokenizer.merge_buckets, "</w>"@, pieces, 8);
            &&& tokenized(tokenizer, pieces) is Ok <==> settled(tokenizer.merge_buckets, merged)
            &&& tokenized(tokenizer, pieces) matches Ok(ids) ==> ids.len() == merged.len() - 1
                && forall|i: int|
                0 <= i < ids.len() ==> (#[trigger] ids[i]) == vocab_of(
                    tokenizer.vocab_buckets,
                    merged[i],
                ).token_id
        }),
{
    let merged = rounds(tokenizer.merge_buckets, "</w>"@, pieces, 8);
    zero_remaining_means_settled(tokenizer.merge_buckets, merged);
    only_the_terminator_is_stripped(merged, "</w>"@);
}

/// Stripping terminated pieces leaves all but the terminator.
pub proof fn only_the_terminator_is_stripped(pieces: Seq<Seq<char>>, terminator: Seq<char>)
    requires
        terminated(pieces, terminator),
    ensures
        stripped(pieces, terminator) == pieces.drop_last(),
{
    reveal(Seq::filter);
    let rest = pieces.drop_last();
    assert forall|i: int| 0 <= i < rest.len() implies #[trigger] rest[i] != terminator by {
        assert(rest[i] == pieces[i]);
    }
    lemma_nothing_stripped(rest, terminator);
}

proof fn lemma_nothing_stripped(pieces: Seq<Seq<char>>, terminator: Seq<char>)
    requires
        forall|i: int| 0 <= i < pieces.len() ==> #[trigger] pieces[i] != terminator,
    ensures
        stripped(pieces, terminator) == pieces,
    decreases pieces.len(),
{
    reveal(Seq::filter);
    if pieces.len() > 0 {
        let rest = pieces.drop_last();
        assert forall|i: int| 0 <= i < rest.len() implies #[trigger] rest[i] != terminator by {
            assert(rest[i] == pieces[i]);
        }
        lemma_nothing_stripped(rest, terminator);
        assert(pieces[pieces.len() - 1] != terminator);
        assert(rest.push(pieces.last()) =~= pieces);
    } else {
        assert(stripped(pieces, terminator) =~= pieces);
    }
}

/// A piece is found exactly if an entry has its text; it gets the id of the first such,
/// and zero where there is none.
pub proof fn a_piece_gets_its_id_or_zero(entries: Seq<EntryView>, piece: Seq<char>)
    ensures
        ({
            let hit = first_entry(entries, piece);
            &&& hit.found ==> exists|i: int|
                #![trigger entries[i]]
                0 <= i < entries.len() && entries[i].token == piece && hit.token_id
                    == entries[i].id && forall|j: int|
                    0 <= j < i ==> (#[trigger] entries[j]).token != piece
            &&& !hit.found ==> hit.token_id == 0 && forall|i: int|
                0 <= i < entries.len() ==> (#[trigger] entries[i]).token != piece
        }),
    decreases entries.len(),
{
    if entries.len() > 0 {
        let rest = entries.drop_last();
        let n = entries.len() - 1;
        a_piece_gets_its_id_or_zero(rest, piece);
        let before = first_entry(rest, piece);
        if before.found {
            let i = choose|i: int|
                #![trigger rest[i]]
                0 <= i < rest.len() && rest[i].token == piece && before.token_id == rest[i].id
                    && forall|j: int| 0 <= j < i ==> (#[trigger] rest[j]).token != piece;
            assert(entries[i] == rest[i]);
            assert forall|j: int| 0 <= j < i implies (#[trigger] entries[j]).token != piece by {
                assert(rest[j] == entries[j]);
            }
        } else {
            assert forall|j: int| 0 <= j < n implies (#[trigger] entries[j]).token != piece by {
                assert(rest[j] == entries[j]);
            }
            if entries[n].token == piece {
                assert(first_entry(entries, piece).token_id == entries[n].id);
            }
        }
    }
}

/// The hash is FNV-1a of 64 bits: from its offset basis, every byte is folded in by an
/// exclusive or and a multiplication by its prime.
pub proof fn the_hash_is_fnv_1a(hash: u64, bytes: Seq<u8>, byte: u8)
    ensures
        FNV_OFFSET_BASIS == 14695981039346656037,
        fnv_from(hash, Seq::empty()) == hash,
        fnv_from(hash, bytes.push(byte)) == ((fnv_from(hash, bytes) ^ (byte as u64))
            * 1099511628211) % 18446744073709551616,
{
    assert(bytes.push(byte).drop_last() =~= bytes);
}

/// A token's bucket is its hash modulo the number of buckets, a pair's that of its two
/// sides around a separator; so both lie among the buckets.
pub proof fn buckets_go_by_hash(left: Seq<char>, right: Seq<char>, count: u32)
    requires
        count > 0,
    ensures
        vocab_slot(left, count) < count,
        vocab_slot(left, count) == fnv_from(FNV_OFFSET_BASIS, encode_utf8(left)) as int
            % count as int,
        merge_slot(left, right, count) < count,
        merge_slot(left, right, count) == fnv_from(
            FNV_OFFSET_BASIS,
            encode_utf8(left) + seq![255u8] + encode_utf8(right),
        ) as int % count as int,
{
}

/// Whether each piece would merge with the one behind it.
pub open spec fn merges_at(buckets: Seq<Seq<RuleView>>, pieces: Seq<Seq<char>>) -> Seq<bool> {
    Seq::new(
        if pieces.len() < 2 {
            0
        } else {
            (pieces.len() - 1) as nat
        },
        |i: int| merge_of(buckets, pair_at(pieces, i)).matched,
    )
}

/// What is left to merge is the number of adjacent pairs that a rule is made for.
pub proof fn the_count_is_of_adjacent_pairs(buckets: Seq<Seq<RuleView>>, pieces: Seq<Seq<char>>)
    requires
        pieces.len() <= u32::MAX,
    ensures
        mergeable_pairs(buckets, pieces) == merges_at(buckets, pieces).filter(|m: bool| m).len(),
        merges_at(buckets, pieces).filter(|m: bool| m).len() <= pieces.len(),
    decreases pieces.len(),
{
    reveal(Seq::filter);
    let all = merges_at(buckets, pieces);
    if pieces.len() >= 2 {
        let rest = pieces.drop_last();
        let n = pieces.len() as int;
        the_count_is_of_adjacent_pairs(buckets, rest);
        let before = merges_at(buckets, rest);
        assert(all.drop_last() =~= before) by {
            assert forall|i: int| 0 <= i < before.len() implies all[i] == before[i] by {
                assert(pair_at(rest, i) == pair_at(pieces, i));
            }
        }
        assert(all.last() == merge_of(buckets, pair_at(pieces, n - 2)).matched);
        assert(pair_at(pieces, n - 2) == (StepView {
            pending: pieces[n - 2],
            has_pending: true,
            piece: pieces[n - 1],
        }));
    }
}

} // verus!
