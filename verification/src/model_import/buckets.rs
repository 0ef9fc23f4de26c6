//! The tokenizer's tables, bucketed by the hashes that the tokenizing stage uses.
//!
//! A wrong bucket does not fail loudly: the lookup misses. The laws here state
//! that it never does.

use crate::lists::{views, views_of_empty, views_of_push};
use crate::prompt_prepare::{
    best_rule, first_entry, merge_bucket_of, merge_of, merge_slot, mergeable_pairs,
    round_of, rounds, rule_scanned, stripped, tokenized, vocab_bucket_of, vocab_of,
    vocab_slot, BpeMerge, EntryView, MERGE_ROUNDS, MergeBucket, RuleView, StepView,
    TokenEntry, TokenizerView, VocabBucket,
};
use vstd::prelude::*;

verus! {

/// Entries per bucket to aim for.
pub const TARGET_BUCKET_LOAD: usize = 4;

/// Bucket count for a number of keys.
pub open spec fn bucket_count(len: nat) -> u32 {
    if len < TARGET_BUCKET_LOAD {
        1
    } else {
        ((len as int / 4) % 0x1_0000_0000) as u32
    }
}

/// Bucket count for `len` keys: at least one, so that a computed index always has a
/// bucket to land in.
pub fn bucket_count_for(len: usize) -> (r: u32)
    ensures
        r == bucket_count(len as nat),
        len / 4 <= u32::MAX ==> r > 0,
{
    let count: usize = len / TARGET_BUCKET_LOAD;
    if count == 0 {
        1
    } else {
        (count as u64 % 0x1_0000_0000) as u32
    }
}

/// The entries that hash to one bucket, in order.
pub open spec fn entries_in(entries: Seq<EntryView>, count: u32, slot: int) -> Seq<EntryView>
    decreases entries.len(),
{
    if entries.len() == 0 {
        Seq::empty()
    } else {
        let rest = entries_in(entries.drop_last(), count, slot);
        if vocab_slot(entries.last().token, count) == slot {
            rest.push(entries.last())
        } else {
            rest
        }
    }
}

/// Every bucket of a vocabulary.
pub open spec fn vocab_table(entries: Seq<EntryView>, count: u32) -> Seq<Seq<EntryView>> {
    Seq::new(count as nat, |slot: int| entries_in(entries, count, slot))
}

/// A rule put among rules in rank order, behind those of its own rank.
pub open spec fn rule_inserted(rules: Seq<RuleView>, rule: RuleView) -> Seq<RuleView>
    decreases rules.len(),
{
    if rules.len() == 0 || rules.last().rank <= rule.rank {
        rules.push(rule)
    } else {
        rule_inserted(rules.drop_last(), rule).push(rules.last())
    }
}

/// The rules that hash to one bucket, in rank order, those of one rank in the
/// order in which they came.
pub open spec fn rules_in(rules: Seq<RuleView>, count: u32, slot: int) -> Seq<RuleView>
    decreases rules.len(),
{
    if rules.len() == 0 {
        Seq::empty()
    } else {
        let rest = rules_in(rules.drop_last(), count, slot);
        if merge_slot(rules.last().left, rules.last().right, count) == slot {
            rule_inserted(rest, rules.last())
        } else {
            rest
        }
    }
}

/// Every bucket of a merge table.
pub open spec fn merge_table(rules: Seq<RuleView>, count: u32) -> Seq<Seq<RuleView>> {
    Seq::new(count as nat, |slot: int| rules_in(rules, count, slot))
}

/// Buckets a vocabulary.
pub fn bucket_vocab(vocab: Vec<TokenEntry>) -> (r: (u32, Vec<VocabBucket>))
    requires
        bucket_count(vocab@.len()) > 0,
    ensures
        r.0 == bucket_count(vocab@.len()),
        r.1@.len() == r.0,
        views(r.1@) == vocab_table(views(vocab@), r.0),
{
    broadcast use views_of_push;
    broadcast use views_of_empty;

    let count: u32 = bucket_count_for(vocab.len());
    let ghost all = views(vocab@);
    let mut buckets: Vec<VocabBucket> = Vec::new();
    let mut b: u32 = 0;
    while b < count
        invariant
            b <= count,
            buckets@.len() == b,
            forall|j: int| 0 <= j < b ==> (#[trigger] buckets@[j])@ == Seq::<EntryView>::empty(),
        decreases count - b,
    {
        broadcast use views_of_empty;

        buckets.push(VocabBucket { entries: Vec::new() });
        b += 1;
    }
    let mut i: usize = 0;
    assert(all.take(0) =~= Seq::empty());
    while i < vocab.len()
        invariant
            i <= vocab.len(),
            all == views(vocab@),
            count > 0,
            buckets@.len() == count,
            forall|j: int|
                0 <= j < count ==> (#[trigger] buckets@[j])@ == entries_in(
                    all.take(i as int),
                    count,
                    j,
                ),
        decreases vocab.len() - i,
    {
        broadcast use views_of_push;

        let entry: TokenEntry = vocab[i].clone();
        let slot: usize = vocab_bucket_of(entry.token.as_str(), count) as usize;
        let ghost before = buckets@;
        assert(all.take(i + 1).drop_last() =~= all.take(i as int));
        assert(all.take(i + 1).last() == vocab@[i as int]@);
        let bucket: &mut VocabBucket = &mut buckets[slot];
        bucket.entries.push(entry);
        assert forall|j: int| 0 <= j < count implies (#[trigger] buckets@[j])@ == entries_in(
            all.take(i + 1),
            count,
            j,
        ) by {
            if j != slot {
                assert(buckets@[j] == before[j]);
            }
        }
        i += 1;
    }
    assert(all.take(i as int) =~= all);
    assert(views(buckets@) =~= vocab_table(all, count));
    (count, buckets)
}

fn insert_rule(rules: &mut Vec<BpeMerge>, rule: BpeMerge)
    ensures
        views(final(rules)@) == rule_inserted(views(old(rules)@), rule@),
{
    let ghost before = views(rules@);
    let mut k: usize = rules.len();
    while k > 0 && rules[k - 1].rank > rule.rank
        invariant
            k <= rules@.len(),
            before == views(rules@),
            forall|j: int| k <= j < before.len() ==> #[trigger] before[j].rank > rule.rank,
        decreases k,
    {
        assert(before[k - 1] == rules@[k - 1]@);
        k -= 1;
    }
    proof {
        if k > 0 {
            assert(before[k - 1] == rules@[k - 1]@);
        }
        lemma_insert_at(before, rule@, k as int);
    }
    rules.insert(k, rule);
    assert(views(rules@) =~= before.insert(k as int, rule@));
}

proof fn lemma_insert_at(rules: Seq<RuleView>, rule: RuleView, k: int)
    requires
        0 <= k <= rules.len(),
        forall|j: int| k <= j < rules.len() ==> #[trigger] rules[j].rank > rule.rank,
        k > 0 ==> rules[k - 1].rank <= rule.rank,
    ensures
        rule_inserted(rules, rule) == rules.insert(k, rule),
    decreases rules.len(),
{
    if rules.len() > k {
        let rest = rules.drop_last();
        assert(rules[rules.len() - 1].rank > rule.rank);
        lemma_insert_at(rest, rule, k);
        assert(rest.insert(k, rule).push(rules.last()) =~= rules.insert(k, rule));
    } else {
        assert(rules.push(rule) =~= rules.insert(k, rule));
    }
}

/// Buckets a merge table, each bucket in rank order.
pub fn bucket_merges(merges: Vec<BpeMerge>) -> (r: (u32, Vec<MergeBucket>))
    requires
        bucket_count(merges@.len()) > 0,
    ensures
        r.0 == bucket_count(merges@.len()),
        r.1@.len() == r.0,
        views(r.1@) == merge_table(views(merges@), r.0),
{
    broadcast use views_of_empty;

    let count: u32 = bucket_count_for(merges.len());
    let ghost all = views(merges@);
    let mut buckets: Vec<MergeBucket> = Vec::new();
    let mut b: u32 = 0;
    while b < count
        invariant
            b <= count,
            buckets@.len() == b,
            forall|j: int| 0 <= j < b ==> (#[trigger] buckets@[j])@ == Seq::<RuleView>::empty(),
        decreases count - b,
    {
        broadcast use views_of_empty;

        buckets.push(MergeBucket { rules: Vec::new() });
        b += 1;
    }
    let mut i: usize = 0;
    assert(all.take(0) =~= Seq::empty());
    while i < merges.len()
        invariant
            i <= merges.len(),
            all == views(merges@),
            count > 0,
            buckets@.len() == count,
            forall|j: int|
                0 <= j < count ==> (#[trigger] buckets@[j])@ == rules_in(
                    all.take(i as int),
                    count,
                    j,
                ),
        decreases merges.len() - i,
    {
        let rule: BpeMerge = merges[i].clone();
        let slot: usize = merge_bucket_of(rule.left.as_str(), rule.right.as_str(), count) as usize;
        let ghost before = buckets@;
        assert(all.take(i + 1).drop_last() =~= all.take(i as int));
        assert(all.take(i + 1).last() == merges@[i as int]@);
        let bucket: &mut MergeBucket = &mut buckets[slot];
        insert_rule(&mut bucket.rules, rule);
        assert forall|j: int| 0 <= j < count implies (#[trigger] buckets@[j])@ == rules_in(
            all.take(i + 1),
            count,
            j,
        ) by {
            if j != slot {
                assert(buckets@[j] == before[j]);
            }
        }
        i += 1;
    }
    assert(all.take(i as int) =~= all);
    assert(views(buckets@) =~= merge_table(all, count));
    (count, buckets)
}

/// Looking a piece up in its bucket is looking it up in the whole vocabulary.
pub proof fn a_bucketed_token_is_found(entries: Seq<EntryView>, count: u32, piece: Seq<char>)
    requires
        count > 0,
    ensures
        vocab_of(vocab_table(entries, count), piece) == first_entry(entries, piece),
    decreases entries.len(),
{
    let slot = vocab_slot(piece, count) as int;
    assert(vocab_table(entries, count).len() == count);
    if entries.len() > 0 {
        a_bucketed_token_is_found(entries.drop_last(), count, piece);
        assert(vocab_table(entries.drop_last(), count).len() == count);
        let rest = entries_in(entries.drop_last(), count, slot);
        assert(rest.push(entries.last()).drop_last() =~= rest);
    }
}

/// Ranks in ascending order.
pub open spec fn in_rank_order(rules: Seq<RuleView>) -> bool {
    forall|i: int, j: int|
        #![trigger rules[i], rules[j]]
        0 <= i < j < rules.len() ==> rules[i].rank <= rules[j].rank
}

proof fn lemma_inserted(rules: Seq<RuleView>, rule: RuleView, step: StepView)
    requires
        in_rank_order(rules),
    ensures
        in_rank_order(rule_inserted(rules, rule)),
        best_rule(rule_inserted(rules, rule), step) == rule_scanned(
            best_rule(rules, step),
            rule,
            step,
        ),
        rule_inserted(rules, rule).len() > 0,
        rule_inserted(rules, rule).last() == (if rules.len() > 0 && rules.last().rank > rule.rank {
            rules.last()
        } else {
            rule
        }),
        forall|i: int|
            0 <= i < rule_inserted(rules, rule).len() ==> (#[trigger] rule_inserted(
                rules,
                rule,
            )[i]).rank <= rule.rank || (rules.len() > 0 && rule_inserted(rules, rule)[i].rank
                <= rules.last().rank),
        forall|i: int|
            0 <= i < rule_inserted(rules, rule).len() ==> (#[trigger] rule_inserted(
                rules,
                rule,
            )[i]) == rule || rules.contains(rule_inserted(rules, rule)[i]),
    decreases rules.len(),
{
    let more = rule_inserted(rules, rule);
    if rules.len() == 0 || rules.last().rank <= rule.rank {
        assert(more.drop_last() =~= rules);
        assert forall|i: int| 0 <= i < rules.len() implies #[trigger] more[i].rank <= rule.rank by {
            assert(rules[i].rank <= rules[rules.len() - 1].rank);
        }
        assert forall|i: int| 0 <= i < more.len() implies (#[trigger] more[i]) == rule
            || rules.contains(more[i]) by {
            if i < rules.len() {
                assert(rules[i] == more[i]);
            }
        }
    } else {
        let rest = rules.drop_last();
        let inner = rule_inserted(rest, rule);
        let last = rules.last();
        lemma_inserted(rest, rule, step);
        assert(more.drop_last() =~= inner);
        assert(more.last() == last);
        assert forall|i: int| 0 <= i < inner.len() implies #[trigger] inner[i].rank <= last.rank by {
            if rest.len() > 0 {
                assert(rules[rules.len() - 2].rank <= rules[rules.len() - 1].rank);
            }
        }
        assert forall|i: int, j: int|
            #![trigger more[i], more[j]]
            0 <= i < j < more.len() implies more[i].rank <= more[j].rank by {
            assert(more[i] == inner[i]);
            if j < inner.len() {
                assert(more[j] == inner[j]);
            }
        }
        assert forall|i: int| 0 <= i < more.len() implies (#[trigger] more[i]) == rule
            || rules.contains(more[i]) by {
            if i < inner.len() {
                assert(more[i] == inner[i]);
                if rest.contains(more[i]) {
                    let j = rest.index_of(more[i]);
                    assert(rules[j] == more[i]);
                }
            } else {
                assert(rules[rules.len() - 1] == last);
            }
        }
        lemma_matched_ranks(rest, step);
    }
}

/// What a scan has matched has the rank of one of the rules scanned.
proof fn lemma_matched_ranks(rules: Seq<RuleView>, step: StepView)
    ensures
        best_rule(rules, step).matched ==> exists|i: int|
            0 <= i < rules.len() && #[trigger] rules[i].rank == best_rule(rules, step).rank,
    decreases rules.len(),
{
    if rules.len() > 0 {
        let rest = rules.drop_last();
        lemma_matched_ranks(rest, step);
        if best_rule(rules, step).matched {
            if rule_scanned(best_rule(rest, step), rules.last(), step) == best_rule(rest, step) {
                let i = choose|i: int|
                    0 <= i < rest.len() && #[trigger] rest[i].rank == best_rule(rest, step).rank;
                assert(rules[i].rank == best_rule(rules, step).rank);
            } else {
                assert(rules[rules.len() - 1].rank == best_rule(rules, step).rank);
            }
        }
    }
}

proof fn lemma_bucketed_rules(rules: Seq<RuleView>, count: u32, step: StepView)
    requires
        count > 0,
    ensures
        in_rank_order(rules_in(rules, count, merge_slot(step.pending, step.piece, count) as int)),
        best_rule(
            rules_in(rules, count, merge_slot(step.pending, step.piece, count) as int),
            step,
        ) == best_rule(rules, step),
    decreases rules.len(),
{
    if rules.len() > 0 {
        let slot = merge_slot(step.pending, step.piece, count) as int;
        lemma_bucketed_rules(rules.drop_last(), count, step);
        lemma_inserted(rules_in(rules.drop_last(), count, slot), rules.last(), step);
    }
}

/// Looking a pair up in its bucket is looking it up in the whole merge table.
pub proof fn a_bucketed_rule_is_found(rules: Seq<RuleView>, count: u32, step: StepView)
    requires
        count > 0,
    ensures
        merge_of(merge_table(rules, count), step) == best_rule(rules, step),
{
    assert(merge_table(rules, count).len() == count);
    lemma_bucketed_rules(rules, count, step);
}

/// Every bucket of a merge table is in rank order.
pub proof fn buckets_are_in_rank_order(rules: Seq<RuleView>, count: u32, slot: int)
    ensures
        in_rank_order(rules_in(rules, count, slot)),
    decreases rules.len(),
{
    if rules.len() > 0 {
        buckets_are_in_rank_order(rules.drop_last(), count, slot);
        lemma_inserted(
            rules_in(rules.drop_last(), count, slot),
            rules.last(),
            StepView { pending: Seq::empty(), has_pending: false, piece: Seq::empty() },
        );
    }
}

/// How evenly a bucketing came out.
#[derive(Clone, Copy, PartialEq, Eq, Structural, Debug)]
pub struct BucketStats {
    pub total: usize,
    pub max: usize,
    pub used: usize,
}

/// The sum of some sizes.
pub open spec fn total_size(sizes: Seq<usize>) -> int
    decreases sizes.len(),
{
    if sizes.len() == 0 {
        0
    } else {
        total_size(sizes.drop_last()) + sizes.last()
    }
}

/// The greatest of some sizes, zero for none.
pub open spec fn greatest(sizes: Seq<usize>) -> int
    decreases sizes.len(),
{
    if sizes.len() == 0 {
        0
    } else if sizes.last() > greatest(sizes.drop_last()) {
        sizes.last() as int
    } else {
        greatest(sizes.drop_last())
    }
}

/// How many of some sizes are not zero.
pub open spec fn used_count(sizes: Seq<usize>) -> int
    decreases sizes.len(),
{
    if sizes.len() == 0 {
        0
    } else if sizes.last() > 0 {
        used_count(sizes.drop_last()) + 1
    } else {
        used_count(sizes.drop_last())
    }
}

proof fn lemma_total_grows(sizes: Seq<usize>, k: int)
    requires
        0 <= k <= sizes.len(),
    ensures
        0 <= total_size(sizes.take(k)) <= total_size(sizes),
    decreases sizes.len(),
{
    if k < sizes.len() {
        lemma_total_grows(sizes.drop_last(), k);
        assert(sizes.drop_last().take(k) =~= sizes.take(k));
    } else {
        assert(sizes.take(k) =~= sizes);
        if sizes.len() > 0 {
            lemma_total_grows(sizes.drop_last(), k - 1);
            assert(sizes.drop_last().take(k - 1) =~= sizes.drop_last());
        }
    }
}

/// How evenly a bucketing came out: the number that a lookup costs is the greatest
/// size, not the mean.
pub fn bucket_stats(sizes: &Vec<usize>) -> (r: BucketStats)
    requires
        total_size(sizes@) <= usize::MAX,
    ensures
        r.total == total_size(sizes@),
        r.max == greatest(sizes@),
        r.used == used_count(sizes@),
{
    let mut total: usize = 0;
    let mut max: usize = 0;
    let mut used: usize = 0;
    let mut i: usize = 0;
    assert(sizes@.take(0) =~= Seq::empty());
    while i < sizes.len()
        invariant
            i <= sizes@.len(),
            total_size(sizes@) <= usize::MAX,
            total == total_size(sizes@.take(i as int)),
            max == greatest(sizes@.take(i as int)),
            used == used_count(sizes@.take(i as int)),
            used <= i,
        decreases sizes@.len() - i,
    {
        proof {
            assert(sizes@.take(i + 1).drop_last() =~= sizes@.take(i as int));
            lemma_total_grows(sizes@, i + 1);
        }
        let size: usize = sizes[i];
        if size > max {
            max = size;
        }
        total += size;
        if size > 0 {
            used += 1;
        }
        i += 1;
    }
    assert(sizes@.take(i as int) =~= sizes@);
    BucketStats { total, max, used }
}

proof fn lemma_same_round(
    a: Seq<Seq<RuleView>>,
    b: Seq<Seq<RuleView>>,
    terminator: Seq<char>,
    pieces: Seq<Seq<char>>,
)
    requires
        forall|step: StepView| #[trigger] merge_of(a, step) == merge_of(b, step),
    ensures
        round_of(a, terminator, pieces) == round_of(b, terminator, pieces),
        mergeable_pairs(a, pieces) == mergeable_pairs(b, pieces),
    decreases pieces.len(),
{
    if pieces.len() > 0 {
        lemma_same_round(a, b, terminator, pieces.drop_last());
        let state = round_of(a, terminator, pieces.drop_last());
        let step = StepView {
            pending: state.pending,
            has_pending: state.has_pending,
            piece: pieces.last(),
        };
        assert(merge_of(a, step) == merge_of(b, step));
    }
}

proof fn lemma_same_rounds(
    a: Seq<Seq<RuleView>>,
    b: Seq<Seq<RuleView>>,
    terminator: Seq<char>,
    pieces: Seq<Seq<char>>,
    n: nat,
)
    requires
        forall|step: StepView| #[trigger] merge_of(a, step) == merge_of(b, step),
    ensures
        rounds(a, terminator, pieces, n) == rounds(b, terminator, pieces, n),
    decreases n,
{
    if n > 0 {
        lemma_same_rounds(a, b, terminator, pieces, (n - 1) as nat);
        lemma_same_round(a, b, terminator, rounds(a, terminator, pieces, (n - 1) as nat));
    }
}

/// Bucketing changes no tokenization: a prompt gets the ids, or the refusal, that it
/// gets with each table in one piece.
pub proof fn bucketing_does_not_change_tokenization(
    entries: Seq<EntryView>,
    rules: Seq<RuleView>,
    vocab_count: u32,
    merge_count: u32,
    pieces: Seq<Seq<char>>,
)
    requires
        vocab_count > 0,
        merge_count > 0,
    ensures
        tokenized(
            TokenizerView {
                vocab_buckets: vocab_table(entries, vocab_count),
                merge_buckets: merge_table(rules, merge_count),
            },
            pieces,
        ) == tokenized(
            TokenizerView { vocab_buckets: seq![entries], merge_buckets: seq![rules] },
            pieces,
        ),
{
    let many = merge_table(rules, merge_count);
    let one = seq![rules];
    let vocab_many = vocab_table(entries, vocab_count);
    let vocab_one = seq![entries];
    assert forall|step: StepView| #[trigger] merge_of(many, step) == merge_of(one, step) by {
        a_bucketed_rule_is_found(rules, merge_count, step);
        assert(merge_slot(step.pending, step.piece, 1) == 0);
    }
    lemma_same_rounds(many, one, "</w>"@, pieces, MERGE_ROUNDS as nat);
    let merged = rounds(many, "</w>"@, pieces, MERGE_ROUNDS as nat);
    lemma_same_round(many, one, "</w>"@, merged);
    assert forall|piece: Seq<char>| #[trigger]
        vocab_of(vocab_many, piece) == vocab_of(vocab_one, piece) by {
        a_bucketed_token_is_found(entries, vocab_count, piece);
        assert(vocab_slot(piece, 1) == 0);
    }
    assert(stripped(merged, "</w>"@).map_values(
        |piece: Seq<char>| vocab_of(vocab_many, piece).token_id,
    ) =~= stripped(merged, "</w>"@).map_values(
        |piece: Seq<char>| vocab_of(vocab_one, piece).token_id,
    ));
}

} // verus!
