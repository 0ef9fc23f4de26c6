//! Byte order on texts, and a sort.

use crate::lists::views;
use vstd::prelude::*;
use vstd::utf8::{encode_utf8, encode_utf8_decode_utf8};

verus! {

/// Lexicographic order on byte strings.
pub open spec fn bytes_le(a: Seq<u8>, b: Seq<u8>) -> bool
    decreases a.len(),
{
    if a.len() == 0 {
        true
    } else if b.len() == 0 {
        false
    } else if a[0] != b[0] {
        a[0] < b[0]
    } else {
        bytes_le(a.drop_first(), b.drop_first())
    }
}

/// Order on texts: that of their UTF-8 bytes.
pub open spec fn text_le(a: Seq<char>, b: Seq<char>) -> bool {
    bytes_le(encode_utf8(a), encode_utf8(b))
}

/// Any two byte strings compare.
pub proof fn bytes_le_total(a: Seq<u8>, b: Seq<u8>)
    ensures
        bytes_le(a, b) || bytes_le(b, a),
    decreases a.len(),
{
    if a.len() > 0 && b.len() > 0 && a[0] == b[0] {
        bytes_le_total(a.drop_first(), b.drop_first());
    }
}

/// Byte order is transitive.
pub proof fn bytes_le_transitive(a: Seq<u8>, b: Seq<u8>, c: Seq<u8>)
    requires
        bytes_le(a, b),
        bytes_le(b, c),
    ensures
        bytes_le(a, c),
    decreases a.len(),
{
    if a.len() > 0 && b.len() > 0 && c.len() > 0 && a[0] == b[0] && b[0] == c[0] {
        bytes_le_transitive(a.drop_first(), b.drop_first(), c.drop_first());
    }
}

/// Two byte strings that are each no greater than the other are equal.
pub proof fn bytes_le_antisymmetric(a: Seq<u8>, b: Seq<u8>)
    requires
        bytes_le(a, b),
        bytes_le(b, a),
    ensures
        a == b,
    decreases a.len(),
{
    if a.len() > 0 && b.len() > 0 {
        bytes_le_antisymmetric(a.drop_first(), b.drop_first());
        assert(a =~= seq![a[0]] + a.drop_first());
        assert(b =~= seq![b[0]] + b.drop_first());
    } else {
        assert(a =~= b);
    }
}

/// Two texts that are each no greater than the other are equal.
pub proof fn text_le_antisymmetric(a: Seq<char>, b: Seq<char>)
    requires
        text_le(a, b),
        text_le(b, a),
    ensures
        a == b,
{
    bytes_le_antisymmetric(encode_utf8(a), encode_utf8(b));
    encode_utf8_decode_utf8(a);
    encode_utf8_decode_utf8(b);
}

proof fn lemma_common_prefix(a: Seq<u8>, b: Seq<u8>, k: nat)
    requires
        k <= a.len(),
        k <= b.len(),
        forall|i: int| 0 <= i < k ==> a[i] == b[i],
    ensures
        bytes_le(a, b) == bytes_le(a.skip(k as int), b.skip(k as int)),
    decreases k,
{
    if k == 0 {
        assert(a.skip(0) =~= a);
        assert(b.skip(0) =~= b);
    } else {
        let a1 = a.drop_first();
        let b1 = b.drop_first();
        assert forall|i: int| 0 <= i < k - 1 implies a1[i] == b1[i] by {
            assert(a[i + 1] == b[i + 1]);
        }
        lemma_common_prefix(a1, b1, (k - 1) as nat);
        assert(a1.skip(k - 1) =~= a.skip(k as int));
        assert(b1.skip(k - 1) =~= b.skip(k as int));
    }
}

/// Whether one byte string comes no later than another.
pub fn bytes_in_order(a: &[u8], b: &[u8]) -> (r: bool)
    ensures
        r == bytes_le(a@, b@),
{
    let mut i: usize = 0;
    while i < a.len() && i < b.len() && a[i] == b[i]
        invariant
            i <= a.len(),
            i <= b.len(),
            forall|j: int| 0 <= j < i ==> a@[j] == b@[j],
        decreases a.len() - i,
    {
        i += 1;
    }
    proof {
        lemma_common_prefix(a@, b@, i as nat);
    }
    if i == a.len() {
        true
    } else if i == b.len() {
        false
    } else {
        a[i] < b[i]
    }
}

/// Whether one text comes no later than another.
pub fn text_in_order(a: &str, b: &str) -> (r: bool)
    ensures
        r == text_le(a@, b@),
{
    bytes_in_order(a.as_bytes(), b.as_bytes())
}

/// Values with a total order.
pub trait Ranked: Sized {
    /// The order.
    spec fn ranks_before(&self, other: &Self) -> bool;

    /// Any two values compare.
    proof fn total(a: &Self, b: &Self)
        ensures
            a.ranks_before(b) || b.ranks_before(a),
    ;

    /// The order is transitive.
    proof fn transitive(a: &Self, b: &Self, c: &Self)
        requires
            a.ranks_before(b),
            b.ranks_before(c),
        ensures
            a.ranks_before(c),
    ;

    /// Decides the order.
    fn in_order(&self, other: &Self) -> (r: bool)
        ensures
            r == self.ranks_before(other),
    ;
}

/// Every item comes no later than those after it.
pub open spec fn ascending<T: Ranked>(items: Seq<T>) -> bool {
    forall|i: int, j: int|
        #![trigger items[i], items[j]]
        0 <= i < j < items.len() ==> items[i].ranks_before(&items[j])
}

/// Every item comes no earlier than those after it.
spec fn descending<T: Ranked>(items: Seq<T>) -> bool {
    forall|i: int, j: int|
        #![trigger items[i], items[j]]
        0 <= i < j < items.len() ==> items[j].ranks_before(&items[i])
}

fn reversed<T: Ranked>(items: Vec<T>) -> (r: Vec<T>)
    ensures
        r@ == items@.reverse(),
{
    let ghost start = items@;
    let mut items: Vec<T> = items;
    let mut r: Vec<T> = Vec::new();
    while items.len() > 0
        invariant
            items@.len() + r@.len() == start.len(),
            items@ == start.take(items@.len() as int),
            forall|i: int| 0 <= i < r@.len() ==> r@[i] == start[start.len() - 1 - i],
        decreases items.len(),
    {
        let ghost before = items@;
        match items.pop() {
            Some(item) => {
                r.push(item);
            },
            None => {},
        }
        assert(items@ =~= start.take(items@.len() as int));
    }
    assert(r@ =~= start.reverse());
    r
}

proof fn lemma_reverse_multiset<T>(s: Seq<T>)
    ensures
        s.reverse().to_multiset() == s.to_multiset(),
    decreases s.len(),
{
    broadcast use vstd::seq_lib::group_to_multiset_ensures;

    if s.len() == 0 {
        assert(s.reverse() =~= s);
    } else {
        let rest = s.drop_last();
        lemma_reverse_multiset(rest);
        assert(s =~= rest.push(s.last()));
        assert(s.reverse() =~= seq![s.last()] + rest.reverse());
        vstd::seq_lib::lemma_multiset_commutative(seq![s.last()], rest.reverse());
        assert(seq![s.last()] =~= Seq::<T>::empty().push(s.last()));
    }
}

/// Merges two descending runs into an ascending one.
fn merge<T: Ranked>(a: Vec<T>, b: Vec<T>) -> (r: Vec<T>)
    requires
        descending(a@),
        descending(b@),
    ensures
        ascending(r@),
        r@.to_multiset() == a@.to_multiset().add(b@.to_multiset()),
{
    broadcast use vstd::seq_lib::group_to_multiset_ensures;

    let ghost all = a@.to_multiset().add(b@.to_multiset());
    let mut a: Vec<T> = a;
    let mut b: Vec<T> = b;
    let mut r: Vec<T> = Vec::new();
    assert(r@.to_multiset().add(a@.to_multiset().add(b@.to_multiset())) =~= all);
    while a.len() > 0 || b.len() > 0
        invariant
            descending(a@),
            descending(b@),
            ascending(r@),
            forall|i: int, j: int|
                #![trigger r@[i], a@[j]]
                0 <= i < r@.len() && 0 <= j < a@.len() ==> r@[i].ranks_before(&a@[j]),
            forall|i: int, j: int|
                #![trigger r@[i], b@[j]]
                0 <= i < r@.len() && 0 <= j < b@.len() ==> r@[i].ranks_before(&b@[j]),
            r@.to_multiset().add(a@.to_multiset().add(b@.to_multiset())) == all,
        decreases a.len() + b.len(),
    {
        broadcast use vstd::seq_lib::group_to_multiset_ensures;

        let take_a: bool = if a.len() == 0 {
            false
        } else if b.len() == 0 {
            true
        } else {
            a[a.len() - 1].in_order(&b[b.len() - 1])
        };
        let ghost a0 = a@;
        let ghost b0 = b@;
        let ghost r0 = r@;
        if take_a {
            proof {
                assert forall|j: int| 0 <= j < b0.len() implies #[trigger] a0.last().ranks_before(&b0[j]) by {
                    if j < b0.len() - 1 {
                        assert(b0[b0.len() - 1].ranks_before(&b0[j]));
                        T::transitive(&a0.last(), &b0[b0.len() - 1], &b0[j]);
                    }
                }
            }
            match a.pop() {
                Some(item) => {
                    r.push(item);
                },
                None => {},
            }
            proof {
                assert(a0 =~= a@.push(a0.last()));
                assert(r@ =~= r0.push(a0.last()));
                assert(r@.to_multiset().add(a@.to_multiset().add(b@.to_multiset())) =~= all);
            }
        } else {
            proof {
                if a0.len() > 0 {
                    T::total(&a0.last(), &b0.last());
                }
                assert forall|j: int| 0 <= j < a0.len() implies #[trigger] b0.last().ranks_before(&a0[j]) by {
                    if j < a0.len() - 1 {
                        assert(a0[a0.len() - 1].ranks_before(&a0[j]));
                        T::transitive(&b0.last(), &a0[a0.len() - 1], &a0[j]);
                    }
                }
            }
            match b.pop() {
                Some(item) => {
                    r.push(item);
                },
                None => {},
            }
            proof {
                assert(b0 =~= b@.push(b0.last()));
                assert(r@ =~= r0.push(b0.last()));
                assert(r@.to_multiset().add(a@.to_multiset().add(b@.to_multiset())) =~= all);
            }
        }
    }
    assert(a@ =~= Seq::empty());
    assert(b@ =~= Seq::empty());
    assert(r@.to_multiset() =~= all);
    r
}

/// Sorts a list: the same items, in ascending order.
pub fn sorted<T: Ranked>(items: Vec<T>) -> (r: Vec<T>)
    ensures
        ascending(r@),
        r@.to_multiset() == items@.to_multiset(),
        r@.len() == items@.len(),
    decreases items@.len(),
{
    broadcast use vstd::seq_lib::group_to_multiset_ensures;

    let ghost start = items@;
    let mut items: Vec<T> = items;
    if items.len() < 2 {
        return items;
    }
    let mid: usize = items.len() / 2;
    let right: Vec<T> = items.split_off(mid);
    proof {
        assert(start =~= items@ + right@);
        vstd::seq_lib::lemma_multiset_commutative(items@, right@);
    }
    let left: Vec<T> = sorted(items);
    let right: Vec<T> = sorted(right);
    proof {
        lemma_reverse_multiset(left@);
        lemma_reverse_multiset(right@);
    }
    let left: Vec<T> = reversed(left);
    let right: Vec<T> = reversed(right);
    let r: Vec<T> = merge(left, right);
    assert(r@.to_multiset().len() == start.to_multiset().len());
    r
}

/// Lists of the same items in another order have the same views in another order.
pub proof fn same_items_same_views<T: View>(a: Seq<T>, b: Seq<T>)
    requires
        a.to_multiset() == b.to_multiset(),
    ensures
        views(a).to_multiset() == views(b).to_multiset(),
    decreases a.len(),
{
    broadcast use vstd::seq_lib::group_to_multiset_ensures;

    vstd::seq_lib::to_multiset_len(a);
    vstd::seq_lib::to_multiset_len(b);
    if a.len() == 0 {
        assert(views(a) =~= views(b));
    } else {
        let x = a.last();
        let rest = a.drop_last();
        assert(a =~= rest.push(x));
        assert(b.to_multiset().count(x) > 0);
        assert(b.contains(x));
        let j = b.index_of(x);
        let others = b.remove(j);
        assert(others.to_multiset() =~= rest.to_multiset());
        same_items_same_views(rest, others);
        assert(views(a) =~= views(rest).push(x@));
        assert(views(b) =~= views(others).insert(j, x@));
    }
}

/// Order on texts is total.
pub proof fn text_le_total(a: Seq<char>, b: Seq<char>)
    ensures
        text_le(a, b) || text_le(b, a),
{
    bytes_le_total(encode_utf8(a), encode_utf8(b));
}

/// Order on texts is transitive.
pub proof fn text_le_transitive(a: Seq<char>, b: Seq<char>, c: Seq<char>)
    requires
        text_le(a, b),
        text_le(b, c),
    ensures
        text_le(a, c),
{
    bytes_le_transitive(encode_utf8(a), encode_utf8(b), encode_utf8(c));
}

impl Ranked for String {
    /// The order of texts.
    open spec fn ranks_before(&self, other: &String) -> bool {
        text_le(self@, other@)
    }

    proof fn total(a: &String, b: &String) {
        text_le_total(a@, b@);
    }

    proof fn transitive(a: &String, b: &String, c: &String) {
        text_le_transitive(a@, b@, c@);
    }

    fn in_order(&self, other: &String) -> (r: bool) {
        text_in_order(self.as_str(), other.as_str())
    }
}

/// A set of texts, in order.
pub struct Lexicon {
    words: Vec<String>,
}

impl Lexicon {
    /// The texts.
    pub closed spec fn words(self) -> Seq<Seq<char>> {
        views(self.words@)
    }

    #[verifier::type_invariant]
    spec fn well_formed(self) -> bool {
        ascending(self.words@)
    }

    /// The set of some texts.
    pub fn new(words: Vec<String>) -> (r: Lexicon)
        ensures
            r.words().to_multiset() == views(words@).to_multiset(),
    {
        let ghost start = words@;
        let words: Vec<String> = sorted(words);
        proof {
            same_items_same_views(words@, start);
        }
        Lexicon { words }
    }

    /// Whether a text is in the set.
    pub fn contains(&self, word: &str) -> (r: bool)
        ensures
            r == self.words().contains(word@),
    {
        proof {
            use_type_invariant(self);
        }
        let ghost all = self.words();
        let wanted: String = String::from_str(word);
        let mut low: usize = 0;
        let mut high: usize = self.words.len();
        while low < high
            invariant
                low <= high <= self.words@.len(),
                ascending(self.words@),
                all == views(self.words@),
                wanted@ == word@,
                forall|j: int| 0 <= j < low ==> #[trigger] all[j] != word@,
                forall|j: int| high <= j < all.len() ==> #[trigger] all[j] != word@,
            decreases high - low,
        {
            let mid: usize = low + (high - low) / 2;
            assert(all[mid as int] == self.words@[mid as int]@);
            if self.words[mid] == wanted {
                return true;
            }
            if text_in_order(self.words[mid].as_str(), word) {
                assert forall|j: int| 0 <= j <= mid implies #[trigger] all[j] != word@ by {
                    if all[j] == word@ && j < mid {
                        assert(self.words@[j].ranks_before(&self.words@[mid as int]));
                        text_le_antisymmetric(word@, all[mid as int]);
                    }
                }
                low = mid + 1;
            } else {
                assert forall|j: int| mid <= j < all.len() implies #[trigger] all[j] != word@ by {
                    if all[j] == word@ && mid < j {
                        assert(self.words@[mid as int].ranks_before(&self.words@[j]));
                    }
                }
                high = mid;
            }
        }
        assert forall|j: int| 0 <= j < all.len() implies #[trigger] all[j] != word@ by {}
        false
    }
}

} // verus!
