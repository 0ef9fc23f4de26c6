//! Texts made of lines.

use crate::lists::{views, views_of_empty, views_of_push};
use crate::text::{chars_of, text_of};
use vstd::prelude::*;

verus! {

/// The text of some lines, each ended by a line feed.
pub open spec fn joined(lines: Seq<Seq<char>>) -> Seq<char>
    decreases lines.len(),
{
    if lines.len() == 0 {
        Seq::empty()
    } else {
        joined(lines.drop_last()) + lines.last() + seq!['\n']
    }
}

/// Joins lines into a text.
pub fn join_lines(lines: &Vec<String>) -> (r: String)
    ensures
        r@ == joined(views(lines@)),
{
    let ghost all = views(lines@);
    let mut s: String = String::new();
    let mut i: usize = 0;
    assert(all.take(0) =~= Seq::empty());
    while i < lines.len()
        invariant
            i <= lines@.len(),
            all == views(lines@),
            s@ == joined(all.take(i as int)),
        decreases lines@.len() - i,
    {
        assert(all.take(i + 1).drop_last() =~= all.take(i as int));
        assert(all.take(i + 1).last() == lines@[i as int]@);
        let ghost before = s@;
        s.append(lines[i].as_str());
        s.push('\n');
        assert(s@ =~= before + all[i as int] + seq!['\n']);
        i += 1;
    }
    assert(all.take(i as int) =~= all);
    s
}

/// The place of the first line feed of a text, or its length.
pub open spec fn first_feed(s: Seq<char>) -> int
    decreases s.len(),
{
    if s.len() == 0 || s[0] == '\n' {
        0
    } else {
        1 + first_feed(s.drop_first())
    }
}

/// A line without the carriage return before its line feed.
pub open spec fn without_return(line: Seq<char>) -> Seq<char> {
    if line.len() > 0 && line.last() == '\r' {
        line.drop_last()
    } else {
        line
    }
}

/// The lines of a text, which end with a line feed, or a carriage return and a line
/// feed; the last may end with the text.
pub open spec fn lines_of(s: Seq<char>) -> Seq<Seq<char>>
    decreases s.len(),
{
    let k = first_feed(s);
    if s.len() == 0 {
        Seq::empty()
    } else if 0 <= k < s.len() {
        seq![without_return(s.take(k))] + lines_of(s.skip(k + 1))
    } else {
        seq![s]
    }
}

proof fn lemma_first_feed(s: Seq<char>, k: int)
    requires
        0 <= k <= s.len(),
        forall|j: int| 0 <= j < k ==> s[j] != '\n',
        k < s.len() ==> s[k] == '\n',
    ensures
        first_feed(s) == k,
    decreases s.len(),
{
    if k > 0 {
        assert(s[0] != '\n');
        let rest = s.drop_first();
        assert forall|j: int| 0 <= j < k - 1 implies rest[j] != '\n' by {
            assert(s[j + 1] != '\n');
        }
        lemma_first_feed(rest, k - 1);
    }
}

/// The lines of a text.
pub fn split_lines(s: &str) -> (r: Vec<String>)
    ensures
        views(r@) == lines_of(s@),
{
    broadcast use views_of_push;
    broadcast use views_of_empty;

    let chars: Vec<char> = chars_of(s);
    let ghost whole = lines_of(chars@);
    let len: usize = chars.len();
    let mut lines: Vec<String> = Vec::new();
    let mut at: usize = 0;
    assert(chars@.skip(0) =~= chars@);
    assert(views(lines@) + lines_of(chars@.skip(0)) =~= whole);
    while at < len
        invariant
            at <= len,
            len == chars@.len(),
            views(lines@) + lines_of(chars@.skip(at as int)) == whole,
        decreases len - at,
    {
        broadcast use views_of_push;

        let ghost rest = chars@.skip(at as int);
        let ghost before = views(lines@);
        let mut end: usize = at;
        while end < len && chars[end] != '\n'
            invariant
                at <= end <= len,
                len == chars@.len(),
                rest == chars@.skip(at as int),
                forall|j: int| 0 <= j < end - at ==> rest[j] != '\n',
            decreases len - end,
        {
            assert(rest[end - at] == chars@[end as int]);
            end += 1;
        }
        proof {
            if end < len {
                assert(rest[end - at] == chars@[end as int]);
            }
            lemma_first_feed(rest, end - at);
        }
        if end < len {
            assert(rest.take(end - at) =~= chars@.subrange(at as int, end as int));
            assert(rest.skip(end - at + 1) =~= chars@.skip(end + 1));
            let stop: usize = if end > at && chars[end - 1] == '\r' {
                end - 1
            } else {
                end
            };
            let line: String = text_of(&chars[at..stop]);
            assert(line@ =~= without_return(rest.take(end - at)));
            let ghost text = line@;
            lines.push(line);
            assert(before.push(text) + lines_of(chars@.skip(end + 1)) =~= before + (seq![text]
                + lines_of(chars@.skip(end + 1))));
            at = end + 1;
        } else {
            let line: String = text_of(&chars[at..end]);
            assert(line@ =~= rest);
            let ghost text = line@;
            lines.push(line);
            assert(chars@.skip(end as int) =~= Seq::empty());
            assert(before.push(text) + lines_of(chars@.skip(end as int)) =~= before + seq![text]);
            at = end;
        }
    }
    assert(chars@.skip(at as int) =~= Seq::empty());
    assert(views(lines@) + lines_of(chars@.skip(at as int)) =~= views(lines@));
    lines
}

/// A line of text holds no line feed and does not end with a carriage return.
pub open spec fn is_line(s: Seq<char>) -> bool {
    !s.contains('\n') && (s.len() > 0 ==> s.last() != '\r')
}

proof fn lemma_joined_first(lines: Seq<Seq<char>>)
    requires
        lines.len() > 0,
    ensures
        joined(lines) == lines[0] + seq!['\n'] + joined(lines.drop_first()),
    decreases lines.len(),
{
    if lines.len() == 1 {
        assert(lines.drop_last() =~= Seq::empty());
        assert(lines.drop_first() =~= Seq::empty());
        assert(joined(lines) =~= lines[0] + seq!['\n'] + joined(lines.drop_first()));
    } else {
        lemma_joined_first(lines.drop_last());
        let rest = lines.drop_first();
        assert(lines.drop_last().drop_first() =~= rest.drop_last());
        assert(rest.last() == lines.last());
        assert(joined(lines) =~= lines[0] + seq!['\n'] + joined(rest));
    }
}

/// Splitting a text that was joined out of lines gives the lines.
pub proof fn splitting_undoes_joining(lines: Seq<Seq<char>>)
    requires
        forall|i: int| 0 <= i < lines.len() ==> is_line(#[trigger] lines[i]),
    ensures
        lines_of(joined(lines)) == lines,
    decreases lines.len(),
{
    if lines.len() == 0 {
        assert(lines_of(joined(lines)) =~= lines);
    } else {
        let line = lines[0];
        let rest = lines.drop_first();
        let s = joined(lines);
        lemma_joined_first(lines);
        assert(is_line(line));
        assert forall|j: int| 0 <= j < line.len() implies s[j] != '\n' by {
            assert(s[j] == line[j]);
            assert(line.contains(line[j]));
        }
        assert(s[line.len() as int] == '\n');
        lemma_first_feed(s, line.len() as int);
        assert(s.take(line.len() as int) =~= line);
        assert(s.skip(line.len() as int + 1) =~= joined(rest));
        assert forall|i: int| 0 <= i < rest.len() implies is_line(#[trigger] rest[i]) by {
            assert(rest[i] == lines[i + 1]);
        }
        splitting_undoes_joining(rest);
        assert(seq![line] + rest =~= lines);
    }
}

/// Whether a pattern stands at a place of a text.
pub open spec fn stands_at(s: Seq<char>, pattern: Seq<char>, at: int) -> bool {
    0 <= at && at + pattern.len() <= s.len() && s.subrange(at, at + pattern.len()) == pattern
}

/// Whether a place is the first at which a pattern stands.
pub open spec fn first_at(s: Seq<char>, pattern: Seq<char>, at: int) -> bool {
    stands_at(s, pattern, at) && forall|j: int| 0 <= j < at ==> !stands_at(s, pattern, j)
}

/// The first place at which a pattern stands in a text.
pub open spec fn found_at(s: Seq<char>, pattern: Seq<char>) -> Option<int> {
    if exists|at: int| first_at(s, pattern, at) {
        Some(choose|at: int| first_at(s, pattern, at))
    } else {
        None
    }
}

/// A place is found exactly if it is the first.
pub proof fn lemma_found(s: Seq<char>, pattern: Seq<char>, at: int)
    requires
        first_at(s, pattern, at),
    ensures
        found_at(s, pattern) == Some(at),
{
    let k = choose|k: int| first_at(s, pattern, k);
    assert(first_at(s, pattern, k));
    if k < at {
        assert(!stands_at(s, pattern, k));
    } else if at < k {
        assert(!stands_at(s, pattern, at));
    }
}

/// Whether a pattern stands at a place.
pub fn matches_at(s: &[char], pattern: &[char], at: usize) -> (r: bool)
    requires
        at <= s@.len(),
    ensures
        r == stands_at(s@, pattern@, at as int),
{
    if pattern.len() > s.len() - at {
        return false;
    }
    let len: usize = s.len();
    let mut i: usize = 0;
    while i < pattern.len()
        invariant
            i <= pattern@.len(),
            at + pattern@.len() <= len,
            len == s@.len(),
            forall|j: int| 0 <= j < i ==> s@[at + j] == #[trigger] pattern@[j],
        decreases pattern@.len() - i,
    {
        if s[at + i] != pattern[i] {
            assert(s@.subrange(at as int, at + pattern@.len())[i as int] != pattern@[i as int]);
            return false;
        }
        i += 1;
    }
    assert(s@.subrange(at as int, at + pattern@.len()) =~= pattern@);
    true
}

/// The first place at which a pattern stands in a text.
pub fn find(s: &[char], pattern: &[char]) -> (r: Option<usize>)
    ensures
        match found_at(s@, pattern@) {
            Some(at) => r matches Some(k) && k == at && k + pattern@.len() <= s@.len(),
            None => r is None,
        },
{
    let mut at: usize = 0;
    let len: usize = s.len();
    while at < len
        invariant
            at <= len,
            len == s@.len(),
            forall|j: int| 0 <= j < at ==> !stands_at(s@, pattern@, j),
        decreases len - at,
    {
        if matches_at(s, pattern, at) {
            proof {
                lemma_found(s@, pattern@, at as int);
            }
            return Some(at);
        }
        at += 1;
    }
    if matches_at(s, pattern, at) {
        proof {
            lemma_found(s@, pattern@, at as int);
        }
        return Some(at);
    }
    proof {
        assert forall|k: int| !first_at(s@, pattern@, k) by {}
    }
    None
}

} // verus!
