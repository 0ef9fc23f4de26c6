//! What the importer's orders, lines, tables and command lines come to.

use crate::model_import::args::{
    digits_value, no_args, parsed_args, parsed_u32, read_args, task_of, ArgsView, Task,
};
use crate::model_import::buckets::{bucket_count, greatest, used_count};
use crate::model_import::order::bytes_le;
use crate::model_import::text_lines::{first_feed, lines_of};
use crate::output_laws::{a_rendered_number_reads_back, decimal_value};
use crate::text::dec;
use vstd::prelude::*;

verus! {

/// One byte string comes before another exactly if it is the start of it, or has the
/// smaller byte where they first differ.
pub proof fn byte_order_is_lexicographic(a: Seq<u8>, b: Seq<u8>)
    ensures
        bytes_le(a, b) <==> (a.len() <= b.len() && a == b.take(a.len() as int)) || exists|k: int|
            #![trigger a[k]]
            0 <= k < a.len() && k < b.len() && a.take(k) == b.take(k) && a[k] < b[k],
    decreases a.len(),
{
    if a.len() == 0 {
        assert(a =~= b.take(0));
    } else if b.len() > 0 {
        let x = a.drop_first();
        let y = b.drop_first();
        if a[0] == b[0] {
            byte_order_is_lexicographic(x, y);
            assert(x.len() <= y.len() && x == y.take(x.len() as int) ==> a =~= b.take(
                a.len() as int,
            )) by {
                if x.len() <= y.len() && x == y.take(x.len() as int) {
                    assert forall|i: int| 0 <= i < a.len() implies a[i] == b[i] by {
                        if i > 0 {
                            assert(x[i - 1] == y.take(x.len() as int)[i - 1]);
                        }
                    }
                }
            }
            if a.len() <= b.len() && a == b.take(a.len() as int) {
                assert(x =~= y.take(x.len() as int)) by {
                    assert forall|i: int| 0 <= i < x.len() implies x[i] == y[i] by {
                        assert(a[i + 1] == b.take(a.len() as int)[i + 1]);
                    }
                }
            }
            if exists|k: int|
                #![trigger x[k]]
                0 <= k < x.len() && k < y.len() && x.take(k) == y.take(k) && x[k] < y[k] {
                let k = choose|k: int|
                    #![trigger x[k]]
                    0 <= k < x.len() && k < y.len() && x.take(k) == y.take(k) && x[k] < y[k];
                assert(a[k + 1] == x[k]);
                assert(a.take(k + 1) =~= b.take(k + 1)) by {
                    assert forall|i: int| 0 <= i < k + 1 implies a[i] == b[i] by {
                        if i > 0 {
                            assert(x.take(k)[i - 1] == y.take(k)[i - 1]);
                        }
                    }
                }
            }
            if exists|k: int|
                #![trigger a[k]]
                0 <= k < a.len() && k < b.len() && a.take(k) == b.take(k) && a[k] < b[k] {
                let k = choose|k: int|
                    #![trigger a[k]]
                    0 <= k < a.len() && k < b.len() && a.take(k) == b.take(k) && a[k] < b[k];
                assert(k > 0);
                assert(x[k - 1] == a[k]);
                assert(x.take(k - 1) =~= y.take(k - 1)) by {
                    assert forall|i: int| 0 <= i < k - 1 implies x[i] == y[i] by {
                        assert(a.take(k)[i + 1] == b.take(k)[i + 1]);
                    }
                }
            }
        } else {
            if a.len() <= b.len() && a == b.take(a.len() as int) {
                assert(a[0] == b.take(a.len() as int)[0]);
            }
            if a[0] < b[0] {
                assert(a.take(0) =~= b.take(0));
            }
            if exists|k: int|
                #![trigger a[k]]
                0 <= k < a.len() && k < b.len() && a.take(k) == b.take(k) && a[k] < b[k] {
                let k = choose|k: int|
                    #![trigger a[k]]
                    0 <= k < a.len() && k < b.len() && a.take(k) == b.take(k) && a[k] < b[k];
                if k > 0 {
                    assert(a.take(k)[0] == b.take(k)[0]);
                }
            }
        }
    }
}

/// A line ends at its line feed, without a carriage return before it; what is behind the
/// last line feed is a line of its own.
pub proof fn a_line_ends_at_its_line_feed(line: Seq<char>, rest: Seq<char>)
    requires
        !line.contains('\n'),
        line.len() > 0 ==> line.last() != '\r',
    ensures
        lines_of(line + seq!['\n'] + rest) == seq![line] + lines_of(rest),
        lines_of(line + seq!['\r', '\n'] + rest) == seq![line] + lines_of(rest),
        line.len() > 0 ==> lines_of(line) == seq![line],
        lines_of(Seq::empty()).len() == 0,
{
    let s = line + seq!['\n'] + rest;
    lemma_feed_at(s, line.len() as int);
    assert(s.take(line.len() as int) =~= line);
    assert(s.skip(line.len() as int + 1) =~= rest);
    let marked = line.push('\r');
    let t = line + seq!['\r', '\n'] + rest;
    assert(t =~= marked + seq!['\n'] + rest);
    assert(!marked.contains('\n')) by {
        if marked.contains('\n') {
            let k = marked.index_of('\n');
            assert(k < line.len());
            assert(line[k] == '\n');
        }
    }
    lemma_feed_at(t, marked.len() as int);
    assert(t.take(marked.len() as int) =~= marked);
    assert(marked.drop_last() =~= line);
    assert(t.skip(marked.len() as int + 1) =~= rest);
    if line.len() > 0 {
        lemma_feed_at(line, line.len() as int);
    }
}

proof fn lemma_feed_at(s: Seq<char>, k: int)
    requires
        0 <= k <= s.len(),
        !s.take(k).contains('\n'),
        k < s.len() ==> s[k] == '\n',
    ensures
        first_feed(s) == k,
    decreases s.len(),
{
    if k > 0 {
        let head = s.take(k);
        assert(head.contains(head[0]));
        let rest = s.drop_first();
        assert(!rest.take(k - 1).contains('\n')) by {
            if rest.take(k - 1).contains('\n') {
                let j = rest.take(k - 1).index_of('\n');
                assert(head[j + 1] == '\n');
                assert(head.contains('\n'));
            }
        }
        lemma_feed_at(rest, k - 1);
    }
}

/// There is a bucket for every four keys, and one for fewer.
pub proof fn there_is_a_bucket_for_every_four_keys(len: nat)
    requires
        len < 0x4_0000_0000,
    ensures
        len < 4 ==> bucket_count(len) == 1,
        len >= 4 ==> 4 * bucket_count(len) <= len < 4 * bucket_count(len) + 4,
{
}

/// The greatest size is one of the sizes and none is greater; the used buckets are those
/// of a size other than zero.
pub proof fn statistics_are_over_all_buckets(sizes: Seq<usize>)
    ensures
        forall|i: int| 0 <= i < sizes.len() ==> (#[trigger] sizes[i]) <= greatest(sizes),
        sizes.len() > 0 ==> exists|i: int|
            0 <= i < sizes.len() && (#[trigger] sizes[i]) == greatest(sizes),
        used_count(sizes) == sizes.filter(|size: usize| size != 0).len(),
    decreases sizes.len(),
{
    reveal(Seq::filter);
    if sizes.len() > 0 {
        let rest = sizes.drop_last();
        let n = sizes.len() - 1;
        statistics_are_over_all_buckets(rest);
        assert forall|i: int| 0 <= i < sizes.len() implies (#[trigger] sizes[i]) <= greatest(
            sizes,
        ) by {
            if i < n {
                assert(rest[i] == sizes[i]);
            }
        }
        if sizes[n] > greatest(rest) || n == 0 {
            assert(sizes[n] == greatest(sizes));
        } else {
            let i = choose|i: int| 0 <= i < rest.len() && (#[trigger] rest[i]) == greatest(rest);
            assert(sizes[i] == greatest(sizes));
        }
    }
}

proof fn lemma_digits(s: Seq<char>)
    requires
        forall|i: int| 0 <= i < s.len() ==> '0' <= (#[trigger] s[i]) <= '9',
    ensures
        digits_value(s) == Some(decimal_value(s)),
    decreases s.len(),
{
    if s.len() > 0 {
        let rest = s.drop_last();
        assert forall|i: int| 0 <= i < rest.len() implies '0' <= (#[trigger] rest[i]) <= '9' by {
            assert(rest[i] == s[i]);
        }
        lemma_digits(rest);
        assert('0' <= s[s.len() - 1] <= '9');
    }
}

proof fn lemma_no_digit(c: char)
    requires
        !('0' <= c <= '9'),
    ensures
        !(48 <= c as u32 <= 57),
{
}

proof fn lemma_no_digits(s: Seq<char>, k: int)
    requires
        0 <= k < s.len(),
        !('0' <= s[k] <= '9'),
    ensures
        digits_value(s) is None,
    decreases s.len(),
{
    if k < s.len() - 1 {
        assert(s.drop_last()[k] == s[k]);
        lemma_no_digits(s.drop_last(), k);
    } else {
        let c: char = s[k];
        lemma_no_digit(c);
        assert(s.last() == c);
    }
}

/// Numbers are read in decimal, with or without a plus sign, up to the greatest that fits
/// 32 bits; nothing with another character in it is a number, and neither is an empty
/// text.
pub proof fn numbers_are_read_in_decimal(n: nat, s: Seq<char>, k: int)
    ensures
        n <= u32::MAX ==> parsed_u32(dec(n)) == Some(n as u32),
        n <= u32::MAX ==> parsed_u32(seq!['+'] + dec(n)) == Some(n as u32),
        n > u32::MAX ==> parsed_u32(dec(n)) is None,
        0 <= k < s.len() && !('0' <= s[k] <= '9') && !(k == 0 && s[k] == '+') ==> parsed_u32(
            s,
        ) is None,
        parsed_u32(Seq::empty()) is None,
        parsed_u32(seq!['+']) is None,
{
    a_rendered_number_reads_back(n);
    lemma_digits(dec(n));
    assert((seq!['+'] + dec(n)).drop_first() =~= dec(n));
    assert(dec(n)[0] != '+');
    if 0 <= k < s.len() && !('0' <= s[k] <= '9') && !(k == 0 && s[k] == '+') {
        lemma_no_digits(s, k);
        if s[0] == '+' {
            assert(s.drop_first()[k - 1] == s[k]);
            lemma_no_digits(s.drop_first(), k - 1);
        }
    }
}

/// Every option sets what it is named for, and the rest of the command line is read on
/// from there.
pub proof fn an_option_sets_what_it_is_named_for(
    so_far: ArgsView,
    value: Seq<char>,
    rest: Seq<Seq<char>>,
)
    ensures
        read_args(so_far, seq!["--model"@, value] + rest) == read_args(
            ArgsView { model_dir: Some(value), ..so_far },
            rest,
        ),
        read_args(so_far, seq!["--prompt"@, value] + rest) == read_args(
            ArgsView { prompt: value, ..so_far },
            rest,
        ),
        read_args(so_far, seq!["--manifest"@, value] + rest) == read_args(
            ArgsView { manifest: Some(value), ..so_far },
            rest,
        ),
        parsed_u32(value) matches Some(n) ==> read_args(so_far, seq!["--tokens"@, value] + rest)
            == read_args(ArgsView { tokens: n, ..so_far }, rest),
        parsed_u32(value) is None ==> read_args(so_far, seq!["--tokens"@, value] + rest) is Err,
        read_args(so_far, seq!["--raw-prompt"@] + rest) == read_args(
            ArgsView { raw_prompt: true, ..so_far },
            rest,
        ),
        read_args(so_far, seq!["--only-tokenizer"@] + rest) == read_args(
            ArgsView { only_tokenizer: true, ..so_far },
            rest,
        ),
        read_args(so_far, seq!["--only-layers"@] + rest) == read_args(
            ArgsView { only_layers: true, ..so_far },
            rest,
        ),
        read_args(so_far, seq!["--only-embedding"@] + rest) == read_args(
            ArgsView { only_embedding: true, ..so_far },
            rest,
        ),
        read_args(so_far, seq!["--only-ple"@] + rest) == read_args(
            ArgsView { only_ple: true, ..so_far },
            rest,
        ),
        read_args(so_far, seq!["--prompt"@]) is Err,
        read_args(so_far, seq!["--tokens"@]) is Err,
{
    reveal_strlit("--model");
    reveal_strlit("--prompt");
    reveal_strlit("--manifest");
    reveal_strlit("--tokens");
    reveal_strlit("--raw-prompt");
    reveal_strlit("--only-tokenizer");
    reveal_strlit("--only-layers");
    reveal_strlit("--only-embedding");
    reveal_strlit("--only-ple");
    assert("--prompt"@.len() == 8 && "--model"@.len() == 7 && "--tokens"@.len() == 8);
    assert("--tokens"@[2] != "--prompt"@[2]);
    assert("--raw-prompt"@.len() == 12 && "--manifest"@.len() == 10 && "--only-ple"@.len() == 10);
    assert("--manifest"@[2] != "--only-ple"@[2]);
    assert("--only-tokenizer"@.len() == 16 && "--only-embedding"@.len() == 16);
    assert("--only-tokenizer"@[7] != "--only-embedding"@[7]);
    assert("--only-layers"@.len() == 13);
    lemma_with_value("--model"@, value, rest);
    lemma_with_value("--prompt"@, value, rest);
    lemma_with_value("--manifest"@, value, rest);
    lemma_with_value("--tokens"@, value, rest);
    lemma_alone("--raw-prompt"@, rest);
    lemma_alone("--only-tokenizer"@, rest);
    lemma_alone("--only-layers"@, rest);
    lemma_alone("--only-embedding"@, rest);
    lemma_alone("--only-ple"@, rest);
}

proof fn lemma_with_value(flag: Seq<char>, value: Seq<char>, rest: Seq<Seq<char>>)
    ensures
        ({
            let args = seq![flag, value] + rest;
            &&& args.len() > 1
            &&& args[0] == flag
            &&& args.drop_first().len() > 0
            &&& args.drop_first()[0] == value
            &&& args.drop_first().drop_first() == rest
        }),
{
    assert((seq![flag, value] + rest).drop_first().drop_first() =~= rest);
}

proof fn lemma_alone(flag: Seq<char>, rest: Seq<Seq<char>>)
    ensures
        ({
            let args = seq![flag] + rest;
            &&& args.len() > 0
            &&& args[0] == flag
            &&& args.drop_first() == rest
        }),
{
    assert((seq![flag] + rest).drop_first() =~= rest);
}

/// A command line is accepted exactly if it reads to its end and names a model; without
/// options the prompt is the default one and one token is generated.
pub proof fn a_command_line_needs_a_model(args: Seq<Seq<char>>)
    ensures
        parsed_args(args) is Ok <==> (read_args(no_args(), args) matches Ok(read)
            && read.model_dir is Some),
        parsed_args(args) matches Ok(read) ==> read_args(no_args(), args) == Ok::<
            ArgsView,
            Seq<char>,
        >(read),
        no_args().prompt == "hello raster"@,
        no_args().tokens == 1,
        no_args().model_dir is None,
        no_args().manifest is None,
        !no_args().raw_prompt,
        task_of(no_args()) == Task::Everything,
        read_args(no_args(), Seq::empty()) == Ok::<ArgsView, Seq<char>>(no_args()),
{
}

/// A part is written alone if it is the only one asked for, and everything if none is.
pub proof fn a_part_is_written_if_asked_for(args: ArgsView)
    ensures
        task_of(args) == Task::Tokenizer <==> args.only_tokenizer,
        task_of(args) == Task::PerLayerEmbeddings <==> args.only_ple && !args.only_tokenizer,
        task_of(args) == Task::Embedding <==> args.only_embedding && !args.only_ple
            && !args.only_tokenizer,
        task_of(args) == Task::Layers <==> args.only_layers && !args.only_embedding
            && !args.only_ple && !args.only_tokenizer,
        task_of(args) == Task::Everything <==> !args.only_tokenizer && !args.only_ple
            && !args.only_embedding && !args.only_layers,
{
}

} // verus!
