//! The importer's command line.

use crate::lists::views;
use crate::text::{chars_of, outcome};
use vstd::prelude::*;

verus! {

/// What an import is asked for.
pub struct Args {
    pub model_dir: String,
    pub prompt: String,
    /// Commit the prompt as given, without turn markers.
    pub raw_prompt: bool,
    /// Exact number of generated tokens.
    pub tokens: u32,
    /// Write the manifest here instead of printing it.
    pub manifest: Option<String>,
    /// Write only the tokenizer's externals.
    pub only_tokenizer: bool,
    /// Write only the layers' externals.
    pub only_layers: bool,
    /// Write only the embedding external.
    pub only_embedding: bool,
    /// Write only the per-layer-embedding externals.
    pub only_ple: bool,
}

/// A command line in reading, as a mathematical value.
#[verifier::ext_equal]
pub struct ArgsView {
    pub model_dir: Option<Seq<char>>,
    pub prompt: Seq<char>,
    pub raw_prompt: bool,
    pub tokens: u32,
    pub manifest: Option<Seq<char>>,
    pub only_tokenizer: bool,
    pub only_layers: bool,
    pub only_embedding: bool,
    pub only_ple: bool,
}

/// The value of a run of decimal digits, or none if another character is among them.
pub open spec fn digits_value(s: Seq<char>) -> Option<int>
    decreases s.len(),
{
    if s.len() == 0 {
        Some(0)
    } else {
        match digits_value(s.drop_last()) {
            Some(v) => if 48 <= s.last() as u32 <= 57 {
                Some(10 * v + (s.last() as u32 - 48))
            } else {
                None
            },
            None => None,
        }
    }
}

/// The number that a text denotes: decimal digits, at least one, behind an optional
/// plus sign, of a value that fits 32 bits.
pub open spec fn parsed_u32(s: Seq<char>) -> Option<u32> {
    let digits = if s.len() > 0 && s[0] == '+' {
        s.drop_first()
    } else {
        s
    };
    match digits_value(digits) {
        Some(v) => if digits.len() > 0 && v <= u32::MAX {
            Some(v as u32)
        } else {
            None
        },
        None => None,
    }
}

proof fn lemma_digits_monotone(s: Seq<char>, k: int)
    requires
        0 <= k <= s.len(),
    ensures
        digits_value(s.take(k)) is None ==> digits_value(s) is None,
        digits_value(s) matches Some(v) ==> (digits_value(s.take(k)) matches Some(w) && 0 <= w
            <= v),
    decreases s.len(),
{
    if k == s.len() {
        assert(s.take(k) =~= s);
        if s.len() > 0 {
            lemma_digits_monotone(s.drop_last(), k - 1);
            assert(s.drop_last().take(k - 1) =~= s.drop_last());
        }
    } else {
        lemma_digits_monotone(s.drop_last(), k);
        assert(s.drop_last().take(k) =~= s.take(k));
    }
}

/// Reads a number.
pub fn parse_u32(s: &str) -> (r: Option<u32>)
    ensures
        r == parsed_u32(s@),
{
    let chars: Vec<char> = chars_of(s);
    let start: usize = if chars.len() > 0 && chars[0] == '+' {
        1
    } else {
        0
    };
    let ghost digits = if start == 1 {
        s@.drop_first()
    } else {
        s@
    };
    assert(digits =~= chars@.skip(start as int));
    if start == chars.len() {
        return None;
    }
    let mut value: u64 = 0;
    let mut i: usize = start;
    assert(digits.take(0) =~= Seq::empty());
    while i < chars.len()
        invariant
            start <= i <= chars@.len(),
            digits == chars@.skip(start as int),
            digits.len() > 0,
            digits == (if s@.len() > 0 && s@[0] == '+' {
                s@.drop_first()
            } else {
                s@
            }),
            digits_value(digits.take(i - start)) == Some(value as int),
            value <= u32::MAX,
        decreases chars@.len() - i,
    {
        let u: u32 = chars[i] as u32;
        proof {
            assert(digits.take(i - start + 1).drop_last() =~= digits.take(i - start));
            assert(digits.take(i - start + 1).last() == chars@[i as int]);
            lemma_digits_monotone(digits, i - start + 1);
        }
        if u < 48 || u > 57 {
            return None;
        }
        value = 10 * value + (u - 48) as u64;
        if value > u32::MAX as u64 {
            return None;
        }
        i += 1;
    }
    assert(digits.take(i - start) =~= digits);
    Some(value as u32)
}

/// A command line before its first argument.
pub open spec fn no_args() -> ArgsView {
    ArgsView {
        model_dir: None,
        prompt: "hello raster"@,
        raw_prompt: false,
        tokens: 1,
        manifest: None,
        only_tokenizer: false,
        only_layers: false,
        only_embedding: false,
        only_ple: false,
    }
}

/// A command line read to its end, or the message for the first argument that is
/// wrong.
pub open spec fn read_args(so_far: ArgsView, args: Seq<Seq<char>>) -> Result<ArgsView, Seq<char>>
    decreases args.len(),
{
    if args.len() == 0 {
        Ok(so_far)
    } else {
        let rest = args.drop_first();
        let value = if rest.len() > 0 {
            Some(rest[0])
        } else {
            None
        };
        let behind = if rest.len() > 0 {
            rest.drop_first()
        } else {
            rest
        };
        if args[0] == "--model"@ {
            read_args(ArgsView { model_dir: value, ..so_far }, behind)
        } else if args[0] == "--prompt"@ {
            match value {
                Some(prompt) => read_args(ArgsView { prompt, ..so_far }, behind),
                None => Err("--prompt needs a value"@),
            }
        } else if args[0] == "--raw-prompt"@ {
            read_args(ArgsView { raw_prompt: true, ..so_far }, rest)
        } else if args[0] == "--tokens"@ {
            match value {
                Some(s) => match parsed_u32(s) {
                    Some(tokens) => read_args(ArgsView { tokens, ..so_far }, behind),
                    None => Err("--tokens must be a non-negative integer"@),
                },
                None => Err("--tokens needs a value"@),
            }
        } else if args[0] == "--manifest"@ {
            read_args(ArgsView { manifest: value, ..so_far }, behind)
        } else if args[0] == "--only-tokenizer"@ {
            read_args(ArgsView { only_tokenizer: true, ..so_far }, rest)
        } else if args[0] == "--only-layers"@ {
            read_args(ArgsView { only_layers: true, ..so_far }, rest)
        } else if args[0] == "--only-embedding"@ {
            read_args(ArgsView { only_embedding: true, ..so_far }, rest)
        } else if args[0] == "--only-ple"@ {
            read_args(ArgsView { only_ple: true, ..so_far }, rest)
        } else {
            Err("unknown argument '"@ + args[0] + "'"@)
        }
    }
}

/// What a command line asks for, or why it is refused.
pub open spec fn parsed_args(args: Seq<Seq<char>>) -> Result<ArgsView, Seq<char>> {
    match read_args(no_args(), args) {
        Ok(read) => if read.model_dir is None {
            Err("--model <bundle-dir> is required"@)
        } else {
            Ok(read)
        },
        Err(e) => Err(e),
    }
}

impl View for Args {
    type V = ArgsView;

    open spec fn view(&self) -> ArgsView {
        ArgsView {
            model_dir: Some(self.model_dir@),
            prompt: self.prompt@,
            raw_prompt: self.raw_prompt,
            tokens: self.tokens,
            manifest: match self.manifest {
                Some(path) => Some(path@),
                None => None,
            },
            only_tokenizer: self.only_tokenizer,
            only_layers: self.only_layers,
            only_embedding: self.only_embedding,
            only_ple: self.only_ple,
        }
    }
}

struct Reading {
    model_dir: Option<String>,
    prompt: String,
    raw_prompt: bool,
    tokens: u32,
    manifest: Option<String>,
    only_tokenizer: bool,
    only_layers: bool,
    only_embedding: bool,
    only_ple: bool,
}

impl Reading {
    spec fn seen(self) -> ArgsView {
        ArgsView {
            model_dir: match self.model_dir {
                Some(path) => Some(path@),
                None => None,
            },
            prompt: self.prompt@,
            raw_prompt: self.raw_prompt,
            tokens: self.tokens,
            manifest: match self.manifest {
                Some(path) => Some(path@),
                None => None,
            },
            only_tokenizer: self.only_tokenizer,
            only_layers: self.only_layers,
            only_embedding: self.only_embedding,
            only_ple: self.only_ple,
        }
    }
}

fn is(arg: &String, name: &str) -> (r: bool)
    ensures
        r == (arg@ == name@),
{
    let wanted: String = String::from_str(name);
    *arg == wanted
}

fn value_at(args: &Vec<String>, i: usize) -> (r: Option<String>)
    ensures
        match r {
            Some(s) => i < args@.len() && s@ == args@[i as int]@,
            None => i >= args@.len(),
        },
{
    if i < args.len() {
        Some(String::from_str(args[i].as_str()))
    } else {
        None
    }
}

/// Reads a command line, without the program's own name.
pub fn parse_args(args: &Vec<String>) -> (r: Result<Args, String>)
    ensures
        outcome(r, parsed_args(views(args@))),
{
    let ghost all = views(args@);
    let mut seen: Reading = Reading {
        model_dir: None,
        prompt: String::from_str("hello raster"),
        raw_prompt: false,
        tokens: 1,
        manifest: None,
        only_tokenizer: false,
        only_layers: false,
        only_embedding: false,
        only_ple: false,
    };
    let len: usize = args.len();
    let mut i: usize = 0;
    assert(seen.seen() =~= no_args());
    assert(all.skip(0) =~= all);
    while i < len
        invariant
            i <= len,
            len == args@.len(),
            all == views(args@),
            read_args(no_args(), all) == read_args(seen.seen(), all.skip(i as int)),
        decreases len - i,
    {
        let ghost before = seen.seen();
        let ghost rest = all.skip(i as int).drop_first();
        assert(all.skip(i as int)[0] == args@[i as int]@);
        assert(rest =~= all.skip(i + 1));
        if i + 1 < len {
            assert(rest[0] == args@[i + 1]@);
            assert(rest.drop_first() =~= all.skip(i + 2));
        }
        let arg: &String = &args[i];
        i += 1;
        let mut takes_value: bool = false;
        if is(arg, "--model") {
            takes_value = true;
            seen.model_dir = value_at(args, i);
        } else if is(arg, "--prompt") {
            takes_value = true;
            seen.prompt = match value_at(args, i) {
                Some(s) => s,
                None => return Err(String::from_str("--prompt needs a value")),
            };
        } else if is(arg, "--raw-prompt") {
            seen.raw_prompt = true;
        } else if is(arg, "--tokens") {
            takes_value = true;
            let s: String = match value_at(args, i) {
                Some(s) => s,
                None => return Err(String::from_str("--tokens needs a value")),
            };
            seen.tokens = match parse_u32(s.as_str()) {
                Some(n) => n,
                None => return Err(
                    String::from_str("--tokens must be a non-negative integer"),
                ),
            };
        } else if is(arg, "--manifest") {
            takes_value = true;
            seen.manifest = value_at(args, i);
        } else if is(arg, "--only-tokenizer") {
            seen.only_tokenizer = true;
        } else if is(arg, "--only-layers") {
            seen.only_layers = true;
        } else if is(arg, "--only-embedding") {
            seen.only_embedding = true;
        } else if is(arg, "--only-ple") {
            seen.only_ple = true;
        } else {
            return Err(
                String::from_str("unknown argument '").concat(arg.as_str()).concat("'"),
            );
        }
        if takes_value && i < len {
            i += 1;
        }
    }
    assert(all.skip(i as int) =~= Seq::empty());
    match seen.model_dir {
        Some(model_dir) => Ok(
            Args {
                model_dir,
                prompt: seen.prompt,
                raw_prompt: seen.raw_prompt,
                tokens: seen.tokens,
                manifest: seen.manifest,
                only_tokenizer: seen.only_tokenizer,
                only_layers: seen.only_layers,
                only_embedding: seen.only_embedding,
                only_ple: seen.only_ple,
            },
        ),
        None => Err(String::from_str("--model <bundle-dir> is required")),
    }
}

/// What an import writes.
#[derive(Clone, Copy, PartialEq, Eq, Structural, Debug)]
pub enum Task {
    Tokenizer,
    PerLayerEmbeddings,
    Embedding,
    Layers,
    Everything,
}

/// What a command line asks to be written; the first of several wishes counts.
pub open spec fn task_of(args: ArgsView) -> Task {
    if args.only_tokenizer {
        Task::Tokenizer
    } else if args.only_ple {
        Task::PerLayerEmbeddings
    } else if args.only_embedding {
        Task::Embedding
    } else if args.only_layers {
        Task::Layers
    } else {
        Task::Everything
    }
}

impl Args {
    /// What the command line asks to be written.
    pub fn task(&self) -> (r: Task)
        ensures
            r == task_of(self@),
    {
        if self.only_tokenizer {
            Task::Tokenizer
        } else if self.only_ple {
            Task::PerLayerEmbeddings
        } else if self.only_embedding {
            Task::Embedding
        } else if self.only_layers {
            Task::Layers
        } else {
            Task::Everything
        }
    }
}

} // verus!
