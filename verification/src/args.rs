//! Reading a job descriptor from the words of a command line.

use vstd::prelude::*;
use vstd::string::*;
use crate::job::DencryptData;

verus! {

/// The option that carries the passphrase: the key follows the `=`.
pub open spec fn key_option() -> Seq<char> {
    "--key="@
}

/// The option that carries the target: the path follows the `=`.
pub open spec fn path_option() -> Seq<char> {
    "--path="@
}

/// The flag that asks for a recursive walk.
pub open spec fn recursive_flag() -> Seq<char> {
    "--rec"@
}

/// The flag that asks for concurrent workers.
pub open spec fn multithread_flag() -> Seq<char> {
    "--multithread"@
}

/// The other spelling of the flag that asks for concurrent workers.
pub open spec fn multi_threads_flag() -> Seq<char> {
    "--multi-threads"@
}

/// The flag that silences progress reports.
pub open spec fn no_output_flag() -> Seq<char> {
    "--no-output"@
}

/// Whether `word` is one of the options that are understood.
pub open spec fn is_known_option(word: Seq<char>) -> bool {
    ||| key_option().is_prefix_of(word)
    ||| path_option().is_prefix_of(word)
    ||| word == recursive_flag()
    ||| word == multithread_flag()
    ||| word == multi_threads_flag()
    ||| word == no_output_flag()
}

/// What follows `option` in the last of the words `1..n` that starts with
/// it; empty where none does. Word 0 names the program and is never read.
pub open spec fn last_value(words: Seq<Seq<char>>, option: Seq<char>, n: int) -> Seq<char>
    decreases n,
{
    if n <= 1 {
        Seq::empty()
    } else if option.is_prefix_of(words[n - 1]) {
        words[n - 1].skip(option.len() as int)
    } else {
        last_value(words, option, n - 1)
    }
}

/// Whether one of the words `1..n` is exactly `flag`.
pub open spec fn has_flag(words: Seq<Seq<char>>, flag: Seq<char>, n: int) -> bool {
    exists|i: int| 1 <= i < n && #[trigger] words[i] == flag
}

/// The words `1..n` that are no known option, in their order.
pub open spec fn unknown_options(words: Seq<Seq<char>>, n: int) -> Seq<Seq<char>> {
    if n <= 1 {
        Seq::empty()
    } else {
        words.subrange(1, n).filter(|word: Seq<char>| !is_known_option(word))
    }
}

/// Whether `text` begins with `prefix`.
fn starts_with(text: &str, prefix: &str) -> (found: bool)
    ensures
        found == prefix@.is_prefix_of(text@),
{
    let wanted: usize = prefix.unicode_len();
    if text.unicode_len() < wanted {
        return false;
    }
    let mut i: usize = 0;
    while i < wanted
        invariant
            i <= wanted,
            wanted == prefix@.len(),
            wanted <= text@.len(),
            forall|j: int| 0 <= j < i ==> text@[j] == prefix@[j],
        decreases wanted - i,
    {
        if text.get_char(i) != prefix.get_char(i) {
            assert(text@.subrange(0, wanted as int)[i as int] != prefix@[i as int]);
            return false;
        }
        i += 1;
    }
    assert(prefix@ =~= text@.subrange(0, wanted as int));
    true
}

/// Whether two texts hold the same characters.
fn same_text(left: &str, right: &str) -> (same: bool)
    ensures
        same == (left@ == right@),
{
    if left.unicode_len() != right.unicode_len() {
        return false;
    }
    let same: bool = starts_with(left, right);
    proof {
        if same {
            assert(left@.subrange(0, right@.len() as int) =~= left@);
        }
    }
    same
}

/// What follows `option` in `word`, where `word` starts with it.
fn option_value(word: &str, option: &str) -> (value: Option<String>)
    ensures
        value is Some <==> option@.is_prefix_of(word@),
        value matches Some(text) ==> text@ == word@.skip(option@.len() as int),
{
    if starts_with(word, option) {
        Some(word.substring_char(option.unicode_len(), word.unicode_len()).to_owned())
    } else {
        None
    }
}

/// Reads the job descriptor from the words of a command line.
///
/// Word 0 names the program and is skipped. `--key=` and `--path=` carry a
/// value, and the last of each counts; `--rec`, `--multithread` (also spelt
/// `--multi-threads`) and `--no-output` are flags, and one occurrence is
/// enough. Beside the descriptor come the words that are none of these, in
/// their order: they deserve a warning and do not stop the run.
pub fn analys_args(args: Vec<String>) -> (parsed: (DencryptData, Vec<String>))
    ensures
        parsed.0.path@ == last_value(args.deep_view(), path_option(), args@.len() as int),
        parsed.0.key@ == last_value(args.deep_view(), key_option(), args@.len() as int),
        parsed.0.is_recursive == has_flag(args.deep_view(), recursive_flag(), args@.len() as int),
        parsed.0.is_multithread == (has_flag(
            args.deep_view(),
            multithread_flag(),
            args@.len() as int,
        ) || has_flag(args.deep_view(), multi_threads_flag(), args@.len() as int)),
        parsed.0.allow_output == !has_flag(args.deep_view(), no_output_flag(), args@.len() as int),
        parsed.1.deep_view() == unknown_options(args.deep_view(), args@.len() as int),
{
    let ghost words = args.deep_view();
    let mut path: String = String::new();
    let mut key: String = String::new();
    let mut is_recursive: bool = false;
    let mut is_multithread: bool = false;
    let mut allow_output: bool = true;
    let mut unknown: Vec<String> = Vec::new();
    let mut i: usize = 1;
    assert(unknown.deep_view() =~= unknown_options(words, 1));
    while i < args.len()
        invariant
            1 <= i,
            i <= args@.len() || i == 1,
            words == args.deep_view(),
            words.len() == args@.len(),
            path@ == last_value(words, path_option(), i as int),
            key@ == last_value(words, key_option(), i as int),
            is_recursive == has_flag(words, recursive_flag(), i as int),
            is_multithread == (has_flag(words, multithread_flag(), i as int) || has_flag(
                words,
                multi_threads_flag(),
                i as int,
            )),
            allow_output == !has_flag(words, no_output_flag(), i as int),
            unknown.deep_view() == unknown_options(words, i as int),
        decreases args@.len() - i,
    {
        let word: &str = args[i].as_str();
        assert(word@ == words[i as int]);
        let mut known: bool = false;
        if let Some(value) = option_value(word, "--key=") {
            key = value;
            known = true;
        }
        if let Some(value) = option_value(word, "--path=") {
            path = value;
            known = true;
        }
        if same_text(word, "--rec") {
            is_recursive = true;
            known = true;
        }
        if same_text(word, "--multithread") || same_text(word, "--multi-threads") {
            is_multithread = true;
            known = true;
        }
        if same_text(word, "--no-output") {
            allow_output = false;
            known = true;
        }
        assert(known == is_known_option(word@));
        let ghost listed = unknown.deep_view();
        if !known {
            unknown.push(args[i].clone());
            assert(unknown.deep_view() =~= listed.push(word@));
        }
        proof {
            lemma_has_flag_step(words, recursive_flag(), i as int);
            lemma_has_flag_step(words, multithread_flag(), i as int);
            lemma_has_flag_step(words, multi_threads_flag(), i as int);
            lemma_has_flag_step(words, no_output_flag(), i as int);
            lemma_unknown_options_step(words, i as int);
        }
        i += 1;
    }
    proof {
        if args@.len() == 0 {
            assert(!has_flag(words, recursive_flag(), 0));
            assert(!has_flag(words, multithread_flag(), 0));
            assert(!has_flag(words, multi_threads_flag(), 0));
            assert(!has_flag(words, no_output_flag(), 0));
        }
    }
    (DencryptData::new(path, is_recursive, key, is_multithread, allow_output), unknown)
}

/// One more word is a flag exactly when it is the flag or an earlier word
/// was.
proof fn lemma_has_flag_step(words: Seq<Seq<char>>, flag: Seq<char>, n: int)
    requires
        1 <= n < words.len(),
    ensures
        has_flag(words, flag, n + 1) == (has_flag(words, flag, n) || words[n] == flag),
{
    if has_flag(words, flag, n + 1) {
        let i = choose|i: int| 1 <= i < n + 1 && #[trigger] words[i] == flag;
        if i < n {
            assert(has_flag(words, flag, n));
        }
    }
    if has_flag(words, flag, n) {
        let i = choose|i: int| 1 <= i < n && #[trigger] words[i] == flag;
        assert(1 <= i < n + 1 && words[i] == flag);
    }
    if words[n] == flag {
        assert(1 <= n < n + 1 && words[n] == flag);
    }
}

/// One more word joins the unknown options exactly when it is no known
/// option.
proof fn lemma_unknown_options_step(words: Seq<Seq<char>>, n: int)
    requires
        1 <= n < words.len(),
    ensures
        unknown_options(words, n + 1) == if is_known_option(words[n]) {
            unknown_options(words, n)
        } else {
            unknown_options(words, n).push(words[n])
        },
{
    reveal(Seq::filter);
    let keep = |word: Seq<char>| !is_known_option(word);
    let longer = words.subrange(1, n + 1);
    assert(longer.drop_last() =~= words.subrange(1, n));
    assert(longer.last() == words[n]);
    if n == 1 {
        assert(words.subrange(1, n).filter(keep) =~= Seq::<Seq<char>>::empty());
    }
}

} // verus!
