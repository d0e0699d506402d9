//! The command line that stands for a set of options.

use crate::matching::Mode;
use crate::options::{
    effective_case_insensitive, effective_limit, effective_stats_interval, resolve_effective_limit,
    resolve_stats_interval, resolve_threads, Args,
};
use crate::text::{decimal, join, join_strings, push_decimal, texts};
use vstd::prelude::*;

verus! {

/// The name of a mode on the command line.
pub open spec fn mode_name(mode: Mode) -> Seq<char> {
    match mode {
        Mode::Any => "any"@,
        Mode::Prefix => "prefix"@,
        Mode::Suffix => "suffix"@,
    }
}

/// The name of a mode on the command line.
pub fn mode_as_str(mode: Mode) -> (r: &'static str)
    ensures
        r@ == mode_name(mode),
{
    match mode {
        Mode::Any => "any",
        Mode::Prefix => "prefix",
        Mode::Suffix => "suffix",
    }
}

/// A character that means nothing but itself to a shell.
pub open spec fn is_safe(c: char) -> bool {
    ||| 'a' <= c <= 'z'
    ||| 'A' <= c <= 'Z'
    ||| '0' <= c <= '9'
    ||| c == '-'
    ||| c == '_'
    ||| c == '.'
    ||| c == '/'
}

/// The text of `c` within single quotes. A single quote ends them, stands in double
/// quotes, and opens them again.
pub open spec fn escaped_char(c: char) -> Seq<char> {
    if c == '\'' {
        seq!['\'', '"', '\'', '"', '\'']
    } else {
        seq![c]
    }
}

/// The text of `s` within single quotes.
pub open spec fn escaped(s: Seq<char>) -> Seq<char>
    decreases s.len(),
{
    if s.len() == 0 {
        Seq::empty()
    } else {
        escaped_char(s[0]) + escaped(s.drop_first())
    }
}

/// The text of `s` holds safe characters only.
pub open spec fn all_safe(s: Seq<char>) -> bool {
    forall|i: int| 0 <= i < s.len() ==> is_safe(#[trigger] s[i])
}

/// `s` as one word for a shell: as it is where that is safe, else in quotes.
pub open spec fn shell_quoted(s: Seq<char>) -> Seq<char> {
    if s.len() > 0 && all_safe(s) {
        s
    } else {
        seq!['\''] + escaped(s) + seq!['\'']
    }
}

/// One more character at the end.
proof fn lemma_escaped_push(s: Seq<char>, c: char)
    ensures
        escaped(s.push(c)) == escaped(s) + escaped_char(c),
    decreases s.len(),
{
    reveal_with_fuel(escaped, 2);
    if s.len() == 0 {
        assert(s.push(c).drop_first() =~= Seq::<char>::empty());
        assert(escaped(s.push(c)) =~= escaped(s) + escaped_char(c));
    } else {
        lemma_escaped_push(s.drop_first(), c);
        assert(s.push(c).drop_first() =~= s.drop_first().push(c));
        assert(escaped(s.push(c)) =~= escaped(s) + escaped_char(c));
    }
}

/// Whether a character means nothing but itself to a shell.
fn is_safe_char(c: char) -> (r: bool)
    ensures
        r == is_safe(c),
{
    (c >= 'a' && c <= 'z') || (c >= 'A' && c <= 'Z') || (c >= '0' && c <= '9') || c == '-' || c
        == '_' || c == '.' || c == '/'
}

/// `s` as one word for a shell.
pub fn shell_quote(s: &str) -> (r: String)
    ensures
        r@ == shell_quoted(s@),
{
    let mut safe = true;
    let mut r = String::new();
    r.push('\'');
    for c in it: s.chars()
        invariant
            it.seq() == s@,
            safe == all_safe(s@.take(it.index())),
            r@ == seq!['\''] + escaped(s@.take(it.index())),
    {
        let ghost k = it.index();
        let ghost before = s@.take(k);
        proof {
            lemma_escaped_push(before, c);
            assert(s@.take(k + 1) =~= before.push(c));
            assert(before.push(c)[k] == c);
            if all_safe(before.push(c)) {
                assert(is_safe(before.push(c)[k]));
                assert forall|i: int| 0 <= i < before.len() implies is_safe(#[trigger] before[i]) by {
                    assert(before.push(c)[i] == before[i]);
                }
            }
        }
        safe = safe && is_safe_char(c);
        if c == '\'' {
            r.push('\'');
            r.push('"');
            r.push('\'');
            r.push('"');
            r.push('\'');
        } else {
            r.push(c);
        }
        assert(r@ =~= seq!['\''] + escaped(before.push(c)));
    }
    assert(s@.take(s@.len() as int) =~= s@);
    if !s.is_empty() && safe {
        return s.to_string();
    }
    r.push('\'');
    assert(r@ =~= shell_quoted(s@));
    r
}

/// The words if `present`, else none.
pub open spec fn if_set(present: bool, words: Seq<Seq<char>>) -> Seq<Seq<char>> {
    if present {
        words
    } else {
        Seq::empty()
    }
}

/// The words that every command line starts with.
pub open spec fn leading_words(args: &Args, threads: usize) -> Seq<Seq<char>> {
    let limit = match effective_limit(args.limit) {
        Some(n) => n as nat,
        None => 0,
    };
    seq![
        "kooforge"@,
        args.pattern->0@,
        "--mode"@,
        mode_name(args.mode),
        "--threads"@,
        decimal(threads as nat),
        "--limit"@,
        decimal(limit),
        "--out"@,
        args.out@,
    ]
}

/// The words of the command line that stands for `args`, with `threads` threads. Every
/// default is written out.
pub open spec fn command_words(args: &Args, threads: usize) -> Seq<Seq<char>> {
    let interval = effective_stats_interval(args.stats_interval, args.extreme);
    leading_words(args, threads)
        + if_set(!args.case_sensitive, seq!["--case-insensitive"@])
        + if_set(args.case_sensitive, seq!["--case-sensitive"@])
        + if_set(args.print_only, seq!["--print-only"@])
        + if_set(args.export_ipfs, seq!["--export-ipfs"@])
        + if_set(
            args.export_ipfs && args.key_name is Some,
            seq!["--key-name"@, args.key_name->0@],
        )
        + if_set(args.no_color, seq!["--no-color"@])
        + if_set(args.extreme, seq!["--extreme"@])
        + seq!["--stats-interval"@, decimal(interval as nat)]
}

/// The words, each one quoted for a shell.
pub open spec fn quoted_words(words: Seq<Seq<char>>) -> Seq<Seq<char>> {
    Seq::new(words.len(), |i: int| shell_quoted(words[i]))
}

/// The words as one line for a shell.
pub open spec fn shell_line(words: Seq<Seq<char>>) -> Seq<char> {
    join(quoted_words(words), " "@)
}

/// The decimal notation of `n`.
fn decimal_string(n: u64) -> (r: String)
    ensures
        r@ == decimal(n as nat),
{
    let mut r = String::new();
    push_decimal(&mut r, n);
    assert(r@ =~= decimal(n as nat));
    r
}

/// Adds a word at the end.
fn push_word(words: &mut Vec<String>, word: &str)
    ensures
        texts(final(words)@) == texts(old(words)@).push(word@),
{
    words.push(word.to_string());
    assert(texts(words@) =~= texts(old(words)@).push(word@));
}

/// Adds a word at the end if `present`.
fn push_flag(words: &mut Vec<String>, present: bool, word: &str)
    ensures
        texts(final(words)@) == texts(old(words)@) + if_set(present, seq![word@]),
{
    if present {
        push_word(words, word);
    }
    assert(texts(words@) =~= texts(old(words)@) + if_set(present, seq![word@]));
}

/// Adds the words that every command line starts with.
fn push_leading_words(words: &mut Vec<String>, args: &Args, threads: usize)
    requires
        args.pattern is Some,
        old(words)@.len() == 0,
    ensures
        texts(final(words)@) == leading_words(args, threads),
{
    push_word(words, "kooforge");
    if let Some(pattern) = &args.pattern {
        push_word(words, pattern.as_str());
    }
    push_word(words, "--mode");
    push_word(words, mode_as_str(args.mode));
    push_word(words, "--threads");
    push_word(words, decimal_string(threads as u64).as_str());
    push_word(words, "--limit");
    let limit: usize = match resolve_effective_limit(args.limit) {
        Some(n) => n,
        None => 0,
    };
    push_word(words, decimal_string(limit as u64).as_str());
    push_word(words, "--out");
    push_word(words, args.out.as_str());
    assert(texts(words@) =~= leading_words(args, threads));
}

/// The words as one line for a shell.
fn build_line(words: &Vec<String>) -> (r: String)
    ensures
        r@ == shell_line(texts(words@)),
{
    let mut quoted: Vec<String> = Vec::new();
    let ghost want = quoted_words(texts(words@));
    let mut i: usize = 0;
    while i < words.len()
        invariant
            i <= words@.len(),
            want == quoted_words(texts(words@)),
            texts(quoted@) == want.take(i as int),
        decreases words@.len() - i,
    {
        let word: String = shell_quote(words[i].as_str());
        push_word(&mut quoted, word.as_str());
        i = i + 1;
        assert(texts(quoted@) =~= want.take(i as int));
    }
    assert(want.take(i as int) =~= want);
    join_strings(&quoted, " ")
}

/// The command line that stands for `args`, with `threads` threads.
pub fn build_command(args: &Args, threads: usize) -> (r: String)
    requires
        args.pattern is Some,
    ensures
        r@ == shell_line(command_words(args, threads)),
{
    let mut words: Vec<String> = Vec::new();
    push_leading_words(&mut words, args, threads);
    let ci: bool = effective_case_insensitive(args);
    push_flag(&mut words, ci, "--case-insensitive");
    push_flag(&mut words, !ci, "--case-sensitive");
    push_flag(&mut words, args.print_only, "--print-only");
    push_flag(&mut words, args.export_ipfs, "--export-ipfs");
    let ghost exported = texts(words@);
    if args.export_ipfs {
        if let Some(name) = &args.key_name {
            push_word(&mut words, "--key-name");
            push_word(&mut words, name.as_str());
        }
    }
    assert(texts(words@) =~= exported + if_set(
        args.export_ipfs && args.key_name is Some,
        seq!["--key-name"@, args.key_name->0@],
    ));
    push_flag(&mut words, args.no_color, "--no-color");
    push_flag(&mut words, args.extreme, "--extreme");
    let ghost flagged = texts(words@);
    let interval: u64 = resolve_stats_interval(args.stats_interval, args.extreme);
    push_word(&mut words, "--stats-interval");
    push_word(&mut words, decimal_string(interval).as_str());
    assert(texts(words@) =~= flagged + seq!["--stats-interval"@, decimal(interval as nat)]);
    build_line(&words)
}

/// The command line that stands for `args`. The number of threads is written out too: as
/// given, else one for each logical processor.
pub fn build_equivalent_command(args: &Args) -> (r: String)
    requires
        args.pattern is Some,
    ensures
        exists|threads: usize|
            {
                &&& r@ == #[trigger] shell_line(command_words(args, threads))
                &&& match args.threads {
                    Some(n) => threads == n,
                    None => threads >= 1,
                }
            },
{
    let threads: usize = resolve_threads(args.threads);
    let r = build_command(args, threads);
    assert(r@ == shell_line(command_words(args, threads)));
    r
}

/// Where a shell stands in the reading of a line.
pub enum Quote {
    Open,
    Single,
    Double,
}

/// The word read so far; a word that is not begun yet is empty.
pub open spec fn begun(word: Option<Seq<char>>) -> Seq<char> {
    match word {
        Some(w) => w,
        None => Seq::empty(),
    }
}

/// The words read so far together with the one at hand.
pub open spec fn finished(words: Seq<Seq<char>>, word: Option<Seq<char>>) -> Seq<Seq<char>> {
    match word {
        Some(w) => words.push(w),
        None => words,
    }
}

/// How a shell goes on to read `line`, with `words` complete and `word` at hand. A space
/// ends a word. Everything in single quotes stands for itself, and so does everything in
/// double quotes but `$`, `` ` ``, `\` and `!`. Outside quotes only safe characters are
/// read here: `None` stands for whatever else a shell would do.
pub open spec fn shell_read(
    line: Seq<char>,
    words: Seq<Seq<char>>,
    word: Option<Seq<char>>,
    quote: Quote,
) -> Option<Seq<Seq<char>>>
    decreases line.len(),
{
    if line.len() == 0 {
        match quote {
            Quote::Open => Some(finished(words, word)),
            _ => None,
        }
    } else {
        let c = line[0];
        let rest = line.drop_first();
        match quote {
            Quote::Open => if c == ' ' {
                shell_read(rest, finished(words, word), None, Quote::Open)
            } else if c == '\'' {
                shell_read(rest, words, Some(begun(word)), Quote::Single)
            } else if c == '"' {
                shell_read(rest, words, Some(begun(word)), Quote::Double)
            } else if is_safe(c) {
                shell_read(rest, words, Some(begun(word).push(c)), Quote::Open)
            } else {
                None
            },
            Quote::Single => if c == '\'' {
                shell_read(rest, words, word, Quote::Open)
            } else {
                shell_read(rest, words, Some(begun(word).push(c)), Quote::Single)
            },
            Quote::Double => if c == '"' {
                shell_read(rest, words, word, Quote::Open)
            } else if c == '$' || c == '`' || c == '\\' || c == '!' {
                None
            } else {
                shell_read(rest, words, Some(begun(word).push(c)), Quote::Double)
            },
        }
    }
}

/// The words that a shell reads in `line`.
pub open spec fn shell_words(line: Seq<char>) -> Option<Seq<Seq<char>>> {
    shell_read(line, Seq::empty(), None, Quote::Open)
}

/// Safe characters are read as they are.
proof fn lemma_read_safe(s: Seq<char>, rest: Seq<char>, words: Seq<Seq<char>>, w: Seq<char>)
    requires
        all_safe(s),
    ensures
        shell_read(s + rest, words, Some(w), Quote::Open) == shell_read(
            rest,
            words,
            Some(w + s),
            Quote::Open,
        ),
    decreases s.len(),
{
    if s.len() == 0 {
        assert(s + rest =~= rest);
        assert(w + s =~= w);
    } else {
        assert(is_safe(s[0]));
        let tail = s.drop_first();
        assert forall|i: int| 0 <= i < tail.len() implies is_safe(#[trigger] tail[i]) by {
            assert(tail[i] == s[i + 1]);
        }
        lemma_read_safe(tail, rest, words, w.push(s[0]));
        assert((s + rest).drop_first() =~= tail + rest);
        assert(w.push(s[0]) + tail =~= w + s);
    }
}

/// The text within single quotes is read back.
proof fn lemma_read_escaped(s: Seq<char>, rest: Seq<char>, words: Seq<Seq<char>>, w: Seq<char>)
    ensures
        shell_read(escaped(s) + seq!['\''] + rest, words, Some(w), Quote::Single) == shell_read(
            rest,
            words,
            Some(w + s),
            Quote::Open,
        ),
    decreases s.len(),
{
    let line = escaped(s) + seq!['\''] + rest;
    if s.len() == 0 {
        assert(line.drop_first() =~= rest);
        assert(w + s =~= w);
    } else {
        let tail = s.drop_first();
        let after = escaped(tail) + seq!['\''] + rest;
        lemma_read_escaped(tail, rest, words, w.push(s[0]));
        assert(w.push(s[0]) + tail =~= w + s);
        if s[0] == '\'' {
            let l1 = line.drop_first();
            let l2 = l1.drop_first();
            let l3 = l2.drop_first();
            let l4 = l3.drop_first();
            assert(l4.drop_first() =~= after);
            assert(line[0] == '\'' && l1[0] == '"' && l2[0] == '\'' && l3[0] == '"' && l4[0]
                == '\'');
            reveal_with_fuel(shell_read, 6);
        } else {
            assert(line.drop_first() =~= after);
        }
    }
}

/// A quoted word is read back.
proof fn lemma_read_quoted(s: Seq<char>, rest: Seq<char>, words: Seq<Seq<char>>)
    ensures
        shell_read(shell_quoted(s) + rest, words, None, Quote::Open) == shell_read(
            rest,
            words,
            Some(s),
            Quote::Open,
        ),
{
    let line = shell_quoted(s) + rest;
    let empty = Seq::<char>::empty();
    if s.len() > 0 && all_safe(s) {
        let tail = s.drop_first();
        assert(is_safe(s[0]));
        assert forall|i: int| 0 <= i < tail.len() implies is_safe(#[trigger] tail[i]) by {
            assert(tail[i] == s[i + 1]);
        }
        assert(line.drop_first() =~= tail + rest);
        lemma_read_safe(tail, rest, words, empty.push(s[0]));
        assert(empty.push(s[0]) + tail =~= s);
    } else {
        assert(line.drop_first() =~= escaped(s) + seq!['\''] + rest);
        lemma_read_escaped(s, rest, words, empty);
        assert(empty + s =~= s);
    }
}

/// The words of a line are read one after the other.
proof fn lemma_read_line(list: Seq<Seq<char>>, rest: Seq<char>)
    requires
        list.len() > 0,
    ensures
        shell_read(shell_line(list) + rest, Seq::empty(), None, Quote::Open) == shell_read(
            rest,
            list.drop_last(),
            Some(list.last()),
            Quote::Open,
        ),
    decreases list.len(),
{
    reveal_strlit(" ");
    let quoted = quoted_words(list);
    if list.len() == 1 {
        lemma_read_quoted(list[0], rest, Seq::empty());
        assert(list.drop_last() =~= Seq::<Seq<char>>::empty());
    } else {
        let init = list.drop_last();
        let after = shell_quoted(list.last()) + rest;
        let spaced = " "@ + after;
        assert(quoted.drop_last() =~= quoted_words(init));
        assert(shell_line(list) + rest =~= shell_line(init) + spaced);
        lemma_read_line(init, spaced);
        assert(spaced.drop_first() =~= after);
        assert(init.drop_last().push(init.last()) =~= init);
        lemma_read_quoted(list.last(), rest, init);
    }
}

/// A shell reads back the words that a line was made from, whatever they hold.
pub proof fn law_shell_reads_the_words_back(words: Seq<Seq<char>>)
    requires
        words.len() > 0,
    ensures
        shell_words(shell_line(words)) == Some(words),
{
    let line = shell_line(words);
    lemma_read_line(words, Seq::empty());
    assert(line + Seq::<char>::empty() =~= line);
    assert(words.drop_last().push(words.last()) =~= words);
}

/// A shell reads back a single quoted text.
pub proof fn law_shell_quote_is_read_back(s: Seq<char>)
    ensures
        shell_words(shell_quoted(s)) == Some(seq![s]),
{
    lemma_read_quoted(s, Seq::empty(), Seq::empty());
    assert(shell_quoted(s) + Seq::<char>::empty() =~= shell_quoted(s));
    assert(Seq::<Seq<char>>::empty().push(s) =~= seq![s]);
}

/// The options that a command line can hold.
pub enum OptionName {
    Mode,
    Threads,
    Limit,
    Out,
    StatsInterval,
    KeyName,
    CaseInsensitive,
    CaseSensitive,
    PrintOnly,
    ExportIpfs,
    NoColor,
    Extreme,
}

/// The option that a word names; `None` for any other word.
pub open spec fn option_of(word: Seq<char>) -> Option<OptionName> {
    if word == "--mode"@ {
        Some(OptionName::Mode)
    } else if word == "--threads"@ {
        Some(OptionName::Threads)
    } else if word == "--limit"@ {
        Some(OptionName::Limit)
    } else if word == "--out"@ {
        Some(OptionName::Out)
    } else if word == "--stats-interval"@ {
        Some(OptionName::StatsInterval)
    } else if word == "--key-name"@ {
        Some(OptionName::KeyName)
    } else if word == "--case-insensitive"@ {
        Some(OptionName::CaseInsensitive)
    } else if word == "--case-sensitive"@ {
        Some(OptionName::CaseSensitive)
    } else if word == "--print-only"@ {
        Some(OptionName::PrintOnly)
    } else if word == "--export-ipfs"@ {
        Some(OptionName::ExportIpfs)
    } else if word == "--no-color"@ {
        Some(OptionName::NoColor)
    } else if word == "--extreme"@ {
        Some(OptionName::Extreme)
    } else {
        None
    }
}

/// What the words of a command line say, each value as the text that was given.
pub struct Reading {
    pub pattern: Option<Seq<char>>,
    pub mode: Option<Seq<char>>,
    pub threads: Option<Seq<char>>,
    pub limit: Option<Seq<char>>,
    pub out: Option<Seq<char>>,
    pub stats_interval: Option<Seq<char>>,
    pub key_name: Option<Seq<char>>,
    pub case_insensitive: bool,
    pub case_sensitive: bool,
    pub print_only: bool,
    pub export_ipfs: bool,
    pub no_color: bool,
    pub extreme: bool,
}

/// What no words at all say.
pub open spec fn nothing_read() -> Reading {
    Reading {
        pattern: None,
        mode: None,
        threads: None,
        limit: None,
        out: None,
        stats_interval: None,
        key_name: None,
        case_insensitive: false,
        case_sensitive: false,
        print_only: false,
        export_ipfs: false,
        no_color: false,
        extreme: false,
    }
}

/// A value belongs to the option.
pub open spec fn takes_value(name: OptionName) -> bool {
    match name {
        OptionName::Mode
        | OptionName::Threads
        | OptionName::Limit
        | OptionName::Out
        | OptionName::StatsInterval
        | OptionName::KeyName => true,
        _ => false,
    }
}

/// The reading with the value of an option filled in.
pub open spec fn with_value(r: Reading, name: OptionName, value: Seq<char>) -> Reading {
    match name {
        OptionName::Mode => Reading { mode: Some(value), ..r },
        OptionName::Threads => Reading { threads: Some(value), ..r },
        OptionName::Limit => Reading { limit: Some(value), ..r },
        OptionName::Out => Reading { out: Some(value), ..r },
        OptionName::StatsInterval => Reading { stats_interval: Some(value), ..r },
        OptionName::KeyName => Reading { key_name: Some(value), ..r },
        _ => r,
    }
}

/// The reading with a flag set.
pub open spec fn with_flag(r: Reading, name: OptionName) -> Reading {
    match name {
        OptionName::CaseInsensitive => Reading { case_insensitive: true, ..r },
        OptionName::CaseSensitive => Reading { case_sensitive: true, ..r },
        OptionName::PrintOnly => Reading { print_only: true, ..r },
        OptionName::ExportIpfs => Reading { export_ipfs: true, ..r },
        OptionName::NoColor => Reading { no_color: true, ..r },
        OptionName::Extreme => Reading { extreme: true, ..r },
        _ => r,
    }
}

/// How the words behind the name of the program are read, with `r` read so far. An option
/// with a value takes the next word, whatever it holds, and a flag stands alone. One other
/// word is the pattern; it does not start with a dash. `None` stands for a refusal.
pub open spec fn read_options(words: Seq<Seq<char>>, r: Reading) -> Option<Reading>
    decreases words.len(),
{
    if words.len() == 0 {
        Some(r)
    } else {
        match option_of(words[0]) {
            Some(name) => if !takes_value(name) {
                read_options(words.skip(1), with_flag(r, name))
            } else if words.len() >= 2 {
                read_options(words.skip(2), with_value(r, name, words[1]))
            } else {
                None
            },
            None => if starts_with_dash(words[0]) || r.pattern is Some {
                None
            } else {
                read_options(words.skip(1), Reading { pattern: Some(words[0]), ..r })
            },
        }
    }
}

/// The word starts with a dash.
pub open spec fn starts_with_dash(word: Seq<char>) -> bool {
    word.len() > 0 && word[0] == '-'
}

/// What the options `args` with `threads` threads are on a command line. The name of a key
/// counts only with the export that it is for.
pub open spec fn reading_of(args: &Args, threads: usize) -> Reading {
    let limit = match effective_limit(args.limit) {
        Some(n) => n as nat,
        None => 0,
    };
    Reading {
        pattern: Some(args.pattern->0@),
        mode: Some(mode_name(args.mode)),
        threads: Some(decimal(threads as nat)),
        limit: Some(decimal(limit)),
        out: Some(args.out@),
        stats_interval: Some(
            decimal(effective_stats_interval(args.stats_interval, args.extreme) as nat),
        ),
        key_name: if args.export_ipfs && args.key_name is Some {
            Some(args.key_name->0@)
        } else {
            None
        },
        case_insensitive: !args.case_sensitive,
        case_sensitive: args.case_sensitive,
        print_only: args.print_only,
        export_ipfs: args.export_ipfs,
        no_color: args.no_color,
        extreme: args.extreme,
    }
}

/// Every option is told by its name, and no word without a dash in front is an option.
proof fn lemma_option_names(other: Seq<char>)
    requires
        !starts_with_dash(other),
    ensures
        option_of("--mode"@) == Some(OptionName::Mode),
        option_of("--threads"@) == Some(OptionName::Threads),
        option_of("--limit"@) == Some(OptionName::Limit),
        option_of("--out"@) == Some(OptionName::Out),
        option_of("--stats-interval"@) == Some(OptionName::StatsInterval),
        option_of("--key-name"@) == Some(OptionName::KeyName),
        option_of("--case-insensitive"@) == Some(OptionName::CaseInsensitive),
        option_of("--case-sensitive"@) == Some(OptionName::CaseSensitive),
        option_of("--print-only"@) == Some(OptionName::PrintOnly),
        option_of("--export-ipfs"@) == Some(OptionName::ExportIpfs),
        option_of("--no-color"@) == Some(OptionName::NoColor),
        option_of("--extreme"@) == Some(OptionName::Extreme),
        option_of(other) is None,
{
    reveal_strlit("--mode");
    reveal_strlit("--threads");
    reveal_strlit("--limit");
    reveal_strlit("--out");
    reveal_strlit("--stats-interval");
    reveal_strlit("--key-name");
    reveal_strlit("--case-insensitive");
    reveal_strlit("--case-sensitive");
    reveal_strlit("--print-only");
    reveal_strlit("--export-ipfs");
    reveal_strlit("--no-color");
    reveal_strlit("--extreme");
    assert("--mode"@.len() == 6);
    assert("--threads"@.len() == 9);
    assert("--limit"@.len() == 7);
    assert("--out"@.len() == 5);
    assert("--stats-interval"@.len() == 16);
    assert("--key-name"@.len() == 10);
    assert("--case-insensitive"@.len() == 18);
    assert("--case-sensitive"@.len() == 16);
    assert("--print-only"@.len() == 12);
    assert("--export-ipfs"@.len() == 13);
    assert("--no-color"@.len() == 10);
    assert("--extreme"@.len() == 9);
    assert("--threads"@[2] != "--extreme"@[2]);
    assert("--key-name"@[2] != "--no-color"@[2]);
    assert("--stats-interval"@[2] != "--case-sensitive"@[2]);
}

/// An option with its value is read, and the rest after it.
proof fn lemma_read_value(
    name: OptionName,
    word: Seq<char>,
    value: Seq<char>,
    rest: Seq<Seq<char>>,
    r: Reading,
)
    requires
        option_of(word) == Some(name),
        takes_value(name),
    ensures
        read_options(seq![word, value] + rest, r) == read_options(rest, with_value(r, name, value)),
{
    assert((seq![word, value] + rest).skip(2) =~= rest);
}

/// A flag is read where it is present, and the rest after it.
proof fn lemma_read_flag(
    name: OptionName,
    word: Seq<char>,
    present: bool,
    rest: Seq<Seq<char>>,
    r: Reading,
)
    requires
        option_of(word) == Some(name),
        !takes_value(name),
    ensures
        read_options(if_set(present, seq![word]) + rest, r) == read_options(
            rest,
            if present {
                with_flag(r, name)
            } else {
                r
            },
        ),
{
    if present {
        assert((seq![word] + rest).skip(1) =~= rest);
    } else {
        assert(Seq::<Seq<char>>::empty() + rest =~= rest);
    }
}

/// The order in which neighbouring lists are put together does not count.
proof fn lemma_regroup(a: Seq<Seq<char>>, b: Seq<Seq<char>>, c: Seq<Seq<char>>)
    ensures
        a + b + c == a + (b + c),
{
    assert(a + b + c =~= a + (b + c));
}

/// The command line that stands for some options is read back as these options, with the
/// defaults filled in: the pattern, every value, every flag, and the name of a key exactly
/// where it is exported. The pattern must not look like an option.
#[verifier::spinoff_prover]
#[verifier::rlimit(60)]
pub proof fn law_command_is_read_back(args: &Args, threads: usize)
    requires
        args.pattern is Some,
        !starts_with_dash(args.pattern->0@),
    ensures
        read_options(command_words(args, threads).skip(1), nothing_read()) == Some(
            reading_of(args, threads),
        ),
{
    let pattern = args.pattern->0@;
    let all = reading_of(args, threads);
    lemma_option_names(pattern);
    let name = args.key_name->0@;
    let named = args.export_ipfs && args.key_name is Some;

    // The line from its end to its start.
    let lead = leading_words(args, threads);
    let ci = if_set(!args.case_sensitive, seq!["--case-insensitive"@]);
    let cs = if_set(args.case_sensitive, seq!["--case-sensitive"@]);
    let print = if_set(args.print_only, seq!["--print-only"@]);
    let export = if_set(args.export_ipfs, seq!["--export-ipfs"@]);
    let key = if_set(named, seq!["--key-name"@, name]);
    let plain = if_set(args.no_color, seq!["--no-color"@]);
    let extreme = if_set(args.extreme, seq!["--extreme"@]);
    let t8 = seq!["--stats-interval"@, all.stats_interval->0];
    let t7 = extreme + t8;
    let t6 = plain + t7;
    let t5 = key + t6;
    let t4 = export + t5;
    let t3 = print + t4;
    let t2 = cs + t3;
    let t1 = ci + t2;
    lemma_regroup(lead + ci + cs + print + export + key + plain, extreme, t8);
    lemma_regroup(lead + ci + cs + print + export + key, plain, t7);
    lemma_regroup(lead + ci + cs + print + export, key, t6);
    lemma_regroup(lead + ci + cs + print, export, t5);
    lemma_regroup(lead + ci + cs, print, t4);
    lemma_regroup(lead + ci, cs, t3);
    lemma_regroup(lead, ci, t2);
    assert(command_words(args, threads) == lead + t1);

    let l4 = seq!["--out"@, args.out@] + t1;
    let l3 = seq!["--limit"@, all.limit->0] + l4;
    let l2 = seq!["--threads"@, all.threads->0] + l3;
    let l1 = seq!["--mode"@, mode_name(args.mode)] + l2;
    let line = seq![pattern] + l1;
    assert((lead + t1).skip(1) =~= line);

    // The reading from its start to its end.
    let r0 = Reading { pattern: Some(pattern), ..nothing_read() };
    let r1 = with_value(r0, OptionName::Mode, mode_name(args.mode));
    let r2 = with_value(r1, OptionName::Threads, all.threads->0);
    let r3 = with_value(r2, OptionName::Limit, all.limit->0);
    let r4 = with_value(r3, OptionName::Out, args.out@);
    let r5 = Reading { case_insensitive: !args.case_sensitive, ..r4 };
    let r6 = Reading { case_sensitive: args.case_sensitive, ..r5 };
    let r7 = Reading { print_only: args.print_only, ..r6 };
    let r8 = Reading { export_ipfs: args.export_ipfs, ..r7 };
    let r9 = Reading { key_name: all.key_name, ..r8 };
    let r10 = Reading { no_color: args.no_color, ..r9 };
    let r11 = Reading { extreme: args.extreme, ..r10 };
    assert(line.skip(1) =~= l1);
    lemma_read_value(OptionName::Mode, "--mode"@, mode_name(args.mode), l2, r0);
    lemma_read_value(OptionName::Threads, "--threads"@, all.threads->0, l3, r1);
    lemma_read_value(OptionName::Limit, "--limit"@, all.limit->0, l4, r2);
    lemma_read_value(OptionName::Out, "--out"@, args.out@, t1, r3);
    assert(read_options(line, nothing_read()) == read_options(t1, r4));
    lemma_read_flag(
        OptionName::CaseInsensitive,
        "--case-insensitive"@,
        !args.case_sensitive,
        t2,
        r4,
    );
    assert(read_options(t1, r4) == read_options(t2, r5));
    lemma_read_flag(OptionName::CaseSensitive, "--case-sensitive"@, args.case_sensitive, t3, r5);
    assert(read_options(t2, r5) == read_options(t3, r6));
    lemma_read_flag(OptionName::PrintOnly, "--print-only"@, args.print_only, t4, r6);
    assert(read_options(t3, r6) == read_options(t4, r7));
    lemma_read_flag(OptionName::ExportIpfs, "--export-ipfs"@, args.export_ipfs, t5, r7);
    assert(read_options(t4, r7) == read_options(t5, r8));
    if named {
        lemma_read_value(OptionName::KeyName, "--key-name"@, name, t6, r8);
    } else {
        assert(t5 =~= t6);
    }
    assert(read_options(t5, r8) == read_options(t6, r9));
    lemma_read_flag(OptionName::NoColor, "--no-color"@, args.no_color, t7, r9);
    assert(read_options(t6, r9) == read_options(t7, r10));
    lemma_read_flag(OptionName::Extreme, "--extreme"@, args.extreme, t8, r10);
    assert(read_options(t7, r10) == read_options(t8, r11));
    lemma_read_value(
        OptionName::StatsInterval,
        "--stats-interval"@,
        all.stats_interval->0,
        Seq::empty(),
        r11,
    );
    assert(t8 + Seq::<Seq<char>>::empty() =~= t8);
}

/// The names of the modes.
pub proof fn law_modes_have_their_names()
    ensures
        mode_name(Mode::Any) == "any"@,
        mode_name(Mode::Prefix) == "prefix"@,
        mode_name(Mode::Suffix) == "suffix"@,
{
}

/// The text within quotes, put together from its start to its end.
proof fn lemma_escaped_in_order(s: Seq<char>)
    ensures
        escaped(s) == s.fold_left(
            Seq::<char>::empty(),
            |done: Seq<char>, c: char|
                done + if c == '\'' {
                    seq!['\'', '"', '\'', '"', '\'']
                } else {
                    seq![c]
                },
        ),
    decreases s.len(),
{
    if s.len() > 0 {
        let init = s.drop_last();
        lemma_escaped_in_order(init);
        lemma_escaped_push(init, s.last());
        assert(init.push(s.last()) =~= s);
    }
}

/// A word goes to the shell as it is exactly if it is not empty and holds ASCII letters,
/// digits, dashes, underscores, dots and slashes only. Any other word goes in single quotes,
/// with each single quote in it replaced by one that stands in double quotes between two
/// quoted parts.
pub proof fn law_words_are_quoted_where_needed(s: Seq<char>)
    ensures
        ({
            let plain = s.len() > 0 && forall|i: int|
                0 <= i < s.len() ==> {
                    let c = #[trigger] s[i];
                    'a' <= c <= 'z' || 'A' <= c <= 'Z' || '0' <= c <= '9' || c == '-' || c == '_'
                        || c == '.' || c == '/'
                };
            let inner = s.fold_left(
                Seq::<char>::empty(),
                |done: Seq<char>, c: char|
                    done + if c == '\'' {
                        seq!['\'', '"', '\'', '"', '\'']
                    } else {
                        seq![c]
                    },
            );
            &&& plain ==> shell_quoted(s) == s
            &&& !plain ==> shell_quoted(s) == seq!['\''] + inner + seq!['\'']
        }),
{
    lemma_escaped_in_order(s);
    let plain = s.len() > 0 && forall|i: int|
        0 <= i < s.len() ==> {
            let c = #[trigger] s[i];
            'a' <= c <= 'z' || 'A' <= c <= 'Z' || '0' <= c <= '9' || c == '-' || c == '_' || c
                == '.' || c == '/'
        };
    if plain {
        assert forall|i: int| 0 <= i < s.len() implies is_safe(#[trigger] s[i]) by {}
    } else if s.len() > 0 && all_safe(s) {
        assert forall|i: int| 0 <= i < s.len() implies {
            let c = #[trigger] s[i];
            'a' <= c <= 'z' || 'A' <= c <= 'Z' || '0' <= c <= '9' || c == '-' || c == '_' || c
                == '.' || c == '/'
        } by {
            assert(is_safe(s[i]));
        }
    }
}

/// A line holds its words, each one quoted where needed, with one blank between two of them.
pub proof fn law_lines_hold_their_words(words: Seq<Seq<char>>, last: Seq<char>)
    ensures
        shell_line(seq![last]) == shell_quoted(last),
        words.len() > 0 ==> shell_line(words.push(last)) == shell_line(words) + " "@
            + shell_quoted(last),
{
    assert(quoted_words(seq![last]) =~= seq![shell_quoted(last)]);
    assert(quoted_words(words.push(last)) =~= quoted_words(words).push(shell_quoted(last)));
    crate::text::law_join_grows_by_one_text(quoted_words(words), shell_quoted(last), " "@);
}

/// The words of the command line for some options: the pattern and the values of the options
/// in a fixed order, one of the two words on case, then each flag exactly where it is set,
/// the name of a key only with its export, and the interval of the reports. The limit is the
/// one given, 0 where it is 0, and 10 where it was left open; the interval is the one given,
/// else 1 in extreme mode and 2 otherwise.
pub proof fn law_command_words_name_every_option(args: &Args, threads: usize)
    requires
        args.pattern is Some,
    ensures
        ({
            let limit: nat = if args.limit is Some {
                args.limit->0 as nat
            } else {
                10
            };
            let interval: nat = if args.stats_interval is Some {
                args.stats_interval->0 as nat
            } else if args.extreme {
                1
            } else {
                2
            };
            let mode = match args.mode {
                Mode::Any => "any"@,
                Mode::Prefix => "prefix"@,
                Mode::Suffix => "suffix"@,
            };
            let none = Seq::<Seq<char>>::empty();
            let values = seq![
                "kooforge"@,
                args.pattern->0@,
                "--mode"@,
                mode,
                "--threads"@,
                decimal(threads as nat),
                "--limit"@,
                decimal(limit),
                "--out"@,
                args.out@,
                if args.case_sensitive {
                    "--case-sensitive"@
                } else {
                    "--case-insensitive"@
                },
            ];
            let print_only = if args.print_only {
                seq!["--print-only"@]
            } else {
                none
            };
            let export = if args.export_ipfs && args.key_name is Some {
                seq!["--export-ipfs"@, "--key-name"@, args.key_name->0@]
            } else if args.export_ipfs {
                seq!["--export-ipfs"@]
            } else {
                none
            };
            let no_color = if args.no_color {
                seq!["--no-color"@]
            } else {
                none
            };
            let extreme = if args.extreme {
                seq!["--extreme"@]
            } else {
                none
            };
            command_words(args, threads) == values + print_only + export + no_color + extreme
                + seq!["--stats-interval"@, decimal(interval)]
        }),
{
    let lead = leading_words(args, threads);
    let word = if args.case_sensitive {
        "--case-sensitive"@
    } else {
        "--case-insensitive"@
    };
    lemma_case_word(lead, args.case_sensitive);
    lemma_export_words(
        lead.push(word) + if_set(args.print_only, seq!["--print-only"@]),
        args.export_ipfs,
        args.key_name is Some,
        args.key_name->0@,
    );
    let mode = mode_name(args.mode);
    let limit = match effective_limit(args.limit) {
        Some(n) => n as nat,
        None => 0,
    };
    let values = seq![
        "kooforge"@,
        args.pattern->0@,
        "--mode"@,
        mode,
        "--threads"@,
        decimal(threads as nat),
        "--limit"@,
        decimal(limit),
        "--out"@,
        args.out@,
        word,
    ];
    assert(values =~= lead.push(word));
}

/// Exactly one word on case follows.
proof fn lemma_case_word(lead: Seq<Seq<char>>, case_sensitive: bool)
    ensures
        lead + if_set(!case_sensitive, seq!["--case-insensitive"@]) + if_set(
            case_sensitive,
            seq!["--case-sensitive"@],
        ) == lead.push(
            if case_sensitive {
                "--case-sensitive"@
            } else {
                "--case-insensitive"@
            },
        ),
{
}

/// The words on an export, together.
proof fn lemma_export_words(
    before: Seq<Seq<char>>,
    export: bool,
    has_name: bool,
    name: Seq<char>,
)
    ensures
        before + if_set(export, seq!["--export-ipfs"@]) + if_set(
            export && has_name,
            seq!["--key-name"@, name],
        ) == before + (if export && has_name {
            seq!["--export-ipfs"@, "--key-name"@, name]
        } else if export {
            seq!["--export-ipfs"@]
        } else {
            Seq::<Seq<char>>::empty()
        }),
{
}

} // verus!
