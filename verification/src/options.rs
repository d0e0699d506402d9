//! The options of a search: their defaults, the checks they go through before the
//! search starts, and the answers of a guided dialogue.

use crate::base58::{illegal_chars, invalid_pattern_text, validate_base58_pattern, InvalidPattern};
use crate::matching::Mode;
use crate::prefix::{normalize_prefix_pattern, normalized_prefix, REQUIRED_PREFIX};
use crate::text::{texts, trim, trimmed};
use vstd::prelude::*;

verus! {

/// The options as the user gave them.
#[derive(Debug)]
pub struct Args {
    pub pattern: Option<String>,
    pub mode: Mode,
    pub threads: Option<usize>,
    pub limit: Option<usize>,
    pub out: String,
    pub case_insensitive: bool,
    pub case_sensitive: bool,
    pub print_only: bool,
    pub stats_interval: Option<u64>,
    pub key_name: Option<String>,
    pub export_ipfs: bool,
    pub interactive: bool,
    pub no_color: bool,
    pub extreme: bool,
}

/// The number of hits after which the search ends: 10 by default, and no end for 0.
pub open spec fn effective_limit(limit: Option<usize>) -> Option<usize> {
    match limit {
        None => Some(10),
        Some(n) => if n == 0 {
            None
        } else {
            Some(n)
        },
    }
}

/// The number of hits after which the search ends; `None` for a search without end.
pub fn resolve_effective_limit(limit: Option<usize>) -> (r: Option<usize>)
    ensures
        r == effective_limit(limit),
        limit matches Some(n) ==> (if n == 0 {
            r is None
        } else {
            r == Some(n)
        }),
        limit is None ==> r == Some(10usize),
{
    match limit {
        None => Some(10),
        Some(0) => None,
        Some(n) => Some(n),
    }
}

/// The seconds between two reports: as given, else 1 in extreme mode and 2 otherwise.
pub open spec fn effective_stats_interval(stats_interval: Option<u64>, extreme: bool) -> u64 {
    match stats_interval {
        Some(v) => v,
        None => if extreme {
            1
        } else {
            2
        },
    }
}

/// The seconds between two reports.
pub fn resolve_stats_interval(stats_interval: Option<u64>, extreme: bool) -> (r: u64)
    ensures
        r == effective_stats_interval(stats_interval, extreme),
        stats_interval matches Some(v) ==> r == v,
{
    match stats_interval {
        Some(v) => v,
        None => {
            if extreme {
                1
            } else {
                2
            }
        },
    }
}

/// Whether the case of letters is ignored: always, unless the user asked for the
/// opposite.
pub fn effective_case_insensitive(args: &Args) -> (r: bool)
    ensures
        r == !args.case_sensitive,
{
    !args.case_sensitive
}

/// `num_cpus::get`. The number of logical processors, which is at least 1. More does
/// not hold on every machine.
#[verifier::external_body]
fn logical_cpus() -> (r: usize)
    ensures
        r >= 1,
{
    num_cpus::get()
}

/// The number of worker threads: as given, else one for each logical processor.
pub fn resolve_threads(threads: Option<usize>) -> (r: usize)
    ensures
        match threads {
            Some(n) => r == n,
            None => r >= 1,
        },
{
    match threads {
        Some(n) => n,
        None => logical_cpus(),
    }
}

/// Why a set of options is refused.
#[derive(Debug)]
pub enum ArgsError {
    /// There is no pattern.
    PatternRequired,
    /// There is nothing but white space in the pattern.
    PatternEmpty,
    /// The pattern holds characters that no identifier has.
    Invalid(InvalidPattern),
}

/// The message on a refusal.
pub open spec fn args_error_text(e: ArgsError) -> Seq<char> {
    match e {
        ArgsError::PatternRequired => "pattern required · 需要提供匹配子串"@,
        ArgsError::PatternEmpty => "Pattern cannot be empty · 匹配子串不能为空"@,
        ArgsError::Invalid(inner) => invalid_pattern_text(inner.illegal@),
    }
}

impl ArgsError {
    /// The message for the user.
    pub fn message(&self) -> (r: String)
        ensures
            r@ == args_error_text(*self),
    {
        match self {
            ArgsError::PatternRequired => "pattern required · 需要提供匹配子串".to_string(),
            ArgsError::PatternEmpty => "Pattern cannot be empty · 匹配子串不能为空".to_string(),
            ArgsError::Invalid(inner) => inner.message(),
        }
    }
}

/// `r` is what the check of the text `input` as a pattern has to give.
pub open spec fn is_pattern_check(input: Seq<char>, r: Result<(), ArgsError>) -> bool {
    let pattern = trimmed(input);
    match r {
        Ok(()) => pattern.len() > 0 && illegal_chars(pattern).len() == 0,
        Err(ArgsError::PatternRequired) => false,
        Err(ArgsError::PatternEmpty) => pattern.len() == 0,
        Err(ArgsError::Invalid(e)) => {
            &&& pattern.len() > 0
            &&& illegal_chars(pattern).len() > 0
            &&& e.illegal@ == illegal_chars(pattern)
        },
    }
}

/// Checks what the user typed as a pattern: without the white space around it, it must
/// not be empty and must hold Base58 digits only.
pub fn validate_pattern_input(input: &str) -> (r: Result<(), ArgsError>)
    ensures
        is_pattern_check(input@, r),
{
    let pattern = trim(input);
    if pattern.is_empty() {
        return Err(ArgsError::PatternEmpty);
    }
    proof {
        crate::base58::lemma_illegal_chars(pattern@);
    }
    match validate_base58_pattern(pattern) {
        Ok(()) => {
            proof {
                if illegal_chars(pattern@).len() > 0 {
                    let c = illegal_chars(pattern@)[0];
                    assert(illegal_chars(pattern@).contains(c));
                    let i = choose|i: int| 0 <= i < pattern@.len() && pattern@[i] == c;
                    assert(crate::base58::is_base58(pattern@[i]));
                }
            }
            Ok(())
        },
        Err(e) => {
            proof {
                let i = choose|i: int|
                    0 <= i < pattern@.len() && !crate::base58::is_base58(#[trigger] pattern@[i]);
                assert(pattern@.contains(pattern@[i]));
                assert(illegal_chars(pattern@).contains(pattern@[i]));
            }
            Err(ArgsError::Invalid(e))
        },
    }
}

/// The pattern that a search in mode `mode` uses for the typed text `input`.
pub open spec fn settled_pattern(mode: Mode, input: Seq<char>) -> Seq<char> {
    if mode == Mode::Prefix {
        normalized_prefix(trimmed(input))
    } else {
        trimmed(input)
    }
}

/// The notice that extreme mode overrides a request to ignore case.
pub open spec fn extreme_notice(args: &Args) -> Seq<Seq<char>> {
    if args.extreme && args.case_insensitive {
        seq![
            "Extreme mode ignores --case-insensitive and forces case-sensitive matching · 极致模式会忽略 --case-insensitive 并强制大小写敏感匹配"@,
        ]
    } else {
        Seq::empty()
    }
}

/// The notice that a prefix pattern was completed.
pub open spec fn completion_text(from: Seq<char>, to: Seq<char>) -> Seq<char> {
    "Prefix mode requires pattern to start with "@ + REQUIRED_PREFIX@
        + "; auto-completed · 前缀匹配要求以 "@ + REQUIRED_PREFIX@ + " 开头，已自动补齐: '"@ + from
        + "' -> '"@ + to + "'"@
}

/// The notice on the completion of the typed text `input`, where there was one.
pub open spec fn completion_notice(mode: Mode, input: Seq<char>) -> Seq<Seq<char>> {
    if settled_pattern(mode, input) == trimmed(input) {
        Seq::empty()
    } else {
        seq![completion_text(trimmed(input), settled_pattern(mode, input))]
    }
}

/// The notices on the options `args`; the second one only where the pattern passes.
pub open spec fn notices_for(args: &Args, passed: bool) -> Seq<Seq<char>> {
    if passed {
        extreme_notice(args) + completion_notice(args.mode, args.pattern->0@)
    } else {
        extreme_notice(args)
    }
}

/// What becomes of the pattern of `args`: it is settled where it passes the check, and
/// stays as it is otherwise.
pub open spec fn is_pattern_outcome(
    args: &Args,
    pattern: Option<String>,
    r: Result<(), ArgsError>,
) -> bool {
    match args.pattern {
        None => r == Err::<(), ArgsError>(ArgsError::PatternRequired) && pattern is None,
        Some(raw) => {
            &&& is_pattern_check(raw@, r)
            &&& pattern is Some
            &&& pattern->0@ == (if r is Ok {
                settled_pattern(args.mode, raw@)
            } else {
                raw@
            })
        },
    }
}

/// Settles the options before a search. Extreme mode turns case-sensitive matching on,
/// the interval of the reports is filled in, and the pattern is trimmed, checked and, in
/// prefix mode, completed. `notices` gets what the user should be told.
pub fn preprocess_args(args: &mut Args, notices: &mut Vec<String>) -> (r: Result<(), ArgsError>)
    ensures
        is_pattern_outcome(old(args), final(args).pattern, r),
        texts(final(notices)@) == texts(old(notices)@) + notices_for(old(args), r is Ok),
        final(args).case_insensitive == (old(args).case_insensitive && !old(args).extreme),
        final(args).case_sensitive == (old(args).case_sensitive || old(args).extreme),
        final(args).stats_interval == Some(
            effective_stats_interval(old(args).stats_interval, old(args).extreme),
        ),
        final(args).mode == old(args).mode,
        final(args).threads == old(args).threads,
        final(args).limit == old(args).limit,
        final(args).out == old(args).out,
        final(args).print_only == old(args).print_only,
        final(args).key_name == old(args).key_name,
        final(args).export_ipfs == old(args).export_ipfs,
        final(args).interactive == old(args).interactive,
        final(args).no_color == old(args).no_color,
        final(args).extreme == old(args).extreme,
{
    let ghost said = notices@;
    if args.extreme {
        if args.case_insensitive {
            notices.push(
                "Extreme mode ignores --case-insensitive and forces case-sensitive matching · 极致模式会忽略 --case-insensitive 并强制大小写敏感匹配".to_string(),
            );
        }
        args.case_insensitive = false;
        args.case_sensitive = true;
    }
    args.stats_interval = Some(resolve_stats_interval(args.stats_interval, args.extreme));
    assert(texts(notices@) =~= texts(said) + extreme_notice(old(args)));

    let raw: String = match &args.pattern {
        None => {
            return Err(ArgsError::PatternRequired);
        },
        Some(raw) => raw.clone(),
    };
    if let Err(e) = validate_pattern_input(raw.as_str()) {
        return Err(e);
    }
    let mut pattern: String = trim(raw.as_str()).to_string();
    if args.mode == Mode::Prefix {
        let normalized: String = normalize_prefix_pattern(pattern.as_str());
        if normalized != pattern {
            let mut notice = "Prefix mode requires pattern to start with ".to_string();
            notice.append(REQUIRED_PREFIX);
            notice.append("; auto-completed · 前缀匹配要求以 ");
            notice.append(REQUIRED_PREFIX);
            notice.append(" 开头，已自动补齐: '");
            notice.append(pattern.as_str());
            notice.append("' -> '");
            notice.append(normalized.as_str());
            notice.append("'");
            notices.push(notice);
            pattern = normalized;
        }
    }
    assert(texts(notices@) =~= texts(said) + notices_for(old(args), true));
    args.pattern = Some(pattern);
    Ok(())
}

/// The position of a mode in the list that the dialogue offers.
pub open spec fn mode_position(mode: Mode) -> usize {
    match mode {
        Mode::Any => 0,
        Mode::Prefix => 1,
        Mode::Suffix => 2,
    }
}

/// The position of a mode in the list that the dialogue offers.
pub fn mode_index(mode: Mode) -> (r: usize)
    ensures
        r == mode_position(mode),
{
    match mode {
        Mode::Any => 0,
        Mode::Prefix => 1,
        Mode::Suffix => 2,
    }
}

/// The mode at a position of the list that the dialogue offers; the last one for any
/// position behind the first two.
pub fn mode_from_index(index: usize) -> (r: Mode)
    ensures
        r == (if index == 0 {
            Mode::Any
        } else if index == 1 {
            Mode::Prefix
        } else {
            Mode::Suffix
        }),
{
    match index {
        0 => Mode::Any,
        1 => Mode::Prefix,
        _ => Mode::Suffix,
    }
}

/// Why a number is refused.
#[derive(Clone, Copy, Debug, PartialEq, Eq, Structural)]
pub enum NumberError {
    /// A character is no decimal digit, or there is none.
    InvalidDigit,
    /// The number is too large.
    TooLarge,
}

impl NumberError {
    /// The message for the user.
    pub fn message(&self) -> (r: String)
        ensures
            r@ == (match *self {
                NumberError::InvalidDigit => "invalid digit found in string"@,
                NumberError::TooLarge => "number too large to fit in target type"@,
            }),
    {
        match self {
            NumberError::InvalidDigit => "invalid digit found in string".to_string(),
            NumberError::TooLarge => "number too large to fit in target type".to_string(),
        }
    }
}

/// `c` is a decimal digit.
pub open spec fn is_digit(c: char) -> bool {
    '0' <= c <= '9'
}

/// The number of digits that `s` starts with.
pub open spec fn digit_run(s: Seq<char>) -> nat
    decreases s.len(),
{
    if s.len() == 0 || !is_digit(s[0]) {
        0
    } else {
        1 + digit_run(s.drop_first())
    }
}

/// The number that the digits `s` write.
pub open spec fn decimal_value(s: Seq<char>) -> nat
    decreases s.len(),
{
    if s.len() == 0 {
        0
    } else {
        (decimal_value(s.drop_last()) * 10 + (s.last() as int - '0' as int)) as nat
    }
}

/// A number as it is typed, without one plus sign in front.
pub open spec fn without_plus(s: Seq<char>) -> Seq<char> {
    if s.len() > 0 && s[0] == '+' {
        s.drop_first()
    } else {
        s
    }
}

/// The number that a text writes: digits only, with one plus sign allowed in front.
/// Where the text goes wrong in two ways, the one that comes first in it counts.
pub open spec fn parsed_usize(text: Seq<char>) -> Result<usize, NumberError> {
    let s = without_plus(text);
    let run = digit_run(s) as int;
    if decimal_value(s.take(run)) > usize::MAX {
        Err(NumberError::TooLarge)
    } else if run == 0 || run < s.len() {
        Err(NumberError::InvalidDigit)
    } else {
        Ok(decimal_value(s) as usize)
    }
}

/// The first `k` characters are digits, and no more than the run of digits.
pub(crate) proof fn lemma_digit_run(s: Seq<char>, k: int)
    requires
        0 <= k <= s.len(),
        forall|i: int| 0 <= i < k ==> is_digit(#[trigger] s[i]),
    ensures
        k <= digit_run(s) <= s.len(),
        k < s.len() && !is_digit(s[k]) ==> digit_run(s) == k,
    decreases s.len(),
{
    if s.len() > 0 && is_digit(s[0]) {
        let rest = s.drop_first();
        if k > 0 {
            assert forall|i: int| 0 <= i < k - 1 implies is_digit(#[trigger] rest[i]) by {
                assert(rest[i] == s[i + 1]);
            }
            lemma_digit_run(rest, k - 1);
            if k < s.len() {
                assert(rest[k - 1] == s[k]);
            }
        } else {
            lemma_digit_run(rest, 0);
        }
    }
}

/// More digits make a number no smaller.
proof fn lemma_decimal_value_grows(s: Seq<char>, i: int, j: int)
    requires
        0 <= i <= j <= digit_run(s),
        digit_run(s) <= s.len(),
        forall|k: int| 0 <= k < digit_run(s) ==> is_digit(#[trigger] s[k]),
    ensures
        decimal_value(s.take(i)) <= decimal_value(s.take(j)),
    decreases j,
{
    if i < j {
        lemma_decimal_value_grows(s, i, j - 1);
        assert(s.take(j).drop_last() =~= s.take(j - 1));
        assert(s.take(j).last() == s[j - 1]);
    }
}

/// The characters of the run of digits are digits.
proof fn lemma_run_holds_digits(s: Seq<char>)
    ensures
        digit_run(s) <= s.len(),
        forall|k: int| 0 <= k < digit_run(s) ==> is_digit(#[trigger] s[k]),
    decreases s.len(),
{
    if s.len() > 0 && is_digit(s[0]) {
        let rest = s.drop_first();
        lemma_run_holds_digits(rest);
        assert forall|k: int| 0 <= k < digit_run(s) implies is_digit(#[trigger] s[k]) by {
            if k > 0 {
                assert(rest[k - 1] == s[k]);
            }
        }
    }
}

/// Reads a number.
fn parse_usize(text: &str) -> (r: Result<usize, NumberError>)
    ensures
        r == parsed_usize(text@),
{
    let len: usize = text.unicode_len();
    let first: usize = if len > 0 && text.get_char(0) == '+' {
        1
    } else {
        0
    };
    let ghost s = without_plus(text@);
    proof {
        lemma_run_holds_digits(s);
        assert(s =~= text@.skip(first as int));
    }
    let mut value: usize = 0;
    let mut i: usize = first;
    while i < len
        invariant
            len == text@.len(),
            first <= i <= len,
            s == without_plus(text@),
            s == text@.skip(first as int),
            forall|k: int| 0 <= k < i - first ==> is_digit(#[trigger] s[k]),
            value == decimal_value(s.take(i - first)),
            digit_run(s) <= s.len(),
            forall|k: int| 0 <= k < digit_run(s) ==> is_digit(#[trigger] s[k]),
        decreases len - i,
    {
        let c: char = text.get_char(i);
        let ghost at = i - first;
        assert(c == s[at]);
        if c < '0' || c > '9' {
            proof {
                lemma_digit_run(s, at);
            }
            return Err(NumberError::InvalidDigit);
        }
        let digit: usize = (c as u8 - 48) as usize;
        proof {
            lemma_digit_run(s, at + 1);
            lemma_decimal_value_grows(s, at + 1, digit_run(s) as int);
            assert(s.take(at + 1).drop_last() =~= s.take(at));
        }
        match value.checked_mul(10) {
            None => {
                return Err(NumberError::TooLarge);
            },
            Some(tens) => match tens.checked_add(digit) {
                None => {
                    return Err(NumberError::TooLarge);
                },
                Some(sum) => {
                    value = sum;
                },
            },
        }
        i = i + 1;
    }
    proof {
        lemma_digit_run(s, s.len() as int);
        assert(s.take(s.len() as int) =~= s);
    }
    if i == first {
        return Err(NumberError::InvalidDigit);
    }
    Ok(value)
}

/// Reads the limit that the user typed. Nothing but white space stands for the default.
pub fn parse_limit_answer(text: &str) -> (r: Result<Option<usize>, NumberError>)
    ensures
        r == (if trimmed(text@).len() == 0 {
            Ok(None)
        } else {
            match parsed_usize(trimmed(text@)) {
                Ok(n) => Ok(Some(n)),
                Err(e) => Err(e),
            }
        }),
{
    let inner = trim(text);
    if inner.is_empty() {
        return Ok(None);
    }
    match parse_usize(inner) {
        Ok(n) => Ok(Some(n)),
        Err(e) => Err(e),
    }
}

/// What the dialogue offers as answers before the user gives any.
#[derive(Debug)]
pub struct Defaults {
    /// The position in the list of modes.
    pub mode: usize,
    pub threads: usize,
    pub out: String,
    pub case_insensitive: bool,
    pub extreme: bool,
    pub print_only: bool,
    pub export_ipfs: bool,
    pub use_color: bool,
}

/// What the dialogue offers, given the options `base` of the command line. The interval of
/// the reports is not among them: `resolve_stats_interval` gives it once the user has chosen
/// for or against extreme mode.
pub fn guided_defaults(base: &Args) -> (r: Defaults)
    ensures
        r.mode == mode_position(base.mode),
        match base.threads {
            Some(n) => r.threads == n,
            None => r.threads >= 1,
        },
        r.out@ == base.out@,
        r.case_insensitive == !base.case_sensitive,
        r.extreme == base.extreme,
        r.print_only == base.print_only,
        r.export_ipfs == base.export_ipfs,
        r.use_color == !base.no_color,
{
    Defaults {
        mode: mode_index(base.mode),
        threads: resolve_threads(base.threads),
        out: base.out.clone(),
        case_insensitive: effective_case_insensitive(base),
        extreme: base.extreme,
        print_only: base.print_only,
        export_ipfs: base.export_ipfs,
        use_color: !base.no_color,
    }
}

/// What the user answered in the dialogue.
#[derive(Debug)]
pub struct Answers {
    pub pattern: String,
    pub mode: Mode,
    pub threads: usize,
    pub limit: Option<usize>,
    pub out: String,
    pub case_insensitive: bool,
    pub extreme: bool,
    pub print_only: bool,
    pub stats_interval: u64,
    pub export_ipfs: bool,
    pub key_name: Option<String>,
    pub use_color: bool,
}

/// The options that the answers of the dialogue stand for. A file name counts only with
/// the export that it is for.
pub fn interactive_args(answers: Answers) -> (r: Args)
    ensures
        r.pattern is Some && r.pattern->0@ == trimmed(answers.pattern@),
        r.mode == answers.mode,
        r.threads == Some(answers.threads),
        r.limit == answers.limit,
        r.out == answers.out,
        r.case_insensitive == answers.case_insensitive,
        r.case_sensitive == !answers.case_insensitive,
        r.print_only == answers.print_only,
        r.stats_interval == Some(answers.stats_interval),
        r.key_name == (if answers.export_ipfs {
            answers.key_name
        } else {
            None
        }),
        r.export_ipfs == answers.export_ipfs,
        r.interactive == false,
        r.no_color == !answers.use_color,
        r.extreme == answers.extreme,
{
    let key_name: Option<String> = if answers.export_ipfs {
        answers.key_name
    } else {
        None
    };
    Args {
        pattern: Some(trim(answers.pattern.as_str()).to_string()),
        mode: answers.mode,
        threads: Some(answers.threads),
        limit: answers.limit,
        out: answers.out,
        case_insensitive: answers.case_insensitive,
        case_sensitive: !answers.case_insensitive,
        print_only: answers.print_only,
        stats_interval: Some(answers.stats_interval),
        key_name,
        export_ipfs: answers.export_ipfs,
        interactive: false,
        no_color: !answers.use_color,
        extreme: answers.extreme,
    }
}

/// An interval that the user gives is used as it is, whatever it is and in either mode of
/// speed; without one, reports come every second in extreme mode and every other second
/// otherwise.
pub proof fn law_given_interval_is_used(v: u64, extreme: bool)
    ensures
        effective_stats_interval(Some(v), extreme) == v,
        effective_stats_interval(None, true) == 1,
        effective_stats_interval(None, false) == 2,
{
}

/// A limit that the user gives is used as it is, but 0, which stands for no end; without one
/// the search ends after ten hits.
pub proof fn law_given_limit_is_used(n: usize)
    ensures
        n > 0 ==> effective_limit(Some(n)) == Some(n),
        effective_limit(Some(0)) is None,
        effective_limit(None) == Some(10usize),
{
}

/// A text passes as a pattern exactly if, without the white space around it, it holds at
/// least one character, and none but the digits and letters that are left without `0`, `O`,
/// `I` and `l`. A text of white space is refused as empty, and any other one for the
/// characters that do not pass.
pub proof fn law_pattern_check_admits_base58_only(input: Seq<char>, r: Result<(), ArgsError>)
    requires
        is_pattern_check(input, r),
    ensures
        r is Ok <==> {
            &&& trimmed(input).len() > 0
            &&& forall|i: int|
                0 <= i < trimmed(input).len() ==> {
                    let c = #[trigger] trimmed(input)[i];
                    ('1' <= c <= '9' || 'A' <= c <= 'Z' || 'a' <= c <= 'z') && c != 'O' && c != 'I'
                        && c != 'l'
                }
        },
        r is Err ==> match r->Err_0 {
            ArgsError::PatternRequired => false,
            ArgsError::PatternEmpty => trimmed(input).len() == 0,
            ArgsError::Invalid(e) => {
                &&& trimmed(input).len() > 0
                &&& e.illegal@.len() > 0
                &&& e.illegal@ == illegal_chars(trimmed(input))
                &&& forall|c: char| #[trigger]
                    e.illegal@.contains(c) <==> trimmed(input).contains(c) && !(('1' <= c <= '9'
                        || 'A' <= c <= 'Z' || 'a' <= c <= 'z') && c != 'O' && c != 'I' && c != 'l')
            },
        },
{
    let p = trimmed(input);
    crate::base58::lemma_illegal_chars(p);
    assert forall|c: char|
        #[trigger] crate::base58::is_base58(c) <==> (('1' <= c <= '9' || 'A' <= c <= 'Z' || 'a' <= c
            <= 'z') && c != 'O' && c != 'I' && c != 'l') by {
        crate::base58::law_base58_digits_are_unmistakable(c);
    }
    if r is Ok {
        assert forall|i: int| 0 <= i < p.len() implies crate::base58::is_base58(#[trigger] p[i]) by {
            assert(p.contains(p[i]));
            assert(!illegal_chars(p).contains(p[i]));
        }
    } else if illegal_chars(p).len() > 0 {
        let c = illegal_chars(p)[0];
        assert(illegal_chars(p).contains(c));
        let i = choose|i: int| 0 <= i < p.len() && p[i] == c;
        assert(!crate::base58::is_base58(p[i]));
    }
}

/// The pattern of a search is the typed text without the white space around it, and in prefix
/// mode that one completed.
pub proof fn law_only_prefixes_are_completed(input: Seq<char>)
    ensures
        settled_pattern(Mode::Any, input) == trimmed(input),
        settled_pattern(Mode::Suffix, input) == trimmed(input),
        settled_pattern(Mode::Prefix, input) == normalized_prefix(trimmed(input)),
{
}

/// What becomes of the pattern of some options: nothing where there is none, the settled one
/// where it passes, and the typed one where it does not.
pub proof fn law_pattern_is_settled_where_it_passes(
    args: &Args,
    pattern: Option<String>,
    r: Result<(), ArgsError>,
)
    requires
        is_pattern_outcome(args, pattern, r),
    ensures
        args.pattern is None ==> r == Err::<(), ArgsError>(ArgsError::PatternRequired) && pattern
            is None,
        args.pattern is Some ==> is_pattern_check(args.pattern->0@, r) && pattern is Some,
        args.pattern is Some && r is Ok ==> pattern->0@ == settled_pattern(
            args.mode,
            args.pattern->0@,
        ),
        args.pattern is Some && r is Err ==> pattern->0@ == args.pattern->0@,
{
}

/// What the user is told: that extreme mode overrides a wish to ignore case, where both are
/// set; and, of a pattern that passes, what it was completed to, where it was. Nothing else.
pub proof fn law_notices_tell_what_was_changed(args: &Args)
    ensures
        ({
            let typed = trimmed(args.pattern->0@);
            let used = settled_pattern(args.mode, args.pattern->0@);
            let first =
                "Extreme mode ignores --case-insensitive and forces case-sensitive matching · 极致模式会忽略 --case-insensitive 并强制大小写敏感匹配"@;
            let second = "Prefix mode requires pattern to start with "@ + "12D3KooW"@
                + "; auto-completed · 前缀匹配要求以 "@ + "12D3KooW"@ + " 开头，已自动补齐: '"@ + typed
                + "' -> '"@ + used + "'"@;
            let overrides = args.extreme && args.case_insensitive;
            &&& overrides ==> notices_for(args, false) == seq![first]
            &&& !overrides ==> notices_for(args, false).len() == 0
            &&& used == typed ==> notices_for(args, true) == notices_for(args, false)
            &&& used != typed ==> notices_for(args, true) == notices_for(args, false).push(second)
        }),
{
    assert(notices_for(args, true) =~= extreme_notice(args) + completion_notice(
        args.mode,
        args.pattern->0@,
    ));
}

/// The message on each refusal.
pub proof fn law_refusals_have_their_messages(e: InvalidPattern)
    ensures
        args_error_text(ArgsError::PatternRequired) == "pattern required · 需要提供匹配子串"@,
        args_error_text(ArgsError::PatternEmpty) == "Pattern cannot be empty · 匹配子串不能为空"@,
        args_error_text(ArgsError::Invalid(e)) == invalid_pattern_text(e.illegal@),
{
}

/// The dialogue lists any, prefix and suffix, in this order.
pub proof fn law_modes_are_listed_in_order(mode: Mode)
    ensures
        mode_position(mode) == 0 <==> mode == Mode::Any,
        mode_position(mode) == 1 <==> mode == Mode::Prefix,
        mode_position(mode) == 2 <==> mode == Mode::Suffix,
{
}

/// The number that digits write is what they add up to.
proof fn lemma_decimal_value_adds_up(s: Seq<char>)
    requires
        forall|i: int| 0 <= i < s.len() ==> '0' <= #[trigger] s[i] <= '9',
    ensures
        decimal_value(s) == s.fold_left(0, |sum: int, c: char| sum * 10 + (c as int - 48)),
    decreases s.len(),
{
    if s.len() > 0 {
        let init = s.drop_last();
        assert forall|i: int| 0 <= i < init.len() implies '0' <= #[trigger] init[i] <= '9' by {
            assert(init[i] == s[i]);
        }
        assert('0' <= s[s.len() - 1] <= '9');
        lemma_decimal_value_adds_up(init);
    }
}

/// A text is read as a number exactly if it holds digits, at least one and nothing else, that
/// add up to a number that fits. One plus sign may stand in front; `digits` is what stands
/// behind it, or the whole text where there is none.
pub proof fn law_digits_are_read_as_what_they_add_up_to(text: Seq<char>, digits: Seq<char>)
    requires
        text == seq!['+'] + digits || (text == digits && !(text.len() > 0 && text[0] == '+')),
    ensures
        ({
            let numeric = digits.len() > 0 && forall|i: int|
                0 <= i < digits.len() ==> '0' <= #[trigger] digits[i] <= '9';
            let total = digits.fold_left(0, |sum: int, c: char| sum * 10 + (c as int - 48));
            &&& numeric && total <= usize::MAX ==> parsed_usize(text) == Ok::<usize, NumberError>(
                total as usize,
            )
            &&& numeric && total > usize::MAX ==> parsed_usize(text) == Err::<usize, NumberError>(
                NumberError::TooLarge,
            )
            &&& !numeric ==> parsed_usize(text) is Err
        }),
{
    assert(without_plus(text) =~= digits);
    lemma_run_holds_digits(digits);
    let numeric = digits.len() > 0 && forall|i: int|
        0 <= i < digits.len() ==> '0' <= #[trigger] digits[i] <= '9';
    let run = digit_run(digits) as int;
    if numeric {
        assert forall|i: int| 0 <= i < digits.len() implies is_digit(#[trigger] digits[i]) by {}
        lemma_digit_run(digits, digits.len() as int);
        assert(digits.take(run) =~= digits);
        lemma_decimal_value_adds_up(digits);
    } else if run == digits.len() && run > 0 {
        assert forall|i: int| 0 <= i < digits.len() implies '0' <= #[trigger] digits[i] <= '9' by {
            assert(is_digit(digits[i]));
        }
    }
}

/// Of a text with a character that is no digit, the digits before it decide how it is
/// refused: as too large where they alone add up to more than fits, and for the character
/// otherwise.
pub proof fn law_first_fault_of_a_number_counts(digits: Seq<char>, rest: Seq<char>)
    requires
        rest.len() > 0,
        !('0' <= rest[0] <= '9'),
        digits.len() == 0 ==> rest[0] != '+',
        forall|i: int| 0 <= i < digits.len() ==> '0' <= #[trigger] digits[i] <= '9',
    ensures
        ({
            let total = digits.fold_left(0, |sum: int, c: char| sum * 10 + (c as int - 48));
            &&& total > usize::MAX ==> parsed_usize(digits + rest) == Err::<usize, NumberError>(
                NumberError::TooLarge,
            )
            &&& total <= usize::MAX ==> parsed_usize(digits + rest) == Err::<usize, NumberError>(
                NumberError::InvalidDigit,
            )
        }),
{
    let text = digits + rest;
    let at = digits.len() as int;
    if at > 0 {
        assert('0' <= digits[0] <= '9');
    }
    assert(without_plus(text) == text);
    assert forall|i: int| 0 <= i < at implies is_digit(#[trigger] text[i]) by {
        assert(text[i] == digits[i]);
    }
    lemma_digit_run(text, at);
    assert(text.take(at) =~= digits);
    lemma_decimal_value_adds_up(digits);
}

} // verus!
