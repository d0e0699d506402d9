//! The Base58 alphabet, the check of a pattern against it, and the Base58
//! notation of a byte string.

use crate::text::{join, join_strings, texts};
use vstd::prelude::*;
use vstd::utf8::encode_utf8;

verus! {

/// The digits of Base58 in the order of their values.
pub const BASE58BTC_ALPHABET: &'static str = "123456789ABCDEFGHJKLMNPQRSTUVWXYZabcdefghijkmnopqrstuvwxyz";

/// `c` is a Base58 digit.
pub open spec fn is_base58(c: char) -> bool {
    BASE58BTC_ALPHABET@.contains(c)
}

/// The characters of `pattern` that are no Base58 digits, each one once, in the
/// order in which they first appear.
pub open spec fn illegal_chars(pattern: Seq<char>) -> Seq<char>
    decreases pattern.len(),
{
    if pattern.len() == 0 {
        Seq::empty()
    } else {
        let before = illegal_chars(pattern.drop_last());
        let c = pattern.last();
        if is_base58(c) || before.contains(c) {
            before
        } else {
            before.push(c)
        }
    }
}

/// A pattern holds characters that are no Base58 digits.
#[derive(Debug)]
pub struct InvalidPattern {
    /// The offending characters, each one once, in order of appearance.
    pub illegal: Vec<char>,
}

/// The offending characters as the message lists them.
pub open spec fn quoted_list(illegal: Seq<char>) -> Seq<char> {
    join(Seq::new(illegal.len(), |i: int| seq!['\'', illegal[i], '\'']), ", "@)
}

/// A list with `hint` at its end if `c` is among the offending characters.
pub open spec fn with_hint(
    hints: Seq<Seq<char>>,
    illegal: Seq<char>,
    c: char,
    hint: Seq<char>,
) -> Seq<Seq<char>> {
    if illegal.contains(c) {
        hints.push(hint)
    } else {
        hints
    }
}

/// The hints on the four characters that Base58 leaves out, in a fixed order.
pub open spec fn confusion_hints(illegal: Seq<char>) -> Seq<Seq<char>> {
    let h0 = with_hint(
        Seq::empty(),
        illegal,
        '0',
        "`0` (zero) is excluded; use `o` or `O` only when intended · `0`（数字零）不在 Base58 中"@,
    );
    let h1 = with_hint(
        h0,
        illegal,
        'O',
        "`O` (capital o) is excluded to avoid confusion with `0` · `O`（大写字母 O）不在 Base58 中"@,
    );
    let h2 = with_hint(
        h1,
        illegal,
        'I',
        "`I` (capital i) is excluded to avoid confusion with `1`/`l` · `I`（大写字母 I）不在 Base58 中"@,
    );
    with_hint(
        h2,
        illegal,
        'l',
        "`l` (lowercase L) is excluded to avoid confusion with `1`/`I` · `l`（小写字母 l）不在 Base58 中"@,
    )
}

/// The hints of the message: those on confusing characters or, without any, the
/// alphabet.
pub open spec fn hints(illegal: Seq<char>) -> Seq<Seq<char>> {
    let found = confusion_hints(illegal);
    if found.len() == 0 {
        seq![
            "Use only Base58btc characters: 123456789ABCDEFGHJKLMNPQRSTUVWXYZabcdefghijkmnopqrstuvwxyz · 仅可使用 Base58btc 字符集"@,
        ]
    } else {
        found
    }
}

/// The message on a pattern with these offending characters.
pub open spec fn invalid_pattern_text(illegal: Seq<char>) -> Seq<char> {
    "Invalid Base58 pattern: illegal character(s) "@ + quoted_list(illegal)
        + " · Base58 模式非法字符: "@ + quoted_list(illegal) + "\n"@ + join(hints(illegal), "\n"@)
}

/// Whether `c` is a Base58 digit.
pub(crate) fn is_base58_digit(c: char) -> (r: bool)
    ensures
        r == is_base58(c),
{
    let len: usize = BASE58BTC_ALPHABET.unicode_len();
    let mut i: usize = 0;
    while i < len
        invariant
            i <= len,
            len == BASE58BTC_ALPHABET@.len(),
            forall|k: int| 0 <= k < i ==> BASE58BTC_ALPHABET@[k] != c,
        decreases len - i,
    {
        if BASE58BTC_ALPHABET.get_char(i) == c {
            return true;
        }
        i = i + 1;
    }
    false
}

/// Whether `c` is in `list`.
fn has_char(list: &Vec<char>, c: char) -> (r: bool)
    ensures
        r == list@.contains(c),
{
    let mut i: usize = 0;
    while i < list.len()
        invariant
            i <= list@.len(),
            forall|k: int| 0 <= k < i ==> list@[k] != c,
        decreases list@.len() - i,
    {
        if list[i] == c {
            return true;
        }
        i = i + 1;
    }
    false
}

/// Accepts a pattern made of Base58 digits only.
pub fn validate_base58_pattern(pattern: &str) -> (r: Result<(), InvalidPattern>)
    ensures
        r is Ok <==> (forall|i: int| 0 <= i < pattern@.len() ==> is_base58(#[trigger] pattern@[i])),
        r matches Err(e) ==> e.illegal@ == illegal_chars(pattern@),
{
    let mut illegal: Vec<char> = Vec::new();
    for ch in it: pattern.chars()
        invariant
            it.seq() == pattern@,
            illegal@ == illegal_chars(pattern@.take(it.index())),
    {
        let ghost k = it.index();
        proof {
            assert(pattern@.take(k + 1).drop_last() =~= pattern@.take(k));
            assert(pattern@.take(k + 1).last() == ch);
        }
        if !is_base58_digit(ch) && !has_char(&illegal, ch) {
            illegal.push(ch);
        }
    }
    assert(pattern@.take(pattern@.len() as int) =~= pattern@);
    proof {
        lemma_illegal_chars(pattern@);
    }
    if illegal.len() == 0 {
        assert forall|i: int| 0 <= i < pattern@.len() implies is_base58(#[trigger] pattern@[i]) by {
            assert(pattern@.contains(pattern@[i]));
            assert(!illegal_chars(pattern@).contains(pattern@[i]));
        }
        return Ok(());
    }
    assert(illegal@.contains(illegal@[0]));
    Err(InvalidPattern { illegal })
}

/// `illegal_chars` holds exactly the characters of the pattern that are no Base58
/// digits, and none of them twice.
pub proof fn lemma_illegal_chars(pattern: Seq<char>)
    ensures
        forall|c: char| #[trigger]
            illegal_chars(pattern).contains(c) <==> pattern.contains(c) && !is_base58(c),
        illegal_chars(pattern).no_duplicates(),
    decreases pattern.len(),
{
    if pattern.len() > 0 {
        let init = pattern.drop_last();
        let last = pattern.last();
        lemma_illegal_chars(init);
        let before = illegal_chars(init);
        assert forall|c: char| #[trigger] pattern.contains(c) == (init.contains(c) || c == last) by {
            if pattern.contains(c) {
                let i = choose|i: int| 0 <= i < pattern.len() && pattern[i] == c;
                if i < init.len() {
                    assert(init[i] == c);
                }
            }
            if init.contains(c) {
                let i = choose|i: int| 0 <= i < init.len() && init[i] == c;
                assert(pattern[i] == c);
            }
            assert(pattern[pattern.len() - 1] == last);
        }
        assert forall|c: char| #[trigger]
            before.push(last).contains(c) == (before.contains(c) || c == last) by {
            let p = before.push(last);
            if before.contains(c) {
                let i = choose|i: int| 0 <= i < before.len() && before[i] == c;
                assert(p[i] == c);
            }
            assert(p[before.len() as int] == last);
        }
        assert forall|c: char| #[trigger]
            illegal_chars(pattern).contains(c) <==> pattern.contains(c) && !is_base58(c) by {}
    }
}

impl InvalidPattern {
    /// The message for the user.
    pub fn message(&self) -> (r: String)
        ensures
            r@ == invalid_pattern_text(self.illegal@),
    {
        let mut quoted: Vec<String> = Vec::new();
        let ghost want = Seq::new(self.illegal@.len(), |i: int| seq!['\'', self.illegal@[i], '\'']);
        let mut i: usize = 0;
        while i < self.illegal.len()
            invariant
                i <= self.illegal@.len(),
                want == Seq::new(self.illegal@.len(), |i: int| seq!['\'', self.illegal@[i], '\'']),
                texts(quoted@) == want.take(i as int),
            decreases self.illegal@.len() - i,
        {
            let mut item = String::new();
            item.push('\'');
            item.push(self.illegal[i]);
            item.push('\'');
            assert(item@ =~= want[i as int]);
            let ghost before = quoted@;
            quoted.push(item);
            assert(texts(quoted@) =~= texts(before).push(want[i as int]));
            i = i + 1;
            assert(texts(quoted@) =~= want.take(i as int));
        }
        assert(want.take(i as int) =~= want);
        let list: String = join_strings(&quoted, ", ");

        let mut found: Vec<String> = Vec::new();
        assert(texts(found@) =~= Seq::empty());
        self.push_hint(
            &mut found,
            '0',
            "`0` (zero) is excluded; use `o` or `O` only when intended · `0`（数字零）不在 Base58 中",
        );
        self.push_hint(
            &mut found,
            'O',
            "`O` (capital o) is excluded to avoid confusion with `0` · `O`（大写字母 O）不在 Base58 中",
        );
        self.push_hint(
            &mut found,
            'I',
            "`I` (capital i) is excluded to avoid confusion with `1`/`l` · `I`（大写字母 I）不在 Base58 中",
        );
        self.push_hint(
            &mut found,
            'l',
            "`l` (lowercase L) is excluded to avoid confusion with `1`/`I` · `l`（小写字母 l）不在 Base58 中",
        );
        if found.len() == 0 {
            found.push(
                "Use only Base58btc characters: 123456789ABCDEFGHJKLMNPQRSTUVWXYZabcdefghijkmnopqrstuvwxyz · 仅可使用 Base58btc 字符集".to_string(),
            );
        }
        assert(texts(found@) =~= hints(self.illegal@));

        let mut r = "Invalid Base58 pattern: illegal character(s) ".to_string();
        r.append(list.as_str());
        r.append(" · Base58 模式非法字符: ");
        r.append(list.as_str());
        r.append("\n");
        r.append(join_strings(&found, "\n").as_str());
        r
    }

    /// Adds `hint` if `c` is among the offending characters.
    fn push_hint(&self, found: &mut Vec<String>, c: char, hint: &str)
        ensures
            texts(final(found)@) == with_hint(texts(old(found)@), self.illegal@, c, hint@),
    {
        if has_char(&self.illegal, c) {
            found.push(hint.to_string());
            assert(texts(found@) =~= texts(old(found)@).push(hint@));
        }
    }
}

/// The number that `bytes` write with the most significant byte first.
pub open spec fn be_value(bytes: Seq<u8>) -> nat
    decreases bytes.len(),
{
    if bytes.len() == 0 {
        0
    } else {
        be_value(bytes.drop_last()) * 256 + bytes.last() as nat
    }
}

/// The notation of `n` in base 58 without leading zeros; nothing for zero.
pub open spec fn base58_digits(n: nat) -> Seq<char>
    decreases n,
{
    if n == 0 {
        Seq::empty()
    } else {
        base58_digits(n / 58).push(BASE58BTC_ALPHABET@[(n % 58) as int])
    }
}

/// The number of zero bytes that `bytes` start with.
pub open spec fn leading_zeros(bytes: Seq<u8>) -> nat
    decreases bytes.len(),
{
    if bytes.len() == 0 || bytes[0] != 0 {
        0
    } else {
        1 + leading_zeros(bytes.drop_first())
    }
}

/// The Base58 notation of a byte string: one `1` for each leading zero byte,
/// then the number that the bytes write.
pub open spec fn base58(bytes: Seq<u8>) -> Seq<char> {
    Seq::new(leading_zeros(bytes), |i: int| '1') + base58_digits(be_value(bytes))
}

/// `bs58::encode::Error`, of which nothing is known.
#[verifier::external_type_specification]
#[verifier::external_body]
pub struct ExEncodeError(bs58::encode::Error);

/// `bs58::encode(input).onto(buf)`, with the alphabet of Bitcoin. The digits of
/// `input` are appended to `buf` as ASCII bytes, and their number is returned. A
/// vector grows as needed, so the only error there is, a full buffer, does not
/// occur. The bound keeps the length that is reserved within what a vector holds.
#[verifier::external_body]
fn bs58_encode_onto(input: &[u8], buf: &mut Vec<u8>) -> (r: Result<usize, bs58::encode::Error>)
    requires
        old(buf)@.len() + 2 * input@.len() + 1 <= isize::MAX,
    ensures
        final(buf)@ == old(buf)@ + encode_utf8(base58(input@)),
        r is Ok && r->Ok_0 == base58(input@).len(),
{
    bs58::encode(input).onto(buf)
}

/// Writes the Base58 notation of `raw` into `buf` in place of what it held.
pub fn encode_base58(raw: &[u8], buf: &mut Vec<u8>)
    requires
        2 * raw@.len() + 1 <= isize::MAX,
    ensures
        final(buf)@ == encode_utf8(base58(raw@)),
{
    buf.clear();
    let _ = bs58_encode_onto(raw, buf).expect("base58 encode failed · Base58 编码失败");
    assert(buf@ =~= encode_utf8(base58(raw@)));
}

/// The value of a Base58 digit.
pub(crate) open spec fn digit_value(c: char) -> int {
    if c <= '9' {
        c as int - '1' as int
    } else if c <= 'H' {
        9 + (c as int - 'A' as int)
    } else if c <= 'N' {
        17 + (c as int - 'J' as int)
    } else if c <= 'Z' {
        22 + (c as int - 'P' as int)
    } else if c <= 'k' {
        33 + (c as int - 'a' as int)
    } else {
        44 + (c as int - 'm' as int)
    }
}

/// Every position of the alphabet is the value of the digit that stands there, which is a
/// digit or a letter but none of the four that are left out.
pub(crate) proof fn lemma_digit_value(i: int)
    requires
        0 <= i < 58,
    ensures
        digit_value(BASE58BTC_ALPHABET@[i]) == i,
        ({
            let c = BASE58BTC_ALPHABET@[i];
            ('1' <= c <= '9' || 'A' <= c <= 'Z' || 'a' <= c <= 'z') && c != 'O' && c != 'I' && c
                != 'l'
        }),
{
    reveal_strlit("123456789ABCDEFGHJKLMNPQRSTUVWXYZabcdefghijkmnopqrstuvwxyz");
    if i < 33 {
        assert(i == 0 || i == 1 || i == 2 || i == 3 || i == 4 || i == 5 || i == 6 || i == 7
            || i == 8 || i == 9 || i == 10 || i == 11 || i == 12 || i == 13 || i == 14
            || i == 15 || i == 16 || i == 17 || i == 18 || i == 19 || i == 20 || i == 21
            || i == 22 || i == 23 || i == 24 || i == 25 || i == 26 || i == 27 || i == 28
            || i == 29 || i == 30 || i == 31 || i == 32);
    } else {
        assert(i == 33 || i == 34 || i == 35 || i == 36 || i == 37 || i == 38 || i == 39
            || i == 40 || i == 41 || i == 42 || i == 43 || i == 44 || i == 45 || i == 46
            || i == 47 || i == 48 || i == 49 || i == 50 || i == 51 || i == 52 || i == 53
            || i == 54 || i == 55 || i == 56 || i == 57);
    }
}

/// The Base58 digits are the digits and the ASCII letters but for `0`, `O`, `I` and `l`.
pub proof fn law_base58_digits_are_unmistakable(c: char)
    ensures
        is_base58(c) <==> ('1' <= c <= '9' || 'A' <= c <= 'Z' || 'a' <= c <= 'z') && c != 'O' && c
            != 'I' && c != 'l',
{
    reveal_strlit("123456789ABCDEFGHJKLMNPQRSTUVWXYZabcdefghijkmnopqrstuvwxyz");
    let a = BASE58BTC_ALPHABET@;
    assert(a.len() == 58);
    if is_base58(c) {
        let i = choose|i: int| 0 <= i < a.len() && a[i] == c;
        lemma_digit_value(i);
    }
    if ('1' <= c <= '9' || 'A' <= c <= 'Z' || 'a' <= c <= 'z') && c != 'O' && c != 'I' && c != 'l' {
        let i = digit_value(c);
        assert(0 <= i < 58);
        lemma_digit_value(i);
        assert(a[i] == c);
    }
}

/// The offending characters are listed as they first appear: before any place where the later
/// of two stands in the pattern, the earlier one stands.
pub proof fn law_illegal_characters_are_listed_as_they_appear(
    pattern: Seq<char>,
    first: int,
    second: int,
    at: int,
)
    requires
        0 <= first < second < illegal_chars(pattern).len(),
        0 <= at < pattern.len(),
        pattern[at] == illegal_chars(pattern)[second],
    ensures
        exists|earlier: int|
            0 <= earlier < at && #[trigger] pattern[earlier] == illegal_chars(pattern)[first],
    decreases pattern.len(),
{
    let init = pattern.drop_last();
    let before = illegal_chars(init);
    lemma_illegal_chars(init);
    lemma_illegal_chars(pattern);
    let a = illegal_chars(pattern)[first];
    if at < init.len() {
        assert(init[at] == pattern[at]);
        if second < before.len() {
            law_illegal_characters_are_listed_as_they_appear(init, first, second, at);
            let earlier = choose|earlier: int|
                0 <= earlier < at && #[trigger] init[earlier] == before[first];
            assert(pattern[earlier] == a);
        } else {
            assert(init.contains(init[at]));
            assert(before.contains(init[at]));
        }
    } else {
        assert(before.contains(before[first]));
        let earlier = choose|earlier: int| 0 <= earlier < init.len() && init[earlier] == before[first];
        assert(pattern[earlier] == a);
    }
}

/// The message lists the offending characters twice, each in single quotes and with a comma
/// and a blank between two of them, and then gives its hints.
pub proof fn law_message_lists_the_illegal_characters(illegal: Seq<char>, c: char)
    ensures
        quoted_list(seq![c]) == seq!['\'', c, '\''],
        illegal.len() > 0 ==> quoted_list(illegal.push(c)) == quoted_list(illegal) + ", "@ + seq![
            '\'',
            c,
            '\'',
        ],
        invalid_pattern_text(illegal) == "Invalid Base58 pattern: illegal character(s) "@
            + quoted_list(illegal) + " · Base58 模式非法字符: "@ + quoted_list(illegal) + "\n"@ + join(
            hints(illegal),
            "\n"@,
        ),
{
    let one = Seq::new(1, |i: int| seq!['\'', seq![c][i], '\'']);
    assert(one =~= seq![seq!['\'', c, '\'']]);
    assert(Seq::new(seq![c].len(), |i: int| seq!['\'', seq![c][i], '\'']) =~= one);
    let list = Seq::new(illegal.len(), |i: int| seq!['\'', illegal[i], '\'']);
    let longer = illegal.push(c);
    let list_longer = Seq::new(longer.len(), |i: int| seq!['\'', longer[i], '\'']);
    assert(list_longer =~= list.push(seq!['\'', c, '\'']));
    crate::text::law_join_grows_by_one_text(list, seq!['\'', c, '\''], ", "@);
}

/// There is a hint on each of the four characters that Base58 leaves out, in a fixed order,
/// exactly where it is among the offending ones; the alphabet is shown where none of them is.
pub proof fn law_hints_explain_what_is_left_out(illegal: Seq<char>)
    ensures
        ({
            let none = Seq::<Seq<char>>::empty();
            let zero = if illegal.contains('0') {
                seq![
                    "`0` (zero) is excluded; use `o` or `O` only when intended · `0`（数字零）不在 Base58 中"@,
                ]
            } else {
                none
            };
            let capital_o = if illegal.contains('O') {
                seq![
                    "`O` (capital o) is excluded to avoid confusion with `0` · `O`（大写字母 O）不在 Base58 中"@,
                ]
            } else {
                none
            };
            let capital_i = if illegal.contains('I') {
                seq![
                    "`I` (capital i) is excluded to avoid confusion with `1`/`l` · `I`（大写字母 I）不在 Base58 中"@,
                ]
            } else {
                none
            };
            let small_l = if illegal.contains('l') {
                seq![
                    "`l` (lowercase L) is excluded to avoid confusion with `1`/`I` · `l`（小写字母 l）不在 Base58 中"@,
                ]
            } else {
                none
            };
            let found = zero + capital_o + capital_i + small_l;
            &&& found.len() > 0 ==> hints(illegal) == found
            &&& found.len() == 0 ==> hints(illegal) == seq![
                "Use only Base58btc characters: 123456789ABCDEFGHJKLMNPQRSTUVWXYZabcdefghijkmnopqrstuvwxyz · 仅可使用 Base58btc 字符集"@,
            ]
        }),
{
}

/// The number of a byte string is what its bytes add up to, each one worth 256 times the next.
pub proof fn law_bytes_add_up_to_their_number(bytes: Seq<u8>)
    ensures
        be_value(bytes) == bytes.fold_left(0, |sum: int, b: u8| sum * 256 + b),
    decreases bytes.len(),
{
    if bytes.len() > 0 {
        law_bytes_add_up_to_their_number(bytes.drop_last());
    }
}

/// The values of the digits that write a number.
proof fn lemma_digit_values(n: nat) -> (values: Seq<int>)
    ensures
        values.len() == base58_digits(n).len(),
        forall|i: int|
            0 <= i < values.len() ==> 0 <= #[trigger] values[i] < 58 && base58_digits(n)[i]
                == BASE58BTC_ALPHABET@[values[i]],
        values.len() > 0 ==> values[0] != 0,
        values.len() == 0 <==> n == 0,
        values.fold_left(0, |sum: int, v: int| sum * 58 + v) == n,
    decreases n,
{
    if n == 0 {
        Seq::empty()
    } else {
        let init = lemma_digit_values(n / 58);
        let values = init.push((n % 58) as int);
        assert(values.drop_last() =~= init);
        assert forall|i: int| 0 <= i < values.len() implies 0 <= #[trigger] values[i] < 58
            && base58_digits(n)[i] == BASE58BTC_ALPHABET@[values[i]] by {
            if i < init.len() {
                assert(values[i] == init[i]);
            }
        }
        values
    }
}

/// The number of leading zeros is that of the zero bytes before the first other one.
proof fn lemma_leading_zeros(bytes: Seq<u8>)
    ensures
        leading_zeros(bytes) <= bytes.len(),
        forall|i: int| 0 <= i < leading_zeros(bytes) ==> #[trigger] bytes[i] == 0,
        leading_zeros(bytes) < bytes.len() ==> bytes[leading_zeros(bytes) as int] != 0,
    decreases bytes.len(),
{
    if bytes.len() > 0 && bytes[0] == 0 {
        let rest = bytes.drop_first();
        lemma_leading_zeros(rest);
        assert forall|i: int| 0 <= i < leading_zeros(bytes) implies #[trigger] bytes[i] == 0 by {
            if i > 0 {
                assert(rest[i - 1] == bytes[i]);
            }
        }
    }
}

/// The Base58 notation of a byte string: as many `1` as there are zero bytes in front, and
/// then digits, none of them a leading `1`, whose places in the alphabet add up to the same
/// number as the bytes. The number of zero bytes and the places are given back.
pub proof fn law_base58_writes_the_same_number(bytes: Seq<u8>) -> (r: (nat, Seq<int>))
    ensures
        ({
            let (zeros, values) = r;
            &&& zeros <= bytes.len()
            &&& forall|i: int| 0 <= i < zeros ==> #[trigger] bytes[i] == 0
            &&& zeros < bytes.len() ==> bytes[zeros as int] != 0
            &&& base58(bytes).len() == zeros + values.len()
            &&& forall|i: int| 0 <= i < zeros ==> #[trigger] base58(bytes)[i] == '1'
            &&& forall|i: int|
                0 <= i < values.len() ==> 0 <= #[trigger] values[i] < 58 && base58(bytes)[zeros + i]
                    == "123456789ABCDEFGHJKLMNPQRSTUVWXYZabcdefghijkmnopqrstuvwxyz"@[values[i]]
            &&& values.len() > 0 ==> values[0] != 0
            &&& values.fold_left(0, |sum: int, v: int| sum * 58 + v) == bytes.fold_left(
                0,
                |sum: int, b: u8| sum * 256 + b,
            )
        }),
{
    lemma_leading_zeros(bytes);
    law_bytes_add_up_to_their_number(bytes);
    let zeros = leading_zeros(bytes);
    let values = lemma_digit_values(be_value(bytes));
    assert forall|i: int| 0 <= i < values.len() implies 0 <= #[trigger] values[i] < 58 && base58(
        bytes,
    )[zeros + i] == "123456789ABCDEFGHJKLMNPQRSTUVWXYZabcdefghijkmnopqrstuvwxyz"@[values[i]] by {
        assert(base58(bytes)[zeros + i] == base58_digits(be_value(bytes))[i]);
    }
    (zeros, values)
}

} // verus!
