//! The characters that every Ed25519 peer identifier starts with, and how a
//! prefix pattern is completed with them.

use crate::base58::{base58, base58_digits, be_value, leading_zeros, BASE58BTC_ALPHABET};
use crate::identity::{raw_peer_id, ED25519_PEER_ID_MULTIHASH_PREFIX};
use crate::text::{lower_char, lower_chars};
use vstd::prelude::*;

verus! {

/// What the Base58 notation of every Ed25519 peer identifier starts with.
pub const REQUIRED_PREFIX: &'static str = "12D3KooW";

/// The prefix pattern that stands for `pattern`. One that starts with the required
/// prefix in any case gets its exact spelling. One that is only a beginning of it
/// becomes the required prefix. Any other one is put behind it.
pub open spec fn normalized_prefix(pattern: Seq<char>) -> Seq<char> {
    let required = REQUIRED_PREFIX@;
    if lower_chars(required).is_prefix_of(lower_chars(pattern)) {
        required + pattern.skip(required.len() as int)
    } else if lower_chars(pattern).is_prefix_of(lower_chars(required)) {
        required
    } else {
        required + pattern
    }
}

/// The lower case of an ASCII capital letter; any other character as it is.
fn ascii_lower_char(c: char) -> (r: char)
    ensures
        r == lower_char(c),
{
    if c >= 'A' && c <= 'Z' {
        (c as u8 + 32) as char
    } else {
        c
    }
}

/// Whether `whole` starts with `start` when case does not count.
fn starts_with_any_case(whole: &str, start: &str) -> (r: bool)
    ensures
        r == lower_chars(start@).is_prefix_of(lower_chars(whole@)),
{
    let whole_len: usize = whole.unicode_len();
    let start_len: usize = start.unicode_len();
    if whole_len < start_len {
        return false;
    }
    let ghost low = lower_chars(whole@);
    let ghost want = lower_chars(start@);
    let mut i: usize = 0;
    while i < start_len
        invariant
            start_len == start@.len(),
            i <= start_len <= whole@.len(),
            low == lower_chars(whole@),
            want == lower_chars(start@),
            forall|k: int| 0 <= k < i ==> low[k] == want[k],
        decreases start_len - i,
    {
        if ascii_lower_char(whole.get_char(i)) != ascii_lower_char(start.get_char(i)) {
            assert(low.subrange(0, want.len() as int)[i as int] != want[i as int]);
            return false;
        }
        i = i + 1;
    }
    assert(want =~= low.subrange(0, want.len() as int));
    true
}

/// Completes a prefix pattern so that it starts with the required prefix.
pub fn normalize_prefix_pattern(pattern: &str) -> (r: String)
    ensures
        r@ == normalized_prefix(pattern@),
        REQUIRED_PREFIX@.is_prefix_of(r@),
{
    let mut r = REQUIRED_PREFIX.to_string();
    if starts_with_any_case(pattern, REQUIRED_PREFIX) {
        let from: usize = REQUIRED_PREFIX.unicode_len();
        let to: usize = pattern.unicode_len();
        let rest = pattern.substring_char(from, to);
        r.append(rest);
        assert(rest@ =~= pattern@.skip(from as int));
    } else if !starts_with_any_case(REQUIRED_PREFIX, pattern) {
        r.append(pattern);
    }
    proof {
        law_normalized_has_required_prefix(pattern@);
    }
    r
}

/// The outcome always starts with the required prefix.
pub proof fn law_normalized_has_required_prefix(pattern: Seq<char>)
    ensures
        REQUIRED_PREFIX@.is_prefix_of(normalized_prefix(pattern)),
{
    let r = normalized_prefix(pattern);
    assert(REQUIRED_PREFIX@ =~= r.subrange(0, REQUIRED_PREFIX@.len() as int));
}

/// A pattern that starts with the required prefix is left as it is.
pub proof fn law_normalization_keeps_valid(pattern: Seq<char>)
    requires
        REQUIRED_PREFIX@.is_prefix_of(pattern),
    ensures
        normalized_prefix(pattern) == pattern,
{
    let required = REQUIRED_PREFIX@;
    let n = required.len() as int;
    assert(required == pattern.subrange(0, n));
    assert forall|k: int| 0 <= k < n implies required[k] == pattern[k] by {
        assert(pattern.subrange(0, n)[k] == pattern[k]);
    }
    assert(lower_chars(required) =~= lower_chars(pattern).subrange(0, n));
    assert(required + pattern.skip(n) =~= pattern);
}

/// To complete a pattern a second time changes nothing.
pub proof fn law_normalization_is_idempotent(pattern: Seq<char>)
    ensures
        normalized_prefix(normalized_prefix(pattern)) == normalized_prefix(pattern),
{
    law_normalized_has_required_prefix(pattern);
    law_normalization_keeps_valid(normalized_prefix(pattern));
}

/// Nothing of a pattern is lost: one that parts from the required prefix within its first
/// characters, case aside, stands behind that prefix as a whole.
pub proof fn law_other_patterns_stand_behind_the_prefix(pattern: Seq<char>, at: int)
    requires
        0 <= at < pattern.len(),
        at < 8,
        lower_char(pattern[at]) != lower_char("12D3KooW"@[at]),
    ensures
        normalized_prefix(pattern).len() == 8 + pattern.len(),
        forall|k: int| 0 <= k < 8 ==> #[trigger] normalized_prefix(pattern)[k] == "12D3KooW"@[k],
        forall|k: int|
            0 <= k < pattern.len() ==> normalized_prefix(pattern)[8 + k] == #[trigger] pattern[k],
{
    reveal_strlit("12D3KooW");
    let low = lower_chars(pattern);
    let want = lower_chars(REQUIRED_PREFIX@);
    if want.is_prefix_of(low) {
        assert(low.subrange(0, 8)[at] == want[at]);
    }
    if low.is_prefix_of(want) {
        assert(want.subrange(0, low.len() as int)[at] == low[at]);
    }
}

/// A pattern that agrees with the required prefix as far as both go, case aside, becomes that
/// prefix, followed by what the pattern holds from there on.
pub proof fn law_agreeing_patterns_continue_the_prefix(pattern: Seq<char>)
    requires
        forall|k: int|
            0 <= k < pattern.len() && k < 8 ==> lower_char(#[trigger] pattern[k]) == lower_char(
                "12D3KooW"@[k],
            ),
    ensures
        normalized_prefix(pattern).len() == (if pattern.len() < 8 {
            8
        } else {
            pattern.len()
        }),
        forall|k: int| 0 <= k < 8 ==> #[trigger] normalized_prefix(pattern)[k] == "12D3KooW"@[k],
        forall|k: int|
            8 <= k < pattern.len() ==> normalized_prefix(pattern)[k] == #[trigger] pattern[k],
{
    reveal_strlit("12D3KooW");
    let low = lower_chars(pattern);
    let want = lower_chars(REQUIRED_PREFIX@);
    if pattern.len() < 8 {
        assert(low =~= want.subrange(0, low.len() as int));
    } else {
        assert(want =~= low.subrange(0, 8));
    }
}

/// `n` divided by 58, `k` times over.
spec fn without_digits(n: nat, k: nat) -> nat
    decreases k,
{
    if k == 0 {
        n
    } else {
        without_digits(n / 58, (k - 1) as nat)
    }
}

/// Division keeps the order of two numbers.
proof fn lemma_without_digits_is_monotonic(m: nat, n: nat, k: nat)
    requires
        m <= n,
    ensures
        without_digits(m, k) <= without_digits(n, k),
    decreases k,
{
    if k > 0 {
        lemma_without_digits_is_monotonic(m / 58, n / 58, (k - 1) as nat);
    }
}

/// The leading digits of a number are the digits of what division leaves of it.
proof fn lemma_leading_digits(n: nat, k: nat)
    requires
        without_digits(n, k) > 0,
    ensures
        base58_digits(without_digits(n, k)).is_prefix_of(base58_digits(n)),
    decreases k,
{
    if k == 0 {
        assert(base58_digits(n) =~= base58_digits(n).subrange(0, base58_digits(n).len() as int));
    } else {
        lemma_leading_digits(n / 58, (k - 1) as nat);
        let lead = base58_digits(without_digits(n, k));
        let shorter = base58_digits(n / 58);
        let whole = base58_digits(n);
        if n == 0 {
            lemma_zero_without_digits(k);
        }
        assert(whole == shorter.push(BASE58BTC_ALPHABET@[(n % 58) as int]));
        assert(lead == shorter.subrange(0, lead.len() as int));
        assert(lead =~= whole.subrange(0, lead.len() as int));
    }
}

/// Zero stays zero.
proof fn lemma_zero_without_digits(k: nat)
    ensures
        without_digits(0, k) == 0,
    decreases k,
{
    if k > 0 {
        lemma_zero_without_digits((k - 1) as nat);
    }
}

/// 256 to the power of `k`.
spec fn pow256(k: nat) -> nat
    decreases k,
{
    if k == 0 {
        1
    } else {
        256 * pow256((k - 1) as nat)
    }
}

/// The number that two byte strings write one behind the other.
proof fn lemma_be_value_concat(a: Seq<u8>, b: Seq<u8>)
    ensures
        be_value(a + b) == be_value(a) * pow256(b.len()) + be_value(b),
        be_value(b) < pow256(b.len()),
    decreases b.len(),
{
    if b.len() == 0 {
        assert(a + b =~= a);
        assert(be_value(a) * pow256(0) == be_value(a)) by (nonlinear_arith)
            requires
                pow256(0) == 1,
        ;
    } else {
        let c = b.drop_last();
        lemma_be_value_concat(a, c);
        assert((a + b).drop_last() =~= a + c);
        let x = be_value(a) as int;
        let p = pow256(c.len()) as int;
        assert((x * p + be_value(c)) * 256 == x * (256 * p) + be_value(c) * 256) by (nonlinear_arith);
        assert(pow256(b.len()) == 256 * p);
        assert((a + b).last() == b.last());
    }
}

/// What is left of the number of a raw identifier without its last 44 digits.
proof fn lemma_leading_value(n: nat)
    requires
        0x2408011220_0000000000000000_0000000000000000_0000000000000000_0000000000000000nat <= n,
        n <= 0x2408011220_ffffffffffffffff_ffffffffffffffff_ffffffffffffffff_ffffffffffffffffnat,
    ensures
        without_digits(n, 44) == 45971276209,
{
    reveal_with_fuel(without_digits, 45);
    lemma_without_digits_is_monotonic(
        0x2408011220_0000000000000000_0000000000000000_0000000000000000_0000000000000000nat,
        n,
        44,
    );
    lemma_without_digits_is_monotonic(
        n,
        0x2408011220_ffffffffffffffff_ffffffffffffffff_ffffffffffffffff_ffffffffffffffffnat,
        44,
    );
}

/// The Base58 notation of every raw Ed25519 peer identifier starts with the required
/// prefix.
pub proof fn law_peer_id_has_required_prefix(public: Seq<u8>)
    requires
        public.len() == 32,
    ensures
        REQUIRED_PREFIX@.is_prefix_of(base58(raw_peer_id(public))),
{
    let head = ED25519_PEER_ID_MULTIHASH_PREFIX@;
    let raw = raw_peer_id(public);
    let n = be_value(raw);
    assert(head =~= seq![0x00u8, 0x24u8, 0x08u8, 0x01u8, 0x12u8, 0x20u8]);
    assert(be_value(head) == 0x2408011220) by {
        assert(head.drop_last() =~= seq![0x00u8, 0x24u8, 0x08u8, 0x01u8, 0x12u8]);
        assert(head.drop_last().drop_last() =~= seq![0x00u8, 0x24u8, 0x08u8, 0x01u8]);
        assert(head.drop_last().drop_last().drop_last() =~= seq![0x00u8, 0x24u8, 0x08u8]);
        reveal_with_fuel(be_value, 7);
    }
    assert(pow256(32) == 0x1_0000000000000000_0000000000000000_0000000000000000_0000000000000000nat) by {
        reveal_with_fuel(pow256, 33);
    }
    lemma_be_value_concat(head, public);
    lemma_leading_value(n);
    lemma_leading_digits(n, 44);
    assert(leading_zeros(raw) == 1) by {
        reveal_with_fuel(leading_zeros, 2);
        assert(raw.drop_first()[0] == 0x24);
    }
    reveal_strlit("12D3KooW");
    reveal_strlit("123456789ABCDEFGHJKLMNPQRSTUVWXYZabcdefghijkmnopqrstuvwxyz");
    let lead = base58_digits(45971276209);
    assert(lead =~= seq!['2', 'D', '3', 'K', 'o', 'o', 'W']) by {
        reveal_with_fuel(base58_digits, 8);
    }
    let digits = base58_digits(n);
    let id = base58(raw);
    assert forall|i: int| 0 <= i < 8 implies REQUIRED_PREFIX@[i] == id[i] by {
        if i > 0 {
            assert(id[i] == digits[i - 1]);
            assert(digits.subrange(0, 7)[i - 1] == digits[i - 1]);
        }
    }
    assert(REQUIRED_PREFIX@ =~= id.subrange(0, 8));
}

} // verus!
