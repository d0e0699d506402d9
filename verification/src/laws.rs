//! What holds of the library as a whole.

use crate::base58::{
    base58, base58_digits, be_value, illegal_chars, is_base58, leading_zeros, lemma_illegal_chars,
    BASE58BTC_ALPHABET,
};
use crate::command::{
    command_words, leading_words, mode_name, nothing_read, read_options, reading_of, shell_line,
    shell_words, starts_with_dash,
};
use crate::highlight::{can_highlight, highlighted, lowercase, mark_start, piece};
use crate::identity::{
    ed25519_public, is_keypair, peer_id_text, private_key_message, raw_peer_id,
};
use crate::keystore::{after_steps, hit_steps, steps, Directory, FileAction};
use crate::matching::{meets, occurs_at, Matcher, Mode};
use crate::options::{
    decimal_value, effective_limit, effective_stats_interval, is_digit, is_pattern_check,
    parsed_usize, settled_pattern, Args, NumberError,
};
use crate::prefix::{law_peer_id_has_required_prefix, normalized_prefix, REQUIRED_PREFIX};
use crate::report::{are_hit_actions, is_hit_line};
use crate::search::{is_outcome, Hit};
use crate::text::{decimal, lower_byte, lower_bytes, lower_char, lower_chars, trimmed};
use vstd::prelude::*;
use vstd::utf8::{decode_utf8, encode_utf8, is_ascii_chars, is_char_boundary};

verus! {

/// Every Base58 digit is an ASCII character.
proof fn lemma_digit_is_ascii(c: char)
    requires
        is_base58(c),
    ensures
        '\0' <= c <= '\u{7f}',
{
    reveal_strlit("123456789ABCDEFGHJKLMNPQRSTUVWXYZabcdefghijkmnopqrstuvwxyz");
}

/// The notation of a number holds Base58 digits only.
proof fn lemma_digits_are_base58(n: nat)
    ensures
        forall|i: int| 0 <= i < base58_digits(n).len() ==> is_base58(#[trigger] base58_digits(n)[i]),
    decreases n,
{
    reveal_strlit("123456789ABCDEFGHJKLMNPQRSTUVWXYZabcdefghijkmnopqrstuvwxyz");
    if n > 0 {
        lemma_digits_are_base58(n / 58);
        assert(BASE58BTC_ALPHABET@.len() == 58);
        assert(is_base58(BASE58BTC_ALPHABET@[(n % 58) as int]));
        let shorter = base58_digits(n / 58);
        assert forall|i: int| 0 <= i < base58_digits(n).len() implies is_base58(
            #[trigger] base58_digits(n)[i],
        ) by {
            if i < shorter.len() {
                assert(base58_digits(n)[i] == shorter[i]);
            }
        }
    }
}

/// The Base58 notation of a byte string holds Base58 digits only, and so passes the check
/// that patterns go through.
pub proof fn law_identifiers_hold_base58_digits(raw: Seq<u8>)
    ensures
        forall|i: int| 0 <= i < base58(raw).len() ==> is_base58(#[trigger] base58(raw)[i]),
        is_ascii_chars(base58(raw)),
        illegal_chars(base58(raw)) == Seq::<char>::empty(),
{
    let id = base58(raw);
    reveal_strlit("123456789ABCDEFGHJKLMNPQRSTUVWXYZabcdefghijkmnopqrstuvwxyz");
    lemma_digits_are_base58(be_value(raw));
    assert(BASE58BTC_ALPHABET@[0] == '1');
    assert(is_base58('1'));
    let zeros = leading_zeros(raw);
    assert forall|i: int| 0 <= i < id.len() implies is_base58(#[trigger] id[i]) by {
        if i >= zeros {
            assert(id[i] == base58_digits(be_value(raw))[i - zeros]);
        }
    }
    assert forall|i: int| 0 <= i < id.len() implies '\0' <= #[trigger] id[i] <= '\u{7f}' by {
        lemma_digit_is_ascii(id[i]);
    }
    lemma_illegal_chars(id);
    if illegal_chars(id).len() > 0 {
        let c = illegal_chars(id)[0];
        assert(illegal_chars(id).contains(c));
        let i = choose|i: int| 0 <= i < id.len() && id[i] == c;
        assert(is_base58(id[i]));
    }
    assert(illegal_chars(id) =~= Seq::<char>::empty());
}

/// A text whose UTF-8 bytes are all ASCII holds ASCII characters only.
proof fn lemma_ascii_bytes(s: Seq<char>)
    requires
        forall|i: int| 0 <= i < encode_utf8(s).len() ==> #[trigger] encode_utf8(s)[i] < 128,
    ensures
        is_ascii_chars(s),
    decreases s.len(),
{
    if s.len() > 0 {
        let c = s[0] as u32;
        vstd::utf8::char_u32_cast(s[0], c);
        let rest = s.drop_first();
        let head = vstd::utf8::encode_scalar(c);
        let all = encode_utf8(s);
        assert(all == head + encode_utf8(rest));
        assert(head.len() > 0);
        assert(all[0] == head[0]);
        if c >= 128 {
            vstd::utf8::char_is_scalar(s[0]);
            let x2 = ((c >> 6) & 0x1F) as u8;
            let x3 = ((c >> 12) & 0x0F) as u8;
            let x4 = ((c >> 18) & 0x7) as u8;
            assert(0xC0u8 | x2 >= 128) by (bit_vector);
            assert(0xE0u8 | x3 >= 128) by (bit_vector);
            assert(0xF0u8 | x4 >= 128) by (bit_vector);
            assert(head[0] >= 128);
        }
        assert forall|i: int| 0 <= i < encode_utf8(rest).len() implies #[trigger] encode_utf8(
            rest,
        )[i] < 128 by {
            assert(all[head.len() + i] == encode_utf8(rest)[i]);
        }
        lemma_ascii_bytes(rest);
        assert forall|i: int| 0 <= i < s.len() implies '\0' <= #[trigger] s[i] <= '\u{7f}' by {
            if i > 0 {
                assert(rest[i - 1] == s[i]);
            } else {
                assert(c < 128);
            }
        }
    }
}

/// The bytes of an ASCII text are its characters.
proof fn lemma_ascii_encoding(s: Seq<char>)
    requires
        is_ascii_chars(s),
    ensures
        encode_utf8(s).len() == s.len(),
        forall|i: int|
            0 <= i < s.len() ==> #[trigger] encode_utf8(s)[i] == s[i] as u8 && encode_utf8(s)[i]
                < 128 && s[i] as u8 as char == s[i],
{
    vstd::utf8::is_ascii_chars_encode_utf8(s);
    assert forall|i: int| 0 <= i < s.len() implies #[trigger] encode_utf8(s)[i] == s[i] as u8
        && encode_utf8(s)[i] < 128 && s[i] as u8 as char == s[i] by {
        assert('\0' <= s[i] <= '\u{7f}');
    }
}

/// A part of an ASCII text has the same part of its bytes.
proof fn lemma_ascii_part(s: Seq<char>, i: int, j: int)
    requires
        is_ascii_chars(s),
        0 <= i <= j <= s.len(),
    ensures
        is_ascii_chars(s.subrange(i, j)),
        encode_utf8(s.subrange(i, j)) == encode_utf8(s).subrange(i, j),
        decode_utf8(encode_utf8(s).subrange(i, j)) == s.subrange(i, j),
        is_char_boundary(encode_utf8(s), i),
{
    let part = s.subrange(i, j);
    assert forall|k: int| 0 <= k < part.len() implies '\0' <= #[trigger] part[k] <= '\u{7f}' by {
        assert(part[k] == s[i + k]);
    }
    lemma_ascii_encoding(s);
    lemma_ascii_encoding(part);
    assert(encode_utf8(part) =~= encode_utf8(s).subrange(i, j)) by {
        assert forall|k: int| 0 <= k < part.len() implies #[trigger] encode_utf8(part)[k]
            == encode_utf8(s).subrange(i, j)[k] by {
            assert(encode_utf8(s)[i + k] == s[i + k] as u8);
        }
    }
    vstd::utf8::encode_utf8_decode_utf8(part);
    vstd::utf8::encode_utf8_valid_utf8(s);
    if i < s.len() {
        vstd::utf8::is_char_boundary_iff_not_is_continuation_byte(encode_utf8(s), i);
        assert(encode_utf8(s)[i] < 128);
    } else {
        vstd::utf8::is_char_boundary_start_end_of_seq(encode_utf8(s));
    }
}

/// The lower case of an ASCII text has the lower case of its bytes.
proof fn lemma_ascii_lower(s: Seq<char>)
    requires
        is_ascii_chars(s),
    ensures
        is_ascii_chars(lower_chars(s)),
        encode_utf8(lower_chars(s)) == lower_bytes(encode_utf8(s)),
{
    let low = lower_chars(s);
    lemma_ascii_encoding(s);
    assert forall|k: int| 0 <= k < low.len() implies '\0' <= #[trigger] low[k] <= '\u{7f}' by {
        assert('\0' <= s[k] <= '\u{7f}');
    }
    lemma_ascii_encoding(low);
    assert forall|k: int| 0 <= k < low.len() implies #[trigger] encode_utf8(low)[k] == lower_byte(
        encode_utf8(s)[k],
    ) by {
        assert('\0' <= s[k] <= '\u{7f}');
    }
    assert(encode_utf8(low) =~= lower_bytes(encode_utf8(s)));
}

/// A text that stands in the bytes of an ASCII text stands in its characters too.
proof fn lemma_ascii_occurrence(text: Seq<char>, pattern: Seq<char>, i: int)
    requires
        is_ascii_chars(text),
        occurs_at(encode_utf8(text), encode_utf8(pattern), i),
    ensures
        is_ascii_chars(pattern),
        i + pattern.len() <= text.len(),
        pattern == text.subrange(i, i + pattern.len()),
{
    let h = encode_utf8(text);
    let p = encode_utf8(pattern);
    lemma_ascii_encoding(text);
    assert forall|k: int| 0 <= k < p.len() implies #[trigger] p[k] < 128 by {
        assert(h.subrange(i, i + p.len())[k] == h[i + k]);
    }
    lemma_ascii_bytes(pattern);
    lemma_ascii_encoding(pattern);
    lemma_ascii_part(text, i, i + p.len());
    crate::text::lemma_same_bytes_same_text(pattern, text.subrange(i, i + p.len()));
}

/// A pattern with a character that is no Base58 digit meets no identifier as long as case
/// counts: the check refuses nothing that could be found.
pub proof fn law_illegal_pattern_is_never_met(mode: Mode, pattern: Seq<char>, raw: Seq<u8>)
    requires
        illegal_chars(pattern).len() > 0,
    ensures
        !meets(mode, false, encode_utf8(pattern), encode_utf8(base58(raw))),
{
    let id = base58(raw);
    if meets(mode, false, encode_utf8(pattern), encode_utf8(id)) {
        crate::matching::law_anchored_match_is_a_match(
            mode,
            false,
            encode_utf8(pattern),
            encode_utf8(id),
        );
        let i = choose|i: int| occurs_at(encode_utf8(id), encode_utf8(pattern), i);
        law_identifiers_hold_base58_digits(raw);
        lemma_ascii_occurrence(id, pattern, i);
        lemma_illegal_chars(pattern);
        let c = illegal_chars(pattern)[0];
        assert(illegal_chars(pattern).contains(c));
        let k = choose|k: int| 0 <= k < pattern.len() && pattern[k] == c;
        assert(pattern[k] == id[i + k]);
        assert(is_base58(id[i + k]));
    }
}

/// As long as case counts, a prefix pattern meets an Ed25519 identifier only if it agrees
/// with the required prefix, being a beginning of it or starting with it.
pub proof fn law_prefix_pattern_must_agree(pattern: Seq<char>, public: Seq<u8>)
    requires
        public.len() == 32,
        meets(
            Mode::Prefix,
            false,
            encode_utf8(pattern),
            encode_utf8(base58(raw_peer_id(public))),
        ),
    ensures
        pattern.is_prefix_of(REQUIRED_PREFIX@) || REQUIRED_PREFIX@.is_prefix_of(pattern),
{
    let id = base58(raw_peer_id(public));
    let required = REQUIRED_PREFIX@;
    law_identifiers_hold_base58_digits(raw_peer_id(public));
    law_peer_id_has_required_prefix(public);
    assert(occurs_at(encode_utf8(id), encode_utf8(pattern), 0));
    lemma_ascii_occurrence(id, pattern, 0);
    if pattern.len() <= required.len() {
        assert(pattern =~= required.subrange(0, pattern.len() as int)) by {
            assert forall|k: int| 0 <= k < pattern.len() implies pattern[k] == required[k] by {
                assert(id.subrange(0, required.len() as int)[k] == id[k]);
            }
        }
    } else {
        assert(required =~= pattern.subrange(0, required.len() as int)) by {
            assert forall|k: int| 0 <= k < required.len() implies pattern[k] == required[k] by {
                assert(id.subrange(0, required.len() as int)[k] == id[k]);
            }
        }
    }
}

/// A legal pattern is an ASCII text.
proof fn lemma_legal_is_ascii(pattern: Seq<char>)
    requires
        illegal_chars(pattern).len() == 0,
    ensures
        is_ascii_chars(pattern),
        forall|i: int| 0 <= i < pattern.len() ==> is_base58(#[trigger] pattern[i]),
{
    lemma_illegal_chars(pattern);
    assert forall|i: int| 0 <= i < pattern.len() implies is_base58(#[trigger] pattern[i]) by {
        assert(pattern.contains(pattern[i]));
        assert(!illegal_chars(pattern).contains(pattern[i]));
    }
    assert forall|i: int| 0 <= i < pattern.len() implies '\0' <= #[trigger] pattern[i]
        <= '\u{7f}' by {
        lemma_digit_is_ascii(pattern[i]);
    }
}

/// Digits only: nothing is illegal.
proof fn lemma_digits_are_legal(pattern: Seq<char>)
    requires
        forall|i: int| 0 <= i < pattern.len() ==> is_base58(#[trigger] pattern[i]),
    ensures
        illegal_chars(pattern).len() == 0,
{
    lemma_illegal_chars(pattern);
    if illegal_chars(pattern).len() > 0 {
        let c = illegal_chars(pattern)[0];
        assert(illegal_chars(pattern).contains(c));
        let i = choose|i: int| 0 <= i < pattern.len() && pattern[i] == c;
        assert(is_base58(pattern[i]));
    }
}

/// The completed pattern of a legal one is legal.
proof fn lemma_normalized_is_legal(pattern: Seq<char>)
    requires
        illegal_chars(pattern).len() == 0,
    ensures
        illegal_chars(normalized_prefix(pattern)).len() == 0,
{
    reveal_strlit("12D3KooW");
    reveal_strlit("123456789ABCDEFGHJKLMNPQRSTUVWXYZabcdefghijkmnopqrstuvwxyz");
    let required = REQUIRED_PREFIX@;
    let a = BASE58BTC_ALPHABET@;
    assert(a[0] == '1' && a[1] == '2' && a[12] == 'D' && a[2] == '3' && a[18] == 'K' && a[46] == 'o'
        && a[29] == 'W');
    assert forall|i: int| 0 <= i < required.len() implies is_base58(#[trigger] required[i]) by {}
    lemma_legal_is_ascii(pattern);
    let r = normalized_prefix(pattern);
    assert forall|i: int| 0 <= i < r.len() implies is_base58(#[trigger] r[i]) by {
        if i < required.len() {
            assert(r[i] == required[i]);
        } else if lower_chars(required).is_prefix_of(lower_chars(pattern)) {
            assert(r[i] == pattern[i]);
        } else {
            assert(r[i] == pattern[i - required.len()]);
        }
    }
    lemma_digits_are_legal(r);
}

/// To complete a checked prefix pattern that agrees with the required prefix changes nothing
/// about the identifiers that are found: up to case where case is ignored, and exactly where it
/// counts.
pub proof fn law_completion_keeps_the_matches(ci: bool, pattern: Seq<char>, public: Seq<u8>)
    requires
        public.len() == 32,
        illegal_chars(pattern).len() == 0,
        ci ==> lower_chars(REQUIRED_PREFIX@).is_prefix_of(lower_chars(pattern)) || lower_chars(
            pattern,
        ).is_prefix_of(lower_chars(REQUIRED_PREFIX@)),
        !ci ==> REQUIRED_PREFIX@.is_prefix_of(pattern) || pattern.is_prefix_of(REQUIRED_PREFIX@),
    ensures
        ({
            let id = encode_utf8(base58(raw_peer_id(public)));
            meets(Mode::Prefix, ci, encode_utf8(normalized_prefix(pattern)), id) == meets(
                Mode::Prefix,
                ci,
                encode_utf8(pattern),
                id,
            )
        }),
{
    let required = REQUIRED_PREFIX@;
    let text = base58(raw_peer_id(public));
    let completed = normalized_prefix(pattern);
    let n = required.len() as int;
    law_identifiers_hold_base58_digits(raw_peer_id(public));
    law_peer_id_has_required_prefix(public);
    lemma_legal_is_ascii(pattern);
    lemma_normalized_is_legal(pattern);
    lemma_legal_is_ascii(completed);
    if ci {
        lemma_ascii_lower(text);
        lemma_ascii_lower(pattern);
        lemma_ascii_lower(completed);
        if lower_chars(required).is_prefix_of(lower_chars(pattern)) {
            assert(lower_chars(completed) =~= lower_chars(pattern)) by {
                assert forall|k: int| 0 <= k < pattern.len() implies lower_chars(completed)[k]
                    == lower_chars(pattern)[k] by {
                    if k < n {
                        assert(lower_chars(pattern).subrange(0, n)[k] == lower_chars(pattern)[k]);
                        assert(lower_chars(required)[k] == lower_chars(pattern)[k]);
                    } else {
                        assert(completed[k] == pattern[k]);
                    }
                }
            }
        } else {
            assert(completed == required);
            assert(lower_chars(required) =~= lower_chars(text).subrange(0, n)) by {
                assert forall|k: int| 0 <= k < n implies lower_chars(text)[k] == lower_chars(
                    required,
                )[k] by {
                    assert(text.subrange(0, n)[k] == text[k]);
                }
            }
            lemma_ascii_start(lower_chars(text), lower_chars(required));
            lemma_start_of_start(lower_chars(text), lower_chars(required), lower_chars(pattern));
            lemma_ascii_start(lower_chars(text), lower_chars(pattern));
        }
    } else if required.is_prefix_of(pattern) {
        crate::prefix::law_normalization_keeps_valid(pattern);
    } else {
        assert(lower_chars(pattern) =~= lower_chars(required).subrange(0, pattern.len() as int))
            by {
            assert forall|k: int| 0 <= k < pattern.len() implies pattern[k] == required[k] by {
                assert(required.subrange(0, pattern.len() as int)[k] == required[k]);
            }
        }
        if lower_chars(required).is_prefix_of(lower_chars(pattern)) {
            assert(pattern =~= required);
        }
        assert(completed =~= required);
        lemma_ascii_start(text, required);
        lemma_start_of_start(text, required, pattern);
        lemma_ascii_start(text, pattern);
    }
}

/// What an ASCII text starts with, its bytes start with.
proof fn lemma_ascii_start(text: Seq<char>, start: Seq<char>)
    requires
        is_ascii_chars(text),
        start.is_prefix_of(text),
    ensures
        encode_utf8(start).is_prefix_of(encode_utf8(text)),
{
    lemma_ascii_encoding(text);
    lemma_ascii_part(text, 0, start.len() as int);
    lemma_ascii_encoding(start);
}

/// The start of a start is a start.
proof fn lemma_start_of_start(text: Seq<char>, middle: Seq<char>, start: Seq<char>)
    requires
        middle.is_prefix_of(text),
        start.is_prefix_of(middle),
    ensures
        start.is_prefix_of(text),
{
    assert(start =~= text.subrange(0, start.len() as int)) by {
        assert forall|k: int| 0 <= k < start.len() implies start[k] == text[k] by {
            assert(middle.subrange(0, start.len() as int)[k] == middle[k]);
            assert(text.subrange(0, middle.len() as int)[k] == text[k]);
        }
    }
}

/// A text without white space at its ends is left as it is.
proof fn lemma_trimmed_keeps_legal(pattern: Seq<char>)
    requires
        illegal_chars(pattern).len() == 0,
    ensures
        trimmed(pattern) == pattern,
{
    if pattern.len() > 0 {
        reveal_strlit("123456789ABCDEFGHJKLMNPQRSTUVWXYZabcdefghijkmnopqrstuvwxyz");
        lemma_legal_is_ascii(pattern);
        assert(is_base58(pattern[0]));
        assert(is_base58(pattern.last()));
    }
}

/// A pattern that was settled once passes the check again and is settled for good.
pub proof fn law_settling_is_idempotent(mode: Mode, input: Seq<char>)
    requires
        is_pattern_check(input, Ok(())),
    ensures
        is_pattern_check(settled_pattern(mode, input), Ok(())),
        settled_pattern(mode, settled_pattern(mode, input)) == settled_pattern(mode, input),
        mode == Mode::Prefix ==> REQUIRED_PREFIX@.is_prefix_of(settled_pattern(mode, input)),
{
    let p = trimmed(input);
    lemma_trimmed_keeps_legal(p);
    if mode == Mode::Prefix {
        reveal_strlit("12D3KooW");
        lemma_normalized_is_legal(p);
        lemma_trimmed_keeps_legal(normalized_prefix(p));
        crate::prefix::law_normalization_is_idempotent(p);
        crate::prefix::law_normalized_has_required_prefix(p);
    }
}

/// Without the escape sequences the marked text is the text.
pub proof fn law_highlight_keeps_the_text(
    hay: Seq<char>,
    needle: Seq<char>,
    mode: Mode,
    ci: bool,
    s: int,
)
    requires
        can_highlight(hay, needle, mode, ci),
        mark_start(hay, needle, mode, ci) == Some(s),
    ensures
        ({
            let e = s + encode_utf8(needle).len();
            piece(hay, 0, s) + piece(hay, s, e) + piece(hay, e, encode_utf8(hay).len() as int)
                == hay
        }),
{
    let h = encode_utf8(hay);
    let e = s + encode_utf8(needle).len();
    lemma_mark_start_is_natural(hay, needle, mode, ci, s);
    vstd::utf8::encode_utf8_valid_utf8(hay);
    vstd::utf8::encode_utf8_decode_utf8(hay);
    crate::highlight::lemma_boundary_in_head(h, s, e);
    vstd::utf8::decode_utf8_split(h, e);
    let head = h.subrange(0, e);
    vstd::utf8::decode_utf8_split(head, s);
    assert(head.subrange(0, s) =~= h.subrange(0, s));
    assert(head.subrange(s, e) =~= h.subrange(s, e));
    assert(piece(hay, 0, s) + piece(hay, s, e) + piece(hay, e, h.len() as int) =~= hay);
}

/// The marked part does not start before the text.
proof fn lemma_mark_start_is_natural(
    hay: Seq<char>,
    needle: Seq<char>,
    mode: Mode,
    ci: bool,
    s: int,
)
    requires
        mark_start(hay, needle, mode, ci) == Some(s),
    ensures
        s >= 0,
{
    crate::matching::lemma_first_from(encode_utf8(hay), encode_utf8(needle), 0);
    crate::matching::lemma_first_from(
        encode_utf8(lowercase(hay)),
        encode_utf8(lowercase(needle)),
        0,
    );
}

/// An ASCII text that meets an ASCII pattern can be marked, and the marked part is the
/// pattern, up to case where case is ignored.
pub proof fn law_match_is_marked(hay: Seq<char>, needle: Seq<char>, mode: Mode, ci: bool)
    requires
        is_ascii_chars(hay),
        is_ascii_chars(needle),
        meets(mode, ci, encode_utf8(needle), encode_utf8(hay)),
    ensures
        can_highlight(hay, needle, mode, ci),
        mark_start(hay, needle, mode, ci) matches Some(s) && {
            let marked = piece(hay, s, s + encode_utf8(needle).len());
            if ci {
                lower_chars(marked) == lower_chars(needle)
            } else {
                marked == needle
            }
        },
{
    let h = encode_utf8(hay);
    let n = encode_utf8(needle);
    let low_h = encode_utf8(lowercase(hay));
    let low_n = encode_utf8(lowercase(needle));
    lemma_ascii_encoding(hay);
    lemma_ascii_encoding(needle);
    lemma_ascii_lower(hay);
    lemma_ascii_lower(needle);
    crate::matching::lemma_first_from(h, n, 0);
    crate::matching::lemma_first_from(low_h, low_n, 0);
    if mode == Mode::Any {
        let (x, y) = if ci {
            (low_h, low_n)
        } else {
            (h, n)
        };
        let i = choose|i: int| occurs_at(x, y, i);
        assert(occurs_at(x, y, i));
    }
    let s = mark_start(hay, needle, mode, ci)->0;
    let e = s + n.len();
    assert(0 <= s && e <= h.len());
    lemma_ascii_part(hay, s, e);
    lemma_ascii_part(hay, e, e);
    let marked = hay.subrange(s, e);
    assert(piece(hay, s, e) == marked);
    if ci {
        assert(low_h.subrange(s, e) =~= low_n);
        lemma_ascii_lower(marked);
        assert(lower_bytes(h.subrange(s, e)) =~= low_h.subrange(s, e));
        crate::text::lemma_same_bytes_same_text(lower_chars(marked), lower_chars(needle));
    } else {
        assert(h.subrange(s, e) =~= n);
        crate::text::lemma_same_bytes_same_text(marked, needle);
    }
}

/// A stored key gives back the seed and the public key that were stored.
pub proof fn law_stored_key_is_read_back(seed: Seq<u8>)
    requires
        seed.len() == 32,
        ed25519_public(seed).len() == 32,
    ensures
        private_key_message(seed).len() == 68,
        private_key_message(seed).take(4) == seq![0x08u8, 0x01u8, 0x12u8, 0x40u8],
        private_key_message(seed).subrange(4, 36) == seed,
        private_key_message(seed).skip(36) == ed25519_public(seed),
        is_keypair(private_key_message(seed).skip(4)),
{
    let m = private_key_message(seed);
    assert(m.take(4) =~= seq![0x08u8, 0x01u8, 0x12u8, 0x40u8]);
    assert(m.subrange(4, 36) =~= seed);
    assert(m.skip(36) =~= ed25519_public(seed));
    assert(m.skip(4).take(32) =~= seed);
    assert(m.skip(4).skip(32) =~= ed25519_public(seed));
}

/// A hit for a checked pattern always has its line, in which the pattern is marked unless
/// colours are off.
pub proof fn law_hits_can_be_printed(
    seed: Seq<u8>,
    matcher: &Matcher,
    print_only: bool,
    hit: Hit,
    pattern: Seq<char>,
    no_color: bool,
    line: Option<String>,
)
    requires
        is_outcome(seed, matcher, print_only, Some(hit)),
        illegal_chars(pattern).len() == 0,
        matcher.needle() == (if matcher.case_insensitive() {
            lower_bytes(encode_utf8(pattern))
        } else {
            encode_utf8(pattern)
        }),
        is_hit_line(
            hit.peer_id_b58@,
            pattern,
            matcher.mode(),
            matcher.case_insensitive(),
            no_color,
            line,
        ),
    ensures
        can_highlight(hit.peer_id_b58@, pattern, matcher.mode(), matcher.case_insensitive()),
        line is Some,
        no_color ==> line->0@ == peer_id_text(seed),
        !no_color ==> line->0@ == highlighted(
            peer_id_text(seed),
            pattern,
            matcher.mode(),
            matcher.case_insensitive(),
        ),
{
    law_identifiers_hold_base58_digits(raw_peer_id(ed25519_public(seed)));
    lemma_legal_is_ascii(pattern);
    law_match_is_marked(
        hit.peer_id_b58@,
        pattern,
        matcher.mode(),
        matcher.case_insensitive(),
    );
}

/// Nothing is written where only identifiers are wanted. Otherwise the private key of the
/// hit is stored under its identifier and, for an export with a name, under that name.
pub proof fn law_hits_are_stored(
    seed: Seq<u8>,
    matcher: &Matcher,
    print_only: bool,
    hit: Hit,
    args: &Args,
    actions: Seq<FileAction>,
)
    requires
        is_outcome(seed, matcher, print_only, Some(hit)),
        are_hit_actions(hit, args, actions),
    ensures
        print_only ==> actions.len() == 0,
        !print_only ==> steps(actions) == hit_steps(
            peer_id_text(seed),
            private_key_message(seed),
            if args.export_ipfs && args.key_name is Some {
                Some(args.key_name->0@)
            } else {
                None
            },
        ),
{
}

/// No private key is printed: the line for a hit is the same whatever its key is.
pub proof fn law_line_shows_no_key(
    hit: Hit,
    other: Hit,
    pattern: Seq<char>,
    mode: Mode,
    ci: bool,
    no_color: bool,
    line: Option<String>,
    other_line: Option<String>,
)
    requires
        hit.peer_id_b58@ == other.peer_id_b58@,
        is_hit_line(hit.peer_id_b58@, pattern, mode, ci, no_color, line),
        is_hit_line(other.peer_id_b58@, pattern, mode, ci, no_color, other_line),
    ensures
        line is Some <==> other_line is Some,
        line is Some ==> line->0@ == other_line->0@,
{
}

/// The decimal notation of a number holds digits, and is read back as the number.
pub proof fn law_decimal_is_read_back(n: nat)
    ensures
        decimal(n).len() > 0,
        forall|i: int| 0 <= i < decimal(n).len() ==> is_digit(#[trigger] decimal(n)[i]),
        decimal_value(decimal(n)) == n,
        n <= usize::MAX ==> parsed_usize(decimal(n)) == Ok::<usize, NumberError>(n as usize),
    decreases n,
{
    let s = decimal(n);
    if n >= 10 {
        law_decimal_is_read_back(n / 10);
        let init = decimal(n / 10);
        assert(s.drop_last() =~= init);
        assert forall|i: int| 0 <= i < s.len() implies is_digit(#[trigger] s[i]) by {
            if i < init.len() {
                assert(s[i] == init[i]);
            }
        }
    } else {
        assert(s.drop_last() =~= Seq::<char>::empty());
        assert(decimal_value(s.drop_last()) == 0);
    }
    assert(s.last() as int - '0' as int == n % 10);
    assert(is_digit(s[0]));
    crate::options::lemma_digit_run(s, s.len() as int);
    assert(s.take(s.len() as int) =~= s);
}

/// The command line that stands for some options says what they come down to. A shell reads
/// its words back. Unless the pattern looks like an option, they are read as the pattern, the
/// values and the flags of these options. The numbers among them are read back as the
/// threads, the limit and the interval that count; and the limit and the interval, given as
/// options, come down to the same limit and the same interval.
pub proof fn law_command_says_what_counts(args: &Args, threads: usize)
    requires
        args.pattern is Some,
    ensures
        ({
            let words = command_words(args, threads);
            let interval = effective_stats_interval(args.stats_interval, args.extreme);
            &&& shell_words(shell_line(words)) == Some(words)
            &&& !starts_with_dash(args.pattern->0@) ==> read_options(
                words.skip(1),
                nothing_read(),
            ) == Some(reading_of(args, threads))
            &&& words[1] == args.pattern->0@
            &&& words[3] == mode_name(args.mode)
            &&& parsed_usize(words[5]) == Ok::<usize, NumberError>(threads)
            &&& parsed_usize(words[7]) is Ok
            &&& effective_limit(Some(parsed_usize(words[7])->Ok_0)) == effective_limit(args.limit)
            &&& words[9] == args.out@
            &&& words[10] == (if args.case_sensitive {
                "--case-sensitive"@
            } else {
                "--case-insensitive"@
            })
            &&& decimal_value(words.last()) == interval
            &&& effective_stats_interval(Some(interval), args.extreme) == interval
        }),
{
    let words = command_words(args, threads);
    let limit = match effective_limit(args.limit) {
        Some(n) => n as nat,
        None => 0,
    };
    crate::command::law_shell_reads_the_words_back(words);
    if !starts_with_dash(args.pattern->0@) {
        crate::command::law_command_is_read_back(args, threads);
    }
    law_decimal_is_read_back(threads as nat);
    law_decimal_is_read_back(limit);
    law_decimal_is_read_back(
        effective_stats_interval(args.stats_interval, args.extreme) as nat,
    );
    let lead = leading_words(args, threads);
    assert(lead.len() == 10);
    assert(words[1] == lead[1] && words[3] == lead[3] && words[5] == lead[5] && words[7] == lead[7]
        && words[9] == lead[9]);
}

/// Two numbers with the same notation are the same.
proof fn lemma_same_digits_same_number(m: nat, n: nat)
    requires
        base58_digits(m) == base58_digits(n),
    ensures
        m == n,
    decreases m,
{
    if m > 0 && n > 0 {
        let a = base58_digits(m);
        let b = base58_digits(n);
        assert(a.drop_last() =~= base58_digits(m / 58));
        assert(b.drop_last() =~= base58_digits(n / 58));
        lemma_same_digits_same_number(m / 58, n / 58);
        assert(a.last() == b.last());
        crate::base58::lemma_digit_value((m % 58) as int);
        crate::base58::lemma_digit_value((n % 58) as int);
    } else if m > 0 {
        assert(base58_digits(m).len() > 0);
    } else if n > 0 {
        assert(base58_digits(n).len() > 0);
    }
}

/// Two byte strings of one length that write the same number are the same.
proof fn lemma_same_value_same_bytes(a: Seq<u8>, b: Seq<u8>)
    requires
        a.len() == b.len(),
        be_value(a) == be_value(b),
    ensures
        a == b,
    decreases a.len(),
{
    if a.len() > 0 {
        lemma_same_value_same_bytes(a.drop_last(), b.drop_last());
        assert(a =~= a.drop_last().push(a.last()));
        assert(b =~= b.drop_last().push(b.last()));
    } else {
        assert(a =~= b);
    }
}

/// Different public keys have different identifiers.
pub proof fn law_identifiers_tell_keys_apart(public: Seq<u8>, other: Seq<u8>)
    requires
        public.len() == 32,
        other.len() == 32,
        base58(raw_peer_id(public)) == base58(raw_peer_id(other)),
    ensures
        public == other,
{
    let a = raw_peer_id(public);
    let b = raw_peer_id(other);
    assert(leading_zeros(a) == 1 && leading_zeros(b) == 1) by {
        reveal_with_fuel(leading_zeros, 2);
        assert(a.drop_first()[0] == 0x24 && b.drop_first()[0] == 0x24);
    }
    assert(base58_digits(be_value(a)) =~= base58(a).skip(1));
    assert(base58_digits(be_value(b)) =~= base58(b).skip(1));
    lemma_same_digits_same_number(be_value(a), be_value(b));
    lemma_same_value_same_bytes(a, b);
    assert(public =~= a.skip(6));
    assert(other =~= b.skip(6));
}

/// An identifier that meets a completed prefix pattern holds, right behind the required
/// prefix, the whole of a pattern that was put there, up to case where case is ignored.
pub proof fn law_completed_patterns_are_held_in_full(
    ci: bool,
    pattern: Seq<char>,
    at: int,
    raw: Seq<u8>,
)
    requires
        illegal_chars(pattern).len() == 0,
        0 <= at < pattern.len(),
        at < 8,
        lower_char(pattern[at]) != lower_char("12D3KooW"@[at]),
        meets(
            Mode::Prefix,
            ci,
            encode_utf8(normalized_prefix(pattern)),
            encode_utf8(base58(raw)),
        ),
    ensures
        base58(raw).len() >= 8 + pattern.len(),
        forall|k: int|
            0 <= k < pattern.len() ==> base58(raw)[8 + k] == #[trigger] pattern[k] || (ci
                && lower_char(base58(raw)[8 + k]) == lower_char(pattern[k])),
{
    let id = base58(raw);
    let whole = normalized_prefix(pattern);
    crate::prefix::law_other_patterns_stand_behind_the_prefix(pattern, at);
    law_identifiers_hold_base58_digits(raw);
    lemma_normalized_is_legal(pattern);
    lemma_legal_is_ascii(whole);
    lemma_ascii_encoding(id);
    lemma_ascii_encoding(whole);
    if ci {
        lemma_ascii_lower(id);
        lemma_ascii_lower(whole);
        let low = lower_chars(id);
        let want = lower_chars(whole);
        assert(occurs_at(encode_utf8(low), encode_utf8(want), 0));
        lemma_ascii_occurrence(low, want, 0);
        assert forall|k: int| 0 <= k < pattern.len() implies lower_char(id[8 + k]) == lower_char(
            #[trigger] pattern[k],
        ) by {
            assert(low.subrange(0, want.len() as int)[8 + k] == low[8 + k]);
            assert(whole[8 + k] == pattern[k]);
        }
    } else {
        assert(occurs_at(encode_utf8(id), encode_utf8(whole), 0));
        lemma_ascii_occurrence(id, whole, 0);
        assert forall|k: int| 0 <= k < pattern.len() implies id[8 + k] == #[trigger] pattern[k] by {
            assert(id.subrange(0, whole.len() as int)[8 + k] == id[8 + k]);
            assert(whole[8 + k] == pattern[k]);
        }
    }
}

/// The printed line is the text with the two escape sequences around one part of it: nothing
/// is left out, added or moved. The part starts where the mark starts and is as long as the
/// needle. Where nothing is marked, the line is the text.
pub proof fn law_marked_line_shows_the_whole_text(
    hay: Seq<char>,
    needle: Seq<char>,
    mode: Mode,
    ci: bool,
)
    requires
        can_highlight(hay, needle, mode, ci),
    ensures
        match mark_start(hay, needle, mode, ci) {
            Some(s) => exists|before: Seq<char>, marked: Seq<char>, behind: Seq<char>|
                {
                    &&& hay == #[trigger] (before + marked + behind)
                    &&& highlighted(hay, needle, mode, ci) == before + "\x1b[1;32m"@ + marked
                        + "\x1b[0m"@ + behind
                    &&& encode_utf8(before).len() == s
                    &&& encode_utf8(marked).len() == encode_utf8(needle).len()
                },
            None => highlighted(hay, needle, mode, ci) == hay,
        },
{
    if let Some(s) = mark_start(hay, needle, mode, ci) {
        let h = encode_utf8(hay);
        let n = encode_utf8(needle).len();
        lemma_mark_start_is_natural(hay, needle, mode, ci, s);
        law_highlight_keeps_the_text(hay, needle, mode, ci, s);
        let before = piece(hay, 0, s);
        let marked = piece(hay, s, s + n);
        let behind = piece(hay, s + n, h.len() as int);
        vstd::utf8::encode_utf8_valid_utf8(hay);
        vstd::utf8::valid_utf8_split(h, s + n);
        crate::highlight::lemma_boundary_in_head(h, s, s + n);
        let head = h.subrange(0, s + n);
        vstd::utf8::valid_utf8_split(head, s);
        assert(head.subrange(0, s) =~= h.subrange(0, s));
        assert(head.subrange(s, s + n) =~= h.subrange(s, s + n));
        vstd::utf8::decode_utf8_encode_utf8(h.subrange(0, s));
        vstd::utf8::decode_utf8_encode_utf8(h.subrange(s, s + n));
        assert(hay == before + marked + behind);
    }
}

/// Of an ASCII text that meets an ASCII pattern, the printed line marks the pattern itself, up
/// to case where case is ignored: at the start in mode prefix, at the end in mode suffix, and
/// where it stands first in mode any.
pub proof fn law_the_match_is_what_is_marked(
    hay: Seq<char>,
    needle: Seq<char>,
    mode: Mode,
    ci: bool,
)
    requires
        is_ascii_chars(hay),
        is_ascii_chars(needle),
        meets(mode, ci, encode_utf8(needle), encode_utf8(hay)),
    ensures
        exists|before: Seq<char>, marked: Seq<char>, behind: Seq<char>|
            {
                &&& hay == #[trigger] (before + marked + behind)
                &&& highlighted(hay, needle, mode, ci) == before + "\x1b[1;32m"@ + marked
                    + "\x1b[0m"@ + behind
                &&& marked.len() == needle.len()
                &&& forall|k: int|
                    0 <= k < needle.len() ==> #[trigger] marked[k] == needle[k] || (ci
                        && lower_char(marked[k]) == lower_char(needle[k]))
                &&& mode == Mode::Prefix ==> before.len() == 0
                &&& mode == Mode::Suffix ==> behind.len() == 0
            },
{
    law_match_is_marked(hay, needle, mode, ci);
    law_marked_line_shows_the_whole_text(hay, needle, mode, ci);
    let s = mark_start(hay, needle, mode, ci)->0;
    let n = encode_utf8(needle).len();
    let h = encode_utf8(hay);
    lemma_ascii_encoding(hay);
    lemma_ascii_encoding(needle);
    lemma_mark_start_is_natural(hay, needle, mode, ci, s);
    law_highlight_keeps_the_text(hay, needle, mode, ci, s);
    lemma_ascii_part(hay, 0, s);
    lemma_ascii_part(hay, s, s + n);
    lemma_ascii_part(hay, s + n, hay.len() as int);
    let before = piece(hay, 0, s);
    let marked = piece(hay, s, s + n);
    let behind = piece(hay, s + n, h.len() as int);
    assert(hay == before + marked + behind);
    if ci {
        assert forall|k: int| 0 <= k < needle.len() implies lower_char(#[trigger] marked[k])
            == lower_char(needle[k]) by {
            assert(lower_chars(marked)[k] == lower_chars(needle)[k]);
        }
    }
}

/// What a hit leaves in any directory: the file named by the whole identifier of the key that
/// was tried holds the stored form of that key, and nobody but the owner can read it. Nothing
/// at all is changed where only identifiers are wanted.
pub proof fn law_hits_leave_their_keys(
    dir: Directory,
    seed: Seq<u8>,
    matcher: &Matcher,
    print_only: bool,
    hit: Hit,
    args: &Args,
    actions: Seq<FileAction>,
)
    requires
        is_outcome(seed, matcher, print_only, Some(hit)),
        are_hit_actions(hit, args, actions),
    ensures
        ({
            let public = ed25519_public(seed);
            let id = base58(seq![0x00u8, 0x24u8, 0x08u8, 0x01u8, 0x12u8, 0x20u8] + public);
            let key = seq![0x08u8, 0x01u8, 0x12u8, 0x40u8] + seed + public;
            let after = after_steps(dir, steps(actions));
            &&& print_only ==> after == dir
            &&& !print_only ==> {
                &&& after.files.dom().contains(id)
                &&& after.files[id] == key
                &&& after.private.contains(id)
            }
            &&& !print_only && args.export_ipfs && args.key_name is Some ==> {
                &&& after.files.dom().contains(args.key_name->0@)
                &&& after.files[args.key_name->0@] == key
                &&& after.private.contains(args.key_name->0@)
            }
        }),
{
    crate::search::law_hits_hold_the_key_that_was_tried(seed, matcher, print_only, Some(hit));
    let id = hit.peer_id_b58@;
    if print_only {
        assert(steps(actions) =~= Seq::empty());
    } else {
        law_identifiers_hold_base58_digits(
            seq![0x00u8, 0x24u8, 0x08u8, 0x01u8, 0x12u8, 0x20u8] + ed25519_public(seed),
        );
        if id.contains('.') {
            let i = choose|i: int| 0 <= i < id.len() && id[i] == '.';
            assert(is_base58(id[i]));
            crate::base58::law_base58_digits_are_unmistakable('.');
        }
        let export = if args.export_ipfs && args.key_name is Some {
            Some(args.key_name->0@)
        } else {
            None
        };
        crate::keystore::law_hit_leaves_its_key(dir, id, hit.sk_protobuf->0@, export);
    }
}

} // verus!
