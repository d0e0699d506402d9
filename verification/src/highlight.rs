//! A found identifier with the part that met the pattern marked for the terminal.

use crate::matching::{find_first, first_occurrence, Mode};
use crate::text::lower_chars;
use vstd::prelude::*;
use vstd::string::StringSliceAdditionalSpecFns;
use vstd::utf8::{decode_utf8, encode_utf8, is_ascii_chars, is_char_boundary};

verus! {

/// Switches the terminal to bold green.
pub const ESC_ON: &'static str = "\x1b[1;32m";

/// Switches the terminal back.
pub const ESC_OFF: &'static str = "\x1b[0m";

/// The lower case of a text that is not all ASCII, as Unicode maps it.
pub uninterp spec fn unicode_lowercase(s: Seq<char>) -> Seq<char>;

/// The lower case of a text.
pub open spec fn lowercase(s: Seq<char>) -> Seq<char> {
    if is_ascii_chars(s) {
        lower_chars(s)
    } else {
        unicode_lowercase(s)
    }
}

/// `str::to_lowercase` of the standard library. An ASCII text gets its capital
/// letters replaced by the small ones. On any other text the mapping is that of
/// Unicode, which has a name only.
#[verifier::external_body]
fn to_lowercase(s: &str) -> (r: String)
    ensures
        r@ == lowercase(s@),
        !is_ascii_chars(s@) ==> r@ == unicode_lowercase(s@),
{
    s.to_lowercase()
}

/// The byte at which the marked part of `hay` starts; `None` if nothing is marked. A
/// prefix is marked at the start and a suffix at the end, whatever stands there.
pub open spec fn mark_start(
    hay: Seq<char>,
    needle: Seq<char>,
    mode: Mode,
    ci: bool,
) -> Option<int> {
    let h = encode_utf8(hay);
    let n = encode_utf8(needle);
    match mode {
        Mode::Prefix => Some(0),
        Mode::Suffix => if n.len() <= h.len() {
            Some(h.len() - n.len())
        } else {
            None
        },
        Mode::Any => if ci {
            first_occurrence(encode_utf8(lowercase(hay)), encode_utf8(lowercase(needle)))
        } else {
            first_occurrence(h, n)
        },
    }
}

/// The marked part, as long as `needle`, lies within `hay` and cuts no character.
pub open spec fn can_highlight(hay: Seq<char>, needle: Seq<char>, mode: Mode, ci: bool) -> bool {
    let h = encode_utf8(hay);
    let n = encode_utf8(needle);
    match mark_start(hay, needle, mode, ci) {
        Some(s) => {
            &&& s + n.len() <= h.len()
            &&& is_char_boundary(h, s)
            &&& is_char_boundary(h, s + n.len())
        },
        None => true,
    }
}

/// The text from byte `from` to byte `to` of `hay`.
pub open spec fn piece(hay: Seq<char>, from: int, to: int) -> Seq<char> {
    decode_utf8(encode_utf8(hay).subrange(from, to))
}

/// `hay` with the marked part between the two escape sequences.
pub open spec fn highlighted(hay: Seq<char>, needle: Seq<char>, mode: Mode, ci: bool) -> Seq<char> {
    let end = encode_utf8(hay).len() as int;
    let len = encode_utf8(needle).len();
    match mark_start(hay, needle, mode, ci) {
        Some(s) => piece(hay, 0, s) + ESC_ON@ + piece(hay, s, s + len) + ESC_OFF@ + piece(
            hay,
            s + len,
            end,
        ),
        None => hay,
    }
}

/// The byte at which the marked part starts.
fn find_mark(hay: &str, needle: &str, mode: Mode, ci: bool) -> (r: Option<usize>)
    ensures
        match r {
            Some(s) => mark_start(hay@, needle@, mode, ci) == Some(s as int),
            None => mark_start(hay@, needle@, mode, ci) is None,
        },
{
    match mode {
        Mode::Prefix => Some(0),
        Mode::Suffix => {
            let h: usize = hay.as_bytes().len();
            let n: usize = needle.as_bytes().len();
            h.checked_sub(n)
        },
        Mode::Any => if ci {
            let h: String = to_lowercase(hay);
            let n: String = to_lowercase(needle);
            find_first(h.as_str().as_bytes(), n.as_str().as_bytes())
        } else {
            find_first(hay.as_bytes(), needle.as_bytes())
        },
    }
}

/// A character boundary within a text is one within its beginning.
pub(crate) proof fn lemma_boundary_in_head(h: Seq<u8>, s: int, e: int)
    requires
        vstd::utf8::valid_utf8(h),
        0 <= s <= e <= h.len(),
        is_char_boundary(h, s),
        is_char_boundary(h, e),
    ensures
        vstd::utf8::valid_utf8(h.subrange(0, e)),
        is_char_boundary(h.subrange(0, e), s),
{
    let head = h.subrange(0, e);
    vstd::utf8::valid_utf8_split(h, e);
    if s < e {
        vstd::utf8::is_char_boundary_iff_not_is_continuation_byte(h, s);
        vstd::utf8::is_char_boundary_iff_not_is_continuation_byte(head, s);
        assert(head[s] == h[s]);
    } else {
        vstd::utf8::is_char_boundary_start_end_of_seq(head);
    }
}

/// Marks the part of `hay` that met the pattern `needle`.
pub fn highlight(hay: &str, needle: &str, mode: Mode, ci: bool) -> (r: String)
    requires
        can_highlight(hay@, needle@, mode, ci),
    ensures
        r@ == highlighted(hay@, needle@, mode, ci),
{
    match find_mark(hay, needle, mode, ci) {
        Some(s) => {
            let n: usize = needle.as_bytes().len();
            let ghost h = hay.spec_bytes();
            let total: usize = hay.as_bytes().len();
            assert(s + n <= total);
            let e: usize = s + n;
            proof {
                vstd::utf8::encode_utf8_valid_utf8(hay@);
                lemma_boundary_in_head(h, s as int, e as int);
            }
            let (head, post) = hay.split_at(e);
            let (pre, mid) = head.split_at(s);
            proof {
                vstd::utf8::encode_utf8_decode_utf8(pre@);
                vstd::utf8::encode_utf8_decode_utf8(mid@);
                vstd::utf8::encode_utf8_decode_utf8(post@);
                assert(pre.spec_bytes() =~= h.subrange(0, s as int));
                assert(mid.spec_bytes() =~= h.subrange(s as int, e as int));
            }
            let mut r = pre.to_string();
            r.append(ESC_ON);
            r.append(mid);
            r.append(ESC_OFF);
            r.append(post);
            r
        },
        None => hay.to_string(),
    }
}

/// `highlight` where it can be done, and `None` where it would cut a character or reach
/// beyond the end.
pub fn try_highlight(hay: &str, needle: &str, mode: Mode, ci: bool) -> (r: Option<String>)
    ensures
        r is Some <==> can_highlight(hay@, needle@, mode, ci),
        r matches Some(text) ==> text@ == highlighted(hay@, needle@, mode, ci),
{
    let total: usize = hay.as_bytes().len();
    let n: usize = needle.as_bytes().len();
    if let Some(s) = find_mark(hay, needle, mode, ci) {
        if n > total || s > total - n {
            return None;
        }
        if !hay.is_char_boundary(s) || !hay.is_char_boundary(s + n) {
            return None;
        }
    }
    Some(highlight(hay, needle, mode, ci))
}

/// Where the marked part starts: at the first byte in mode prefix; so far from the last byte
/// in mode suffix that the needle would end there, and nowhere if it is longer than the text;
/// and at the first occurrence in mode any, which is looked for in the lower case of both
/// where case is ignored.
pub proof fn law_marks_start_where_the_needle_stands(hay: Seq<char>, needle: Seq<char>, ci: bool)
    ensures
        mark_start(hay, needle, Mode::Prefix, ci) == Some(0int),
        encode_utf8(needle).len() <= encode_utf8(hay).len() ==> mark_start(
            hay,
            needle,
            Mode::Suffix,
            ci,
        ) == Some(encode_utf8(hay).len() - encode_utf8(needle).len()),
        encode_utf8(needle).len() > encode_utf8(hay).len() ==> mark_start(
            hay,
            needle,
            Mode::Suffix,
            ci,
        ) is None,
        ({
            let h = encode_utf8(if ci {
                lowercase(hay)
            } else {
                hay
            });
            let n = encode_utf8(if ci {
                lowercase(needle)
            } else {
                needle
            });
            match mark_start(hay, needle, Mode::Any, ci) {
                Some(s) => {
                    &&& 0 <= s <= h.len() - n.len()
                    &&& h.subrange(s, s + n.len()) == n
                    &&& forall|j: int| 0 <= j < s ==> #[trigger] h.subrange(j, j + n.len()) != n
                },
                None => forall|j: int|
                    0 <= j <= h.len() - n.len() ==> #[trigger] h.subrange(j, j + n.len()) != n,
            }
        }),
{
    crate::matching::law_first_occurrence_is_the_first(encode_utf8(hay), encode_utf8(needle));
    crate::matching::law_first_occurrence_is_the_first(
        encode_utf8(lowercase(hay)),
        encode_utf8(lowercase(needle)),
    );
}

/// The lower case of an ASCII text is as long as the text, and has its capital letters
/// replaced by the small ones. The lower case of any other text is that of Unicode.
pub proof fn law_lower_case_of_texts(s: Seq<char>)
    ensures
        !is_ascii_chars(s) ==> lowercase(s) == unicode_lowercase(s),
        is_ascii_chars(s) ==> lowercase(s).len() == s.len(),
        is_ascii_chars(s) ==> forall|i: int|
            0 <= i < s.len() ==> #[trigger] lowercase(s)[i] as int == (if 65 <= s[i] as int <= 90 {
                s[i] as int + 32
            } else {
                s[i] as int
            }),
{
}

/// A text can be marked if nothing is to be marked, or if the part as long as the needle
/// ends within the text and cuts no character in two.
pub proof fn law_marks_fit_between_characters(
    hay: Seq<char>,
    needle: Seq<char>,
    mode: Mode,
    ci: bool,
)
    ensures
        can_highlight(hay, needle, mode, ci) <==> {
            ||| mark_start(hay, needle, mode, ci) is None
            ||| {
                let s = mark_start(hay, needle, mode, ci)->0;
                &&& s + encode_utf8(needle).len() <= encode_utf8(hay).len()
                &&& is_char_boundary(encode_utf8(hay), s)
                &&& is_char_boundary(encode_utf8(hay), s + encode_utf8(needle).len())
            }
        },
{
}

} // verus!
