//! Byte-level matching of a pattern: anywhere, at the start or at the end, with
//! or without regard to the case of ASCII letters.

use crate::text::{lower_byte, lower_bytes};
use vstd::prelude::*;
use vstd::string::StringSliceAdditionalSpecFns;

verus! {

/// Where in an identifier the pattern has to stand.
#[derive(Clone, Copy, Debug, PartialEq, Eq, Structural)]
pub enum Mode {
    Any,
    Prefix,
    Suffix,
}

/// `needle` stands in `hay` at position `i`.
pub open spec fn occurs_at(hay: Seq<u8>, needle: Seq<u8>, i: int) -> bool {
    &&& 0 <= i
    &&& i + needle.len() <= hay.len()
    &&& hay.subrange(i, i + needle.len()) == needle
}

/// `needle` stands somewhere in `hay`.
pub open spec fn occurs(hay: Seq<u8>, needle: Seq<u8>) -> bool {
    exists|i: int| occurs_at(hay, needle, i)
}

/// The first position at or behind `from` at which `needle` stands in `hay`.
pub open spec fn first_from(hay: Seq<u8>, needle: Seq<u8>, from: int) -> Option<int>
    decreases hay.len() - from + 1,
{
    if from + needle.len() > hay.len() {
        None
    } else if occurs_at(hay, needle, from) {
        Some(from)
    } else {
        first_from(hay, needle, from + 1)
    }
}

/// The first position at which `needle` stands in `hay`.
pub open spec fn first_occurrence(hay: Seq<u8>, needle: Seq<u8>) -> Option<int> {
    first_from(hay, needle, 0)
}

/// `needle` stands in `hay` where `mode` wants it.
pub open spec fn stands(mode: Mode, hay: Seq<u8>, needle: Seq<u8>) -> bool {
    match mode {
        Mode::Any => occurs(hay, needle),
        Mode::Prefix => needle.is_prefix_of(hay),
        Mode::Suffix => needle.is_suffix_of(hay),
    }
}

/// `hay` meets `pattern`: the two are compared as they are, or both in lower case.
pub open spec fn meets(mode: Mode, case_insensitive: bool, pattern: Seq<u8>, hay: Seq<u8>) -> bool {
    if case_insensitive {
        stands(mode, lower_bytes(hay), lower_bytes(pattern))
    } else {
        stands(mode, hay, pattern)
    }
}

/// The lower case of an ASCII capital letter; any other byte as it is.
pub fn ascii_lower_byte(b: u8) -> (r: u8)
    ensures
        r == lower_byte(b),
        65 <= b <= 90 ==> r == b + 32,
        !(65 <= b <= 90) ==> r == b,
{
    if b >= 65 && b <= 90 {
        b + 32
    } else {
        b
    }
}

/// `ascii_lower_byte` of every byte, in order.
pub fn ascii_lowercase_bytes(input: &[u8]) -> (r: Vec<u8>)
    ensures
        r@ == lower_bytes(input@),
{
    let mut r: Vec<u8> = Vec::new();
    let mut i: usize = 0;
    while i < input.len()
        invariant
            i <= input@.len(),
            r@ == lower_bytes(input@.take(i as int)),
        decreases input@.len() - i,
    {
        r.push(ascii_lower_byte(input[i]));
        i = i + 1;
        assert(r@ =~= lower_bytes(input@.take(i as int)));
    }
    assert(input@.take(i as int) =~= input@);
    r
}

/// `memchr::memmem::find`. It hands back the index of the first occurrence of
/// `needle` in `hay`, and `None` where there is no occurrence. An empty `needle`
/// occurs at 0.
#[verifier::external_body]
fn memmem_find(hay: &[u8], needle: &[u8]) -> (r: Option<usize>)
    ensures
        match r {
            Some(i) => {
                &&& occurs_at(hay@, needle@, i as int)
                &&& forall|j: int| j < i ==> !#[trigger] occurs_at(hay@, needle@, j)
            },
            None => !occurs(hay@, needle@),
        },
{
    memchr::memmem::find(hay, needle)
}

/// What `first_from` gives is an occurrence with none before it, and it gives `None`
/// only where there is none.
pub proof fn lemma_first_from(hay: Seq<u8>, needle: Seq<u8>, from: int)
    requires
        0 <= from,
    ensures
        match first_from(hay, needle, from) {
            Some(i) => {
                &&& from <= i
                &&& occurs_at(hay, needle, i)
                &&& forall|j: int| from <= j < i ==> !#[trigger] occurs_at(hay, needle, j)
            },
            None => forall|j: int| from <= j ==> !#[trigger] occurs_at(hay, needle, j),
        },
    decreases hay.len() - from + 1,
{
    if from + needle.len() <= hay.len() && !occurs_at(hay, needle, from) {
        lemma_first_from(hay, needle, from + 1);
    }
}

/// The first position of `needle` in `hay`.
pub(crate) fn find_first(hay: &[u8], needle: &[u8]) -> (r: Option<usize>)
    ensures
        match r {
            Some(i) => first_occurrence(hay@, needle@) == Some(i as int),
            None => first_occurrence(hay@, needle@) is None,
        },
{
    proof {
        lemma_first_from(hay@, needle@, 0);
    }
    memmem_find(hay, needle)
}

/// Whether `needle` stands somewhere in `hay`.
pub fn contains_cs(hay: &[u8], needle: &[u8]) -> (r: bool)
    ensures
        r == occurs(hay@, needle@),
{
    memmem_find(hay, needle).is_some()
}

/// Whether `hay` starts with `needle`.
pub fn starts_with_cs(hay: &[u8], needle: &[u8]) -> (r: bool)
    ensures
        r == needle@.is_prefix_of(hay@),
{
    if hay.len() < needle.len() {
        return false;
    }
    let mut i: usize = 0;
    while i < needle.len()
        invariant
            i <= needle@.len() <= hay@.len(),
            forall|k: int| 0 <= k < i ==> hay@[k] == needle@[k],
        decreases needle@.len() - i,
    {
        if hay[i] != needle[i] {
            assert(hay@.subrange(0, needle@.len() as int)[i as int] != needle@[i as int]);
            return false;
        }
        i = i + 1;
    }
    assert(needle@ =~= hay@.subrange(0, needle@.len() as int));
    true
}

/// Whether `hay` ends with `needle`.
pub fn ends_with_cs(hay: &[u8], needle: &[u8]) -> (r: bool)
    ensures
        r == needle@.is_suffix_of(hay@),
{
    if hay.len() < needle.len() {
        return false;
    }
    let offset: usize = hay.len() - needle.len();
    let mut i: usize = 0;
    while i < needle.len()
        invariant
            i <= needle@.len() <= hay@.len(),
            offset == hay.len() - needle@.len(),
            forall|k: int| 0 <= k < i ==> hay@[offset + k] == needle@[k],
        decreases needle@.len() - i,
    {
        if hay[offset + i] != needle[i] {
            assert(hay@.subrange(offset as int, hay@.len() as int)[i as int] != needle@[i as int]);
            return false;
        }
        i = i + 1;
    }
    assert(needle@ =~= hay@.subrange(offset as int, hay@.len() as int));
    true
}

/// Whether the lower case of `hay` starts with `needle_lower`.
pub fn starts_with_ci(hay: &[u8], needle_lower: &[u8]) -> (r: bool)
    ensures
        r == needle_lower@.is_prefix_of(lower_bytes(hay@)),
{
    if hay.len() < needle_lower.len() {
        return false;
    }
    let ghost low = lower_bytes(hay@);
    let mut i: usize = 0;
    while i < needle_lower.len()
        invariant
            i <= needle_lower@.len() <= hay@.len(),
            low == lower_bytes(hay@),
            forall|k: int| 0 <= k < i ==> low[k] == needle_lower@[k],
        decreases needle_lower@.len() - i,
    {
        if ascii_lower_byte(hay[i]) != needle_lower[i] {
            assert(low.subrange(0, needle_lower@.len() as int)[i as int] != needle_lower@[i as int]);
            return false;
        }
        i = i + 1;
    }
    assert(needle_lower@ =~= low.subrange(0, needle_lower@.len() as int));
    true
}

/// Whether the lower case of `hay` ends with `needle_lower`.
pub fn ends_with_ci(hay: &[u8], needle_lower: &[u8]) -> (r: bool)
    ensures
        r == needle_lower@.is_suffix_of(lower_bytes(hay@)),
{
    if hay.len() < needle_lower.len() {
        return false;
    }
    let ghost low = lower_bytes(hay@);
    let offset: usize = hay.len() - needle_lower.len();
    let mut i: usize = 0;
    while i < needle_lower.len()
        invariant
            i <= needle_lower@.len() <= hay@.len(),
            offset == hay.len() - needle_lower@.len(),
            low == lower_bytes(hay@),
            forall|k: int| 0 <= k < i ==> low[offset + k] == needle_lower@[k],
        decreases needle_lower@.len() - i,
    {
        if ascii_lower_byte(hay[offset + i]) != needle_lower[i] {
            assert(low.subrange(offset as int, low.len() as int)[i as int]
                != needle_lower@[i as int]);
            return false;
        }
        i = i + 1;
    }
    assert(needle_lower@ =~= low.subrange(offset as int, low.len() as int));
    true
}

/// Whether `needle_lower` stands somewhere in the lower case of `hay`.
pub fn contains_ci(hay: &[u8], needle_lower: &[u8]) -> (r: bool)
    ensures
        r == occurs(lower_bytes(hay@), needle_lower@),
{
    let ghost low = lower_bytes(hay@);
    if needle_lower.is_empty() {
        assert(low.subrange(0, 0) =~= needle_lower@);
        assert(occurs_at(low, needle_lower@, 0));
        return true;
    }
    if hay.len() < needle_lower.len() {
        return false;
    }
    let max_start: usize = hay.len() - needle_lower.len();
    let first: u8 = needle_lower[0];
    let mut i: usize = 0;
    while i <= max_start
        invariant
            0 < needle_lower@.len() <= hay@.len(),
            max_start == hay.len() - needle_lower@.len(),
            i <= max_start + 1,
            first == needle_lower@[0],
            low == lower_bytes(hay@),
            forall|k: int| 0 <= k < i ==> !#[trigger] occurs_at(low, needle_lower@, k),
        decreases max_start + 1 - i,
    {
        if ascii_lower_byte(hay[i]) == first {
            let mut j: usize = 1;
            while j < needle_lower.len() && ascii_lower_byte(hay[i + j]) == needle_lower[j]
                invariant
                    0 < j <= needle_lower@.len() <= hay@.len(),
                    i <= max_start,
                    max_start == hay.len() - needle_lower@.len(),
                    low == lower_bytes(hay@),
                    forall|k: int| 0 <= k < j ==> low[i + k] == needle_lower@[k],
                decreases needle_lower@.len() - j,
            {
                j = j + 1;
            }
            if j == needle_lower.len() {
                assert(low.subrange(i as int, i + needle_lower@.len()) =~= needle_lower@);
                assert(occurs_at(low, needle_lower@, i as int));
                return true;
            }
            assert(low.subrange(i as int, i + needle_lower@.len())[j as int]
                != needle_lower@[j as int]);
        } else {
            assert(low.subrange(i as int, i + needle_lower@.len())[0] != needle_lower@[0]);
        }
        assert(!occurs_at(low, needle_lower@, i as int));
        i = i + 1;
    }
    false
}

/// A pattern made ready for matching: with its mode, and in lower case where
/// case does not count.
pub struct Matcher {
    needle: Vec<u8>,
    mode: Mode,
    case_insensitive: bool,
}

impl Matcher {
    /// Where the pattern has to stand.
    pub closed spec fn mode(&self) -> Mode {
        self.mode
    }

    /// Whether the case of ASCII letters is ignored.
    pub closed spec fn case_insensitive(&self) -> bool {
        self.case_insensitive
    }

    /// The bytes that are looked for.
    pub closed spec fn needle(&self) -> Seq<u8> {
        self.needle@
    }

    /// `hay` is what this matcher looks for.
    pub open spec fn accepts(&self, hay: Seq<u8>) -> bool {
        if self.case_insensitive() {
            stands(self.mode(), lower_bytes(hay), self.needle())
        } else {
            stands(self.mode(), hay, self.needle())
        }
    }

    /// A matcher for `pattern`.
    pub fn new(mode: Mode, case_insensitive: bool, pattern: &str) -> (r: Self)
        ensures
            r.mode() == mode,
            r.case_insensitive() == case_insensitive,
            r.needle() == (if case_insensitive {
                lower_bytes(pattern.spec_bytes())
            } else {
                pattern.spec_bytes()
            }),
            forall|hay: Seq<u8>| #[trigger]
                r.accepts(hay) == meets(mode, case_insensitive, pattern.spec_bytes(), hay),
    {
        let needle = if case_insensitive {
            ascii_lowercase_bytes(pattern.as_bytes())
        } else {
            pattern.as_bytes_vec()
        };
        Matcher { needle, mode, case_insensitive }
    }

    /// Whether `hay` meets the pattern.
    pub fn is_match(&self, hay: &[u8]) -> (r: bool)
        ensures
            r == self.accepts(hay@),
    {
        match (self.mode, self.case_insensitive) {
            (Mode::Any, false) => contains_cs(hay, self.needle.as_slice()),
            (Mode::Prefix, false) => starts_with_cs(hay, self.needle.as_slice()),
            (Mode::Suffix, false) => ends_with_cs(hay, self.needle.as_slice()),
            (Mode::Any, true) => contains_ci(hay, self.needle.as_slice()),
            (Mode::Prefix, true) => starts_with_ci(hay, self.needle.as_slice()),
            (Mode::Suffix, true) => ends_with_ci(hay, self.needle.as_slice()),
        }
    }
}

impl Clone for Matcher {
    fn clone(&self) -> (r: Self)
        ensures
            r.mode() == self.mode(),
            r.case_insensitive() == self.case_insensitive(),
            r.needle() == self.needle(),
    {
        let needle: Vec<u8> = self.needle.clone();
        assert(needle@ =~= self.needle@);
        Matcher { needle, mode: self.mode, case_insensitive: self.case_insensitive }
    }
}

/// What stands at the start or at the end stands somewhere.
pub proof fn law_anchored_match_is_a_match(
    mode: Mode,
    case_insensitive: bool,
    pattern: Seq<u8>,
    hay: Seq<u8>,
)
    requires
        meets(mode, case_insensitive, pattern, hay),
    ensures
        meets(Mode::Any, case_insensitive, pattern, hay),
{
    let (h, n) = if case_insensitive {
        (lower_bytes(hay), lower_bytes(pattern))
    } else {
        (hay, pattern)
    };
    match mode {
        Mode::Any => {},
        Mode::Prefix => {
            assert(occurs_at(h, n, 0));
        },
        Mode::Suffix => {
            assert(h.subrange(h.len() - n.len(), h.len() - n.len() + n.len()) =~= n);
            assert(occurs_at(h, n, h.len() - n.len()));
        },
    }
}

/// What is found with regard to case is found without.
pub proof fn law_exact_match_is_a_match_in_any_case(mode: Mode, pattern: Seq<u8>, hay: Seq<u8>)
    requires
        meets(mode, false, pattern, hay),
    ensures
        meets(mode, true, pattern, hay),
{
    let low = lower_bytes(hay);
    let want = lower_bytes(pattern);
    let n = pattern.len() as int;
    match mode {
        Mode::Any => {
            let i = choose|i: int| occurs_at(hay, pattern, i);
            assert forall|k: int| 0 <= k < n implies low.subrange(i, i + n)[k] == want[k] by {
                assert(hay.subrange(i, i + n)[k] == pattern[k]);
            }
            assert(low.subrange(i, i + n) =~= want);
            assert(occurs_at(low, want, i));
        },
        Mode::Prefix => {
            assert forall|k: int| 0 <= k < n implies low.subrange(0, n)[k] == want[k] by {
                assert(hay.subrange(0, n)[k] == pattern[k]);
            }
            assert(want =~= low.subrange(0, n));
        },
        Mode::Suffix => {
            let i = hay.len() - n;
            assert forall|k: int| 0 <= k < n implies low.subrange(i, hay.len() as int)[k]
                == want[k] by {
                assert(hay.subrange(i, hay.len() as int)[k] == pattern[k]);
            }
            assert(want =~= low.subrange(i, hay.len() as int));
        },
    }
}

/// Where case is ignored, the case of the pattern and of the text make no difference.
pub proof fn law_case_does_not_count(
    mode: Mode,
    pattern: Seq<u8>,
    other_pattern: Seq<u8>,
    hay: Seq<u8>,
    other_hay: Seq<u8>,
)
    requires
        lower_bytes(pattern) == lower_bytes(other_pattern),
        lower_bytes(hay) == lower_bytes(other_hay),
    ensures
        meets(mode, true, pattern, hay) == meets(mode, true, other_pattern, other_hay),
{
}

/// A pattern is found wherever it stands: a text is met in mode any if it holds the pattern
/// with anything before and behind it, in mode prefix if it starts with the pattern, and in
/// mode suffix if it ends with it. The bytes `found` are those of the pattern, up to case
/// where case is ignored.
pub proof fn law_patterns_are_found_wherever_they_stand(
    ci: bool,
    pattern: Seq<u8>,
    found: Seq<u8>,
    before: Seq<u8>,
    behind: Seq<u8>,
)
    requires
        found.len() == pattern.len(),
        forall|k: int|
            0 <= k < pattern.len() ==> #[trigger] found[k] == pattern[k] || (ci && lower_byte(
                found[k],
            ) == lower_byte(pattern[k])),
    ensures
        meets(Mode::Any, ci, pattern, before + found + behind),
        meets(Mode::Prefix, ci, pattern, found + behind),
        meets(Mode::Suffix, ci, pattern, before + found),
{
    let at = before.len() as int;
    let n = pattern.len() as int;
    let hay = before + found + behind;
    if ci {
        let want = lower_bytes(pattern);
        assert forall|k: int| 0 <= k < n implies lower_bytes(found)[k] == want[k] by {
            assert(found[k] == pattern[k] || lower_byte(found[k]) == lower_byte(pattern[k]));
        }
        assert(lower_bytes(hay).subrange(at, at + n) =~= want);
        assert(occurs_at(lower_bytes(hay), want, at));
        assert(want =~= lower_bytes(found + behind).subrange(0, n));
        assert(want =~= lower_bytes(before + found).subrange(at, at + n));
    } else {
        assert(found =~= pattern);
        assert(hay.subrange(at, at + n) =~= pattern);
        assert(occurs_at(hay, pattern, at));
        assert(pattern =~= (found + behind).subrange(0, n));
        assert(pattern =~= (before + found).subrange(at, at + n));
    }
}

/// What is met holds the pattern, byte for byte, up to case where case is ignored: somewhere
/// in any mode, at the start in mode prefix, and at the end in mode suffix.
pub proof fn law_what_is_met_holds_the_pattern(
    mode: Mode,
    ci: bool,
    pattern: Seq<u8>,
    hay: Seq<u8>,
)
    requires
        meets(mode, ci, pattern, hay),
    ensures
        exists|before: Seq<u8>, found: Seq<u8>, behind: Seq<u8>|
            {
                &&& hay == #[trigger] (before + found + behind)
                &&& found.len() == pattern.len()
                &&& forall|k: int|
                    0 <= k < pattern.len() ==> #[trigger] found[k] == pattern[k] || (ci
                        && lower_byte(found[k]) == lower_byte(pattern[k]))
                &&& mode == Mode::Prefix ==> before.len() == 0
                &&& mode == Mode::Suffix ==> behind.len() == 0
            },
{
    let (h, n) = if ci {
        (lower_bytes(hay), lower_bytes(pattern))
    } else {
        (hay, pattern)
    };
    let len = pattern.len() as int;
    let at = match mode {
        Mode::Any => choose|i: int| occurs_at(h, n, i),
        Mode::Prefix => 0,
        Mode::Suffix => h.len() - len,
    };
    assert(h.subrange(at, at + len) =~= n);
    let before = hay.subrange(0, at);
    let found = hay.subrange(at, at + len);
    let behind = hay.subrange(at + len, hay.len() as int);
    assert forall|k: int| 0 <= k < len implies #[trigger] found[k] == pattern[k] || (ci
        && lower_byte(found[k]) == lower_byte(pattern[k])) by {
        assert(h.subrange(at, at + len)[k] == n[k]);
    }
    assert(hay =~= before + found + behind);
}

/// The first occurrence is an occurrence, there is none before it, and none is missed.
pub proof fn law_first_occurrence_is_the_first(hay: Seq<u8>, needle: Seq<u8>)
    ensures
        match first_occurrence(hay, needle) {
            Some(i) => {
                &&& 0 <= i <= hay.len() - needle.len()
                &&& hay.subrange(i, i + needle.len()) == needle
                &&& forall|j: int| 0 <= j < i ==> #[trigger] hay.subrange(j, j + needle.len()) != needle
            },
            None => forall|j: int|
                0 <= j <= hay.len() - needle.len() ==> #[trigger] hay.subrange(j, j + needle.len())
                    != needle,
        },
        occurs(hay, needle) <==> first_occurrence(hay, needle) is Some,
{
    lemma_first_from(hay, needle, 0);
    match first_occurrence(hay, needle) {
        Some(i) => {
            assert forall|j: int| 0 <= j < i implies #[trigger] hay.subrange(j, j + needle.len())
                != needle by {
                assert(!occurs_at(hay, needle, j));
            }
        },
        None => {
            assert forall|j: int|
                0 <= j <= hay.len() - needle.len() implies #[trigger] hay.subrange(
                j,
                j + needle.len(),
            ) != needle by {
                assert(!occurs_at(hay, needle, j));
            }
        },
    }
}

} // verus!
