//! Character-level helpers shared by the field parsers: case folding and
//! trimming (taken from std), decimal digits, searching, and slugs.
use vstd::prelude::*;

verus! {

/// What `str::to_lowercase` makes of a string.
pub uninterp spec fn lower_of(s: Seq<char>) -> Seq<char>;

/// What `str::trim` makes of a string.
pub uninterp spec fn trim_of(s: Seq<char>) -> Seq<char>;

/// Relies on `str::to_lowercase`: the lowercase mapping of each character,
/// which depends on the characters alone.
#[verifier::external_body]
pub(crate) fn lowercase(s: &str) -> (r: String)
    ensures
        r@ == lower_of(s@),
{
    s.to_lowercase()
}

/// Relies on `str::trim`: the same text without leading and trailing
/// whitespace, a slice of the input.
#[verifier::external_body]
pub(crate) fn trim(s: &str) -> (r: &str)
    ensures
        r@ == trim_of(s@),
        r@.len() <= s@.len(),
{
    s.trim()
}

pub open spec fn is_digit(c: char) -> bool {
    '0' <= c && c <= '9'
}

pub open spec fn all_digits(s: Seq<char>) -> bool {
    forall|i: int| 0 <= i < s.len() ==> is_digit(#[trigger] s[i])
}

/// The number that a run of decimal digits stands for.
pub open spec fn digits_value(s: Seq<char>) -> int
    decreases s.len(),
{
    if s.len() == 0 {
        0
    } else {
        digits_value(s.drop_last()) * 10 + (s.last() as int - '0' as int)
    }
}

/// The first index at or after `from` where `x` occurs in `s`.
pub open spec fn first_index<A>(s: Seq<A>, x: A, from: int) -> Option<int>
    decreases s.len() - from,
{
    if from < 0 || from >= s.len() {
        None
    } else if s[from] == x {
        Some(from)
    } else {
        first_index(s, x, from + 1)
    }
}

pub proof fn lemma_first_index_found<A>(s: Seq<A>, x: A, from: int)
    requires
        0 <= from,
    ensures
        match first_index(s, x, from) {
            Some(i) => from <= i < s.len() && s[i] == x && forall|j: int|
                from <= j < i ==> s[j] != x,
            None => forall|j: int| from <= j < s.len() ==> s[j] != x,
        },
    decreases s.len() - from,
{
    if from < s.len() && s[from] != x {
        lemma_first_index_found(s, x, from + 1);
    }
}

/// Index of the first occurrence of `c` in `s`.
pub fn find_char(s: &str, c: char) -> (r: Option<usize>)
    ensures
        match r {
            Some(i) => first_index(s@, c, 0) == Some(i as int),
            None => first_index(s@, c, 0) is None,
        },
{
    let n = s.unicode_len();
    let mut i: usize = 0;
    while i < n
        invariant
            n == s@.len(),
            i <= n,
            first_index(s@, c, 0) == first_index(s@, c, i as int),
        decreases n - i,
    {
        if s.get_char(i) == c {
            return Some(i);
        }
        i = i + 1;
    }
    None
}

/// Value of a run of at most two decimal digits, or `None` when `s` is
/// empty, longer, or holds anything but digits.
pub fn small_number(s: &str) -> (r: Option<u8>)
    ensures
        match r {
            Some(v) => 1 <= s@.len() <= 2 && all_digits(s@) && v as int == digits_value(s@),
            None => !(1 <= s@.len() <= 2 && all_digits(s@)),
        },
{
    let n = s.unicode_len();
    if n == 0 || n > 2 {
        return None;
    }
    let mut v: u8 = 0;
    let mut i: usize = 0;
    while i < n
        invariant
            n == s@.len(),
            1 <= n <= 2,
            i <= n,
            all_digits(s@.take(i as int)),
            v as int == digits_value(s@.take(i as int)),
            v < 10 || i == 2,
            i <= 1 ==> v < 10,
        decreases n - i,
    {
        let c = s.get_char(i);
        if !('0' <= c && c <= '9') {
            assert(!all_digits(s@));
            return None;
        }
        let d = (c as u32 - '0' as u32) as u8;
        assert(s@.take(i as int + 1).drop_last() =~= s@.take(i as int));
        v = v * 10 + d;
        i = i + 1;
    }
    assert(s@.take(n as int) =~= s@);
    Some(v)
}

/// Slug of a display name: lowercase, each space turned into a hyphen.
pub open spec fn slug_of(name: Seq<char>) -> Seq<char> {
    hyphenate(lower_of(name))
}

/// Each space of `s` turned into a hyphen; nothing else changes.
pub open spec fn hyphenate(s: Seq<char>) -> Seq<char> {
    s.map_values(|c: char| if c == ' ' { '-' } else { c })
}

/// Identifier of a running group, derived from its display name.
pub fn create_group_id(group: &str) -> (r: String)
    ensures
        r@ == slug_of(group@),
{
    let lower = lowercase(group);
    let s = lower.as_str();
    let n = s.unicode_len();
    let mut out = String::new();
    let mut i: usize = 0;
    while i < n
        invariant
            n == s@.len(),
            s@ == lower_of(group@),
            i <= n,
            out@ == hyphenate(s@.take(i as int)),
        decreases n - i,
    {
        let c = s.get_char(i);
        if c == ' ' {
            out.append("-");
        } else {
            out.append(s.substring_char(i, i + 1));
        }
        proof {
            reveal_strlit("-");
        }
        assert(out@ =~= hyphenate(s@.take(i as int + 1)));
        i = i + 1;
    }
    assert(s@.take(n as int) =~= s@);
    out
}

/// A field whose trimmed text is empty is absent; any other is kept as it
/// was given, untrimmed.
pub fn none_if_empty(s: String) -> (r: Option<String>)
    ensures
        trim_of(s@).len() == 0 ==> r is None,
        trim_of(s@).len() != 0 ==> r == Some(s),
{
    let empty = trim(s.as_str()).unicode_len() == 0;
    if empty {
        None
    } else {
        Some(s)
    }
}

/// A slug stays as it is when slugged again: text that lowercasing leaves
/// unchanged and that holds no space is its own slug.
pub proof fn lemma_slug_fixed_point(s: Seq<char>)
    requires
        lower_of(s) == s,
        !s.contains(' '),
    ensures
        slug_of(s) == s,
{
    assert(hyphenate(s) =~= s);
}

} // verus!
