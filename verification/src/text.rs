//! Strings as sequences of characters: reading a `&str`, searching it, and
//! building a `String`.
use vstd::prelude::*;

verus! {

/// The characters of `s`, in order.
pub fn str_chars(s: &str) -> (r: Vec<char>)
    ensures
        r@ == s@,
{
    let n: usize = s.unicode_len();
    let mut out: Vec<char> = Vec::new();
    let mut i: usize = 0;
    while i < n
        invariant
            n == s@.len(),
            i <= n,
            out@ == s@.subrange(0, i as int),
        decreases n - i,
    {
        out.push(s.get_char(i));
        i = i + 1;
        assert(out@ =~= s@.subrange(0, i as int));
    }
    assert(out@ =~= s@);
    out
}

/// Collects characters into a `String` through std's `FromIterator<char>`
/// for `String`, whose documentation promises a string of exactly the
/// characters it was given, in order.
#[verifier::external_body]
pub fn string_from_chars(cs: Vec<char>) -> (s: String)
    ensures
        s@ == cs@,
{
    cs.into_iter().collect()
}

/// The index of the first `c` in `s`, as `str::find` gives it, counted in
/// characters.
pub open spec fn find_char(s: Seq<char>, c: char) -> Option<int>
    decreases s.len(),
{
    if s.len() == 0 {
        None
    } else if s[0] == c {
        Some(0)
    } else {
        match find_char(s.drop_first(), c) {
            Some(i) => Some(i + 1),
            None => None,
        }
    }
}

/// `find_char` finds the first `c`, and finds nothing only where there is
/// no `c`.
pub proof fn lemma_find_char(s: Seq<char>, c: char)
    ensures
        match find_char(s, c) {
            Some(i) => 0 <= i < s.len() && s[i] == c && forall|j: int| 0 <= j < i ==> s[j] != c,
            None => forall|j: int| 0 <= j < s.len() ==> s[j] != c,
        },
    decreases s.len(),
{
    if s.len() > 0 && s[0] != c {
        lemma_find_char(s.drop_first(), c);
        assert forall|j: int| 0 < j < s.len() implies s[j] == s.drop_first()[j - 1] by {}
    }
}

/// The first `c` in `s` is at `k`.
pub proof fn lemma_find_char_first(s: Seq<char>, c: char, k: int)
    requires
        0 <= k < s.len(),
        s[k] == c,
        forall|j: int| 0 <= j < k ==> s[j] != c,
    ensures
        find_char(s, c) == Some(k),
{
    lemma_find_char(s, c);
}

/// There is no `c` in `s`.
pub proof fn lemma_find_char_none(s: Seq<char>, c: char)
    requires
        forall|j: int| 0 <= j < s.len() ==> s[j] != c,
    ensures
        find_char(s, c) is None,
{
    lemma_find_char(s, c);
}

/// The index of the first `c` in `cs[lo..hi]`, relative to `lo`.
pub fn find_in(cs: &Vec<char>, lo: usize, hi: usize, c: char) -> (r: Option<usize>)
    requires
        lo <= hi <= cs@.len(),
    ensures
        match r {
            Some(i) => find_char(cs@.subrange(lo as int, hi as int), c) == Some(i as int),
            None => find_char(cs@.subrange(lo as int, hi as int), c) is None,
        },
        r matches Some(i) ==> lo + i < hi && cs@[lo + i] == c,
{
    let ghost s = cs@.subrange(lo as int, hi as int);
    let mut i: usize = lo;
    while i < hi
        invariant
            lo <= i <= hi <= cs@.len(),
            s == cs@.subrange(lo as int, hi as int),
            forall|j: int| 0 <= j < i - lo ==> s[j] != c,
        decreases hi - i,
    {
        if cs[i] == c {
            let k: usize = i - lo;
            assert(s[k as int] == c);
            proof {
                lemma_find_char_first(s, c, k as int);
            }
            return Some(k);
        }
        i = i + 1;
    }
    proof {
        lemma_find_char_none(s, c);
    }
    None
}

/// The characters that `char::to_uppercase` yields for `c`: Unicode's
/// uppercase mapping, which can be more than one character.
pub uninterp spec fn char_to_uppercase(c: char) -> Seq<char>;

/// The characters that `char::to_lowercase` yields for `c`: Unicode's
/// lowercase mapping, which can be more than one character.
pub uninterp spec fn char_to_lowercase(c: char) -> Seq<char>;

/// What `char::is_uppercase` returns for `c`: whether Unicode gives `c` the
/// `Uppercase` property.
pub uninterp spec fn char_is_uppercase(c: char) -> bool;

/// Whether `c` is an ASCII character.
pub open spec fn is_ascii_char(c: char) -> bool {
    '\0' <= c <= '\u{7f}'
}

/// Whether `c` is one of `A` to `Z`.
pub open spec fn is_ascii_upper(c: char) -> bool {
    'A' <= c <= 'Z'
}

/// Whether `c` is one of `a` to `z`.
pub open spec fn is_ascii_lower(c: char) -> bool {
    'a' <= c <= 'z'
}

/// `c` with `a` to `z` mapped to `A` to `Z`.
pub open spec fn ascii_upper(c: char) -> char {
    if is_ascii_lower(c) {
        ((c as u32) - 32) as char
    } else {
        c
    }
}

/// `c` with `A` to `Z` mapped to `a` to `z`.
pub open spec fn ascii_lower(c: char) -> char {
    if is_ascii_upper(c) {
        ((c as u32) + 32) as char
    } else {
        c
    }
}

/// The uppercase mapping of `c`: for an ASCII character the one character
/// `to_ascii_uppercase` gives, else Unicode's mapping.
pub open spec fn upper_chars(c: char) -> Seq<char> {
    if is_ascii_char(c) {
        seq![ascii_upper(c)]
    } else {
        char_to_uppercase(c)
    }
}

/// The lowercase mapping of `c`: for an ASCII character the one character
/// `to_ascii_lowercase` gives, else Unicode's mapping.
pub open spec fn lower_chars(c: char) -> Seq<char> {
    if is_ascii_char(c) {
        seq![ascii_lower(c)]
    } else {
        char_to_lowercase(c)
    }
}

/// Whether `c` is uppercase: for an ASCII character whether it is one of
/// `A` to `Z`, else Unicode's `Uppercase` property.
pub open spec fn is_upper(c: char) -> bool {
    if is_ascii_char(c) {
        is_ascii_upper(c)
    } else {
        char_is_uppercase(c)
    }
}

/// Calls `char::to_uppercase` and collects what it yields. Its
/// documentation says that it yields one or more characters, and that an
/// ASCII character maps as `to_ascii_uppercase` maps it; for the others,
/// which ones is Unicode's table, named here and not stated.
#[verifier::external_body]
pub fn to_uppercase(c: char) -> (r: Vec<char>)
    ensures
        r@ == char_to_uppercase(c),
        r@ == upper_chars(c),
        r@.len() >= 1,
{
    c.to_uppercase().collect()
}

/// Calls `char::to_lowercase` and collects what it yields. Its
/// documentation says that it yields one or more characters, and that an
/// ASCII character maps as `to_ascii_lowercase` maps it; for the others,
/// which ones is Unicode's table, named here and not stated.
#[verifier::external_body]
pub fn to_lowercase(c: char) -> (r: Vec<char>)
    ensures
        r@ == char_to_lowercase(c),
        r@ == lower_chars(c),
        r@.len() >= 1,
{
    c.to_lowercase().collect()
}

/// Calls `char::is_uppercase`, whose answer is Unicode's `Uppercase`
/// property: among ASCII characters exactly `A` to `Z`; for the others
/// named here and not stated.
#[verifier::external_body]
pub fn is_uppercase(c: char) -> (r: bool)
    ensures
        r == char_is_uppercase(c),
        r == is_upper(c),
{
    c.is_uppercase()
}

/// Append every character of `src` to `out`.
pub fn push_all(out: &mut Vec<char>, src: &Vec<char>)
    ensures
        final(out)@ == old(out)@ + src@,
{
    let mut i: usize = 0;
    while i < src.len()
        invariant
            i <= src@.len(),
            out@ == old(out)@ + src@.subrange(0, i as int),
        decreases src@.len() - i,
    {
        out.push(src[i]);
        i = i + 1;
        assert(out@ =~= old(out)@ + src@.subrange(0, i as int));
    }
    assert(src@.subrange(0, i as int) =~= src@);
}

/// Whether the characters of `a` are those of `b`.
pub fn chars_equal(a: &Vec<char>, b: &Vec<char>) -> (r: bool)
    ensures
        r == (a@ == b@),
{
    if a.len() != b.len() {
        return false;
    }
    let mut i: usize = 0;
    while i < a.len()
        invariant
            i <= a@.len(),
            a@.len() == b@.len(),
            forall|j: int| 0 <= j < i ==> a@[j] == b@[j],
        decreases a@.len() - i,
    {
        if a[i] != b[i] {
            return false;
        }
        i = i + 1;
    }
    assert(a@ =~= b@);
    true
}

} // verus!
