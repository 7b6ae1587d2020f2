//! Character-level helpers: membership tests for required and excluded
//! letters, and the normalization steps (whitespace stripping, ASCII
//! lowercasing) that callers apply to raw user input before a query.

use vstd::prelude::*;

verus! {

/// True of exactly the characters with the Unicode `White_Space` property,
/// the set that `char::is_whitespace` accepts.
pub open spec fn spec_is_whitespace(c: char) -> bool {
    let u = c as u32;
    ||| u == 0x20
    ||| 0x9 <= u && u <= 0xd
    ||| u == 0x85
    ||| u == 0xa0
    ||| u == 0x1680
    ||| 0x2000 <= u && u <= 0x200a
    ||| u == 0x2028
    ||| u == 0x2029
    ||| u == 0x202f
    ||| u == 0x205f
    ||| u == 0x3000
}

/// Whether `c` counts as whitespace for input normalization.
pub fn is_whitespace_char(c: char) -> (result: bool)
    ensures
        result == spec_is_whitespace(c),
{
    let u: u32 = c as u32;
    u == 0x20 || (0x9 <= u && u <= 0xd) || u == 0x85 || u == 0xa0 || u == 0x1680
        || (0x2000 <= u && u <= 0x200a) || u == 0x2028 || u == 0x2029 || u == 0x202f
        || u == 0x205f || u == 0x3000
}

/// The ASCII-lowercase counterpart of `c`: the letters `A` through `Z` map
/// to `a` through `z`; every other character is unchanged.
pub open spec fn spec_lower_char(c: char) -> char {
    if 0x41 <= c as u32 && c as u32 <= 0x5a {
        ((c as u32 + 0x20) as u32) as char
    } else {
        c
    }
}

/// Lowercases one character, ASCII letters only.
pub fn lower_char(c: char) -> (result: char)
    ensures
        result == spec_lower_char(c),
{
    let u: u32 = c as u32;
    if 0x41 <= u && u <= 0x5a {
        let b: u8 = (u + 0x20) as u8;
        b as char
    } else {
        c
    }
}

/// Whether `word` holds the character `c` at any position.
pub fn contains_char(word: &str, c: char) -> (result: bool)
    ensures
        result == word@.contains(c),
{
    let n = word.unicode_len();
    let mut i: usize = 0;
    while i < n
        invariant
            n == word@.len(),
            i <= n,
            forall|j: int| 0 <= j < i ==> word@[j] != c,
        decreases n - i,
    {
        if word.get_char(i) == c {
            assert(word@[i as int] == c);
            return true;
        }
        i += 1;
    }
    false
}

/// Whether `word` holds every character of `characters`, each at any
/// position. Duplicates in `characters` ask for nothing extra.
pub fn contains_all(word: &str, characters: &str) -> (result: bool)
    ensures
        result == spec_contains_all(word@, characters@),
{
    let n = characters.unicode_len();
    let mut i: usize = 0;
    while i < n
        invariant
            n == characters@.len(),
            i <= n,
            forall|j: int| 0 <= j < i ==> word@.contains(characters@[j]),
        decreases n - i,
    {
        if !contains_char(word, characters.get_char(i)) {
            assert(!word@.contains(characters@[i as int]));
            return false;
        }
        i += 1;
    }
    true
}

/// Whether `word` holds at least one character of `characters`.
pub fn contains_any(word: &str, characters: &str) -> (result: bool)
    ensures
        result == spec_contains_any(word@, characters@),
{
    let n = characters.unicode_len();
    let mut i: usize = 0;
    while i < n
        invariant
            n == characters@.len(),
            i <= n,
            forall|j: int| 0 <= j < i ==> !word@.contains(characters@[j]),
        decreases n - i,
    {
        if contains_char(word, characters.get_char(i)) {
            assert(word@.contains(characters@[i as int]));
            return true;
        }
        i += 1;
    }
    false
}

/// `word` holds every character of `characters`.
pub open spec fn spec_contains_all(word: Seq<char>, characters: Seq<char>) -> bool {
    forall|i: int| 0 <= i < characters.len() ==> word.contains(characters[i])
}

/// `word` holds at least one character of `characters`.
pub open spec fn spec_contains_any(word: Seq<char>, characters: Seq<char>) -> bool {
    exists|i: int| 0 <= i < characters.len() && word.contains(characters[i])
}

/// `s` with its whitespace characters removed, the rest kept in order.
pub open spec fn spec_without_whitespace(s: Seq<char>) -> Seq<char>
    decreases s.len(),
{
    if s.len() == 0 {
        Seq::<char>::empty()
    } else {
        let rest = spec_without_whitespace(s.drop_last());
        if spec_is_whitespace(s.last()) {
            rest
        } else {
            rest.push(s.last())
        }
    }
}

/// Every character of `s` lowercased by [`spec_lower_char`].
pub open spec fn spec_lowered(s: Seq<char>) -> Seq<char>
    decreases s.len(),
{
    if s.len() == 0 {
        Seq::<char>::empty()
    } else {
        spec_lowered(s.drop_last()).push(spec_lower_char(s.last()))
    }
}

/// The full cleanup a caller applies to a raw list of letters: strip
/// whitespace, then lowercase.
pub open spec fn spec_cleaned(s: Seq<char>) -> Seq<char> {
    spec_lowered(spec_without_whitespace(s))
}

/// Relies on `String::push`: it appends the given character to the end of
/// the string.
#[verifier::external_body]
pub(crate) fn push_char(s: &mut String, c: char)
    ensures
        final(s)@ == old(s)@.push(c),
{
    s.push(c);
}

/// Returns `s` with every whitespace character removed and the remaining
/// characters kept in their original order.
pub fn remove_whitespace(s: &str) -> (result: String)
    ensures
        result@ == spec_without_whitespace(s@),
{
    let n = s.unicode_len();
    let mut out = String::new();
    let mut i: usize = 0;
    while i < n
        invariant
            n == s@.len(),
            i <= n,
            out@ == spec_without_whitespace(s@.take(i as int)),
        decreases n - i,
    {
        let c = s.get_char(i);
        if !is_whitespace_char(c) {
            push_char(&mut out, c);
        }
        proof {
            assert(s@.take(i + 1).drop_last() =~= s@.take(i as int));
            assert(s@.take(i + 1).last() == s@[i as int]);
        }
        i += 1;
    }
    proof {
        assert(s@.take(n as int) =~= s@);
    }
    out
}

/// Returns `s` with every ASCII uppercase letter replaced by its lowercase
/// counterpart.
pub fn lowercase(s: &str) -> (result: String)
    ensures
        result@ == spec_lowered(s@),
{
    let n = s.unicode_len();
    let mut out = String::new();
    let mut i: usize = 0;
    while i < n
        invariant
            n == s@.len(),
            i <= n,
            out@ == spec_lowered(s@.take(i as int)),
        decreases n - i,
    {
        let c = s.get_char(i);
        push_char(&mut out, lower_char(c));
        proof {
            assert(s@.take(i + 1).drop_last() =~= s@.take(i as int));
            assert(s@.take(i + 1).last() == s@[i as int]);
        }
        i += 1;
    }
    proof {
        assert(s@.take(n as int) =~= s@);
    }
    out
}

/// The characters of a lowered sequence, position by position.
pub proof fn lemma_lowered_pointwise(s: Seq<char>)
    ensures
        spec_lowered(s).len() == s.len(),
        forall|i: int| 0 <= i < s.len() ==> spec_lowered(s)[i] == spec_lower_char(s[i]),
    decreases s.len(),
{
    if s.len() > 0 {
        lemma_lowered_pointwise(s.drop_last());
    }
}

} // verus!
