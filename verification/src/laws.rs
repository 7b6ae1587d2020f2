//! The laws the filter engine obeys, stated over the same spec functions
//! that [`crate::engine::find_matching_words`] is proved against: every
//! result is a word of the dictionary, duplicates never appear when the
//! dictionary has none, an unconstrained query returns the dictionary
//! unchanged, excluded and missing required letters always reject, and the
//! result is an order-preserving subsequence of the dictionary.

use vstd::prelude::*;
use crate::engine::spec_matching_words;
use crate::engine::spec_word_passes;
use crate::letters::spec_contains_all;
use crate::letters::spec_contains_any;
use crate::pattern::Slot;
use crate::pattern::spec_slot_admits;

verus! {

/// `a` can be had from `b` by deleting members, keeping the rest in order.
pub open spec fn spec_is_subsequence<A>(a: Seq<A>, b: Seq<A>) -> bool
    decreases b.len(),
{
    if a.len() == 0 {
        true
    } else if b.len() == 0 {
        false
    } else if a.last() == b.last() {
        spec_is_subsequence(a.drop_last(), b.drop_last())
    } else {
        spec_is_subsequence(a, b.drop_last())
    }
}

/// Dropping the last member of a subsequence keeps it one.
proof fn lemma_subsequence_drop_last<A>(a: Seq<A>, b: Seq<A>)
    requires
        spec_is_subsequence(a, b),
        a.len() > 0,
    ensures
        spec_is_subsequence(a.drop_last(), b),
    decreases b.len(),
{
    if b.len() == 0 {
    } else if a.last() == b.last() {
        if a.drop_last().len() > 0 && a.drop_last().last() == b.last() {
            lemma_subsequence_drop_last(a.drop_last(), b.drop_last());
        }
    } else {
        lemma_subsequence_drop_last(a, b.drop_last());
        if a.drop_last().len() > 0 && a.drop_last().last() == b.last() {
            lemma_subsequence_drop_last(a.drop_last(), b.drop_last());
        }
    }
}

/// Appending to the longer sequence keeps a subsequence.
proof fn lemma_subsequence_push<A>(a: Seq<A>, b: Seq<A>, x: A)
    requires
        spec_is_subsequence(a, b),
    ensures
        spec_is_subsequence(a, b.push(x)),
{
    if a.len() > 0 {
        assert(b.push(x).drop_last() =~= b);
        if a.last() == x {
            lemma_subsequence_drop_last(a, b);
        }
    }
}

/// Order preservation: the engine's result is a subsequence of the
/// dictionary, in the dictionary's own order.
pub proof fn lemma_matching_words_subsequence(
    words: Seq<Seq<char>>,
    slots: Seq<Slot>,
    excluded: Seq<char>,
    required: Seq<char>,
)
    ensures
        spec_is_subsequence(spec_matching_words(words, slots, excluded, required), words),
    decreases words.len(),
{
    if words.len() > 0 {
        lemma_matching_words_subsequence(words.drop_last(), slots, excluded, required);
        let rest = spec_matching_words(words.drop_last(), slots, excluded, required);
        if spec_word_passes(words.last(), slots, excluded, required) {
            assert(rest.push(words.last()).drop_last() =~= rest);
        } else {
            lemma_subsequence_push(rest, words.drop_last(), words.last());
            assert(words.drop_last().push(words.last()) =~= words);
        }
    }
}

/// The engine never returns a word absent from the dictionary.
pub proof fn lemma_matching_words_membership(
    words: Seq<Seq<char>>,
    slots: Seq<Slot>,
    excluded: Seq<char>,
    required: Seq<char>,
)
    ensures
        forall|j: int|
            0 <= j < spec_matching_words(words, slots, excluded, required).len()
                ==> words.contains(#[trigger] spec_matching_words(words, slots, excluded, required)[j]),
    decreases words.len(),
{
    if words.len() > 0 {
        lemma_matching_words_membership(words.drop_last(), slots, excluded, required);
        let rest = spec_matching_words(words.drop_last(), slots, excluded, required);
        let out = spec_matching_words(words, slots, excluded, required);
        assert forall|j: int| 0 <= j < rest.len() implies words.contains(rest[j]) by {
            assert(words.drop_last().contains(rest[j]));
            let k = choose|k: int|
                0 <= k < words.drop_last().len() && words.drop_last()[k] == rest[j];
            assert(words[k] == rest[j]);
        }
        assert forall|j: int| 0 <= j < out.len() implies words.contains(out[j]) by {
            if spec_word_passes(words.last(), slots, excluded, required) && j == out.len() - 1 {
                assert(out[j] == words.last());
                assert(words[words.len() - 1] == words.last());
            } else {
                assert(out[j] == rest[j]);
            }
        }
    }
}

/// The engine never returns a word twice when the dictionary itself holds
/// no word twice.
pub proof fn lemma_matching_words_no_duplicates(
    words: Seq<Seq<char>>,
    slots: Seq<Slot>,
    excluded: Seq<char>,
    required: Seq<char>,
)
    requires
        words.no_duplicates(),
    ensures
        spec_matching_words(words, slots, excluded, required).no_duplicates(),
    decreases words.len(),
{
    if words.len() > 0 {
        assert forall|i: int, j: int|
            0 <= i < words.drop_last().len() && 0 <= j < words.drop_last().len() && i != j
            implies words.drop_last()[i] != words.drop_last()[j] by {
            assert(words.drop_last()[i] == words[i]);
            assert(words.drop_last()[j] == words[j]);
        }
        lemma_matching_words_no_duplicates(words.drop_last(), slots, excluded, required);
        let rest = spec_matching_words(words.drop_last(), slots, excluded, required);
        if spec_word_passes(words.last(), slots, excluded, required) {
            lemma_matching_words_membership(words.drop_last(), slots, excluded, required);
            if rest.contains(words.last()) {
                let j = choose|j: int| 0 <= j < rest.len() && rest[j] == words.last();
                assert(words.drop_last().contains(rest[j]));
                let k = choose|k: int|
                    0 <= k < words.drop_last().len() && words.drop_last()[k] == rest[j];
                assert(words[k] == words[words.len() - 1]);
            }
            let out = rest.push(words.last());
            assert forall|i: int, j: int|
                0 <= i < out.len() && 0 <= j < out.len() && i != j implies out[i] != out[j] by {
                if i < rest.len() && j < rest.len() {
                    assert(out[i] == rest[i]);
                    assert(out[j] == rest[j]);
                } else if i < rest.len() {
                    assert(out[i] == rest[i]);
                    assert(rest.contains(rest[i]));
                } else {
                    assert(out[j] == rest[j]);
                    assert(rest.contains(rest[j]));
                }
            }
        }
    }
}

/// A query with no constraints at all — every slot free, no excluded and no
/// required letters — returns the dictionary unchanged, provided every word
/// has the pattern's length (the all-free pattern of the dictionary's word
/// length). A word of another length fails the positional check, so the
/// proviso cannot be dropped.
pub proof fn lemma_matching_words_no_constraints(
    words: Seq<Seq<char>>,
    slots: Seq<Slot>,
    excluded: Seq<char>,
    required: Seq<char>,
)
    requires
        forall|i: int| 0 <= i < slots.len() ==> slots[i] is Free,
        excluded.len() == 0,
        required.len() == 0,
        forall|i: int| 0 <= i < words.len() ==> (#[trigger] words[i]).len() == slots.len(),
    ensures
        spec_matching_words(words, slots, excluded, required) == words,
    decreases words.len(),
{
    if words.len() == 0 {
        assert(spec_matching_words(words, slots, excluded, required) =~= words);
    } else {
        assert forall|i: int| 0 <= i < words.drop_last().len()
            implies (#[trigger] words.drop_last()[i]).len() == slots.len() by {
            assert(words.drop_last()[i] == words[i]);
        }
        lemma_matching_words_no_constraints(words.drop_last(), slots, excluded, required);
        assert(spec_word_passes(words.last(), slots, excluded, required)) by {
            assert(words[words.len() - 1] == words.last());
            assert(words.last().len() == slots.len());
            assert(forall|i: int|
                0 <= i < slots.len() ==> spec_slot_admits(#[trigger] slots[i], words.last()[i]));
        }
        assert(words.drop_last().push(words.last()) =~= words);
    }
}

/// The other direction of the rejection laws: a dictionary word that
/// passes all three checks is in the result.
pub proof fn lemma_passing_word_kept(
    words: Seq<Seq<char>>,
    slots: Seq<Slot>,
    excluded: Seq<char>,
    required: Seq<char>,
    word: Seq<char>,
)
    requires
        words.contains(word),
        spec_word_passes(word, slots, excluded, required),
    ensures
        spec_matching_words(words, slots, excluded, required).contains(word),
    decreases words.len(),
{
    let k = choose|k: int| 0 <= k < words.len() && words[k] == word;
    let rest = spec_matching_words(words.drop_last(), slots, excluded, required);
    let out = spec_matching_words(words, slots, excluded, required);
    if spec_word_passes(words.last(), slots, excluded, required) && words.last() == word {
        assert(out[out.len() - 1] == word);
    } else {
        assert(words.drop_last()[k] == word);
        lemma_passing_word_kept(words.drop_last(), slots, excluded, required, word);
        let j = choose|j: int| 0 <= j < rest.len() && rest[j] == word;
        assert(out[j] == word);
    }
}

/// A word in which some excluded character occurs is absent from the
/// result, whatever the other constraints say.
pub proof fn lemma_excluded_letter_rejects(
    words: Seq<Seq<char>>,
    slots: Seq<Slot>,
    excluded: Seq<char>,
    required: Seq<char>,
    word: Seq<char>,
    c: char,
)
    requires
        excluded.contains(c),
        word.contains(c),
    ensures
        !spec_matching_words(words, slots, excluded, required).contains(word),
    decreases words.len(),
{
    assert(spec_contains_any(word, excluded)) by {
        let k = choose|k: int| 0 <= k < excluded.len() && excluded[k] == c;
        assert(word.contains(excluded[k]));
    }
    if words.len() > 0 {
        lemma_excluded_letter_rejects(words.drop_last(), slots, excluded, required, word, c);
        let rest = spec_matching_words(words.drop_last(), slots, excluded, required);
        let out = spec_matching_words(words, slots, excluded, required);
        if out.contains(word) {
            let j = choose|j: int| 0 <= j < out.len() && out[j] == word;
            if spec_word_passes(words.last(), slots, excluded, required) && j == out.len() - 1 {
                assert(word == words.last());
            } else {
                assert(out[j] == rest[j]);
                assert(rest.contains(word));
            }
        }
    }
}

/// A word from which some required character is absent is itself absent
/// from the result, whatever the other constraints say.
pub proof fn lemma_missing_required_letter_rejects(
    words: Seq<Seq<char>>,
    slots: Seq<Slot>,
    excluded: Seq<char>,
    required: Seq<char>,
    word: Seq<char>,
    c: char,
)
    requires
        required.contains(c),
        !word.contains(c),
    ensures
        !spec_matching_words(words, slots, excluded, required).contains(word),
    decreases words.len(),
{
    assert(!spec_contains_all(word, required)) by {
        let k = choose|k: int| 0 <= k < required.len() && required[k] == c;
        assert(!word.contains(required[k]));
    }
    if words.len() > 0 {
        lemma_missing_required_letter_rejects(words.drop_last(), slots, excluded, required, word, c);
        let rest = spec_matching_words(words.drop_last(), slots, excluded, required);
        let out = spec_matching_words(words, slots, excluded, required);
        if out.contains(word) {
            let j = choose|j: int| 0 <= j < out.len() && out[j] == word;
            if spec_word_passes(words.last(), slots, excluded, required) && j == out.len() - 1 {
                assert(word == words.last());
            } else {
                assert(out[j] == rest[j]);
                assert(rest.contains(word));
            }
        }
    }
}

} // verus!
