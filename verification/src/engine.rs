//! The filter engine: a pure function that walks the dictionary once and
//! keeps, in their original order, exactly the words that pass all three
//! constraints — no excluded letter anywhere, every required letter
//! somewhere, and a character-by-character match of the positional pattern.

use vstd::prelude::*;
use crate::letters::contains_all;
use crate::letters::contains_any;
use crate::letters::lowercase;
use crate::letters::remove_whitespace;
use crate::letters::spec_cleaned;
use crate::letters::spec_contains_all;
use crate::letters::spec_contains_any;
use crate::letters::spec_lowered;
use crate::pattern::Pattern;
use crate::pattern::Slot;
use crate::pattern::spec_pattern_admits;
use crate::pattern::spec_slots_of;
use crate::pattern::spec_valid_pattern;

verus! {

/// Whether one word passes all three constraints of a query.
pub open spec fn spec_word_passes(
    word: Seq<char>,
    slots: Seq<Slot>,
    excluded: Seq<char>,
    required: Seq<char>,
) -> bool {
    &&& !spec_contains_any(word, excluded)
    &&& spec_contains_all(word, required)
    &&& spec_pattern_admits(slots, word)
}

/// The ordered subsequence of `words` that pass all three constraints.
pub open spec fn spec_matching_words(
    words: Seq<Seq<char>>,
    slots: Seq<Slot>,
    excluded: Seq<char>,
    required: Seq<char>,
) -> Seq<Seq<char>>
    decreases words.len(),
{
    if words.len() == 0 {
        Seq::<Seq<char>>::empty()
    } else {
        let rest = spec_matching_words(words.drop_last(), slots, excluded, required);
        if spec_word_passes(words.last(), slots, excluded, required) {
            rest.push(words.last())
        } else {
            rest
        }
    }
}

/// Filters the dictionary: the result holds, in dictionary order, exactly
/// the words with no character of `excluded`, every character of
/// `required`, and a position-by-position match of `pattern`. The inputs
/// are taken as already normalized; [`run_query`] does that normalization.
pub fn find_matching_words(
    words: &Vec<String>,
    pattern: &Pattern,
    excluded: &str,
    required: &str,
) -> (matching: Vec<String>)
    ensures
        matching.deep_view() == spec_matching_words(
            words.deep_view(),
            pattern@,
            excluded@,
            required@,
        ),
{
    let ghost all: Seq<Seq<char>> = words.deep_view();
    let mut matching: Vec<String> = Vec::new();
    let mut i: usize = 0;
    while i < words.len()
        invariant
            all == words.deep_view(),
            i <= words@.len(),
            matching.deep_view() == spec_matching_words(
                all.take(i as int),
                pattern@,
                excluded@,
                required@,
            ),
        decreases words.len() - i,
    {
        let ghost before: Seq<Seq<char>> = matching.deep_view();
        let word: &String = &words[i];
        assert(word@ == all[i as int]);
        let keep = !contains_any(word.as_str(), excluded) && contains_all(word.as_str(), required)
            && pattern.admits(word.as_str());
        if keep {
            matching.push(word.clone());
            proof {
                assert(matching.deep_view() =~= before.push(all[i as int]));
            }
        }
        proof {
            assert(all.take(i + 1).drop_last() =~= all.take(i as int));
            assert(all.take(i + 1).last() == all[i as int]);
        }
        i += 1;
    }
    proof {
        assert(all.take(words@.len() as int) =~= all);
    }
    matching
}

/// The full path from raw user input to the matching words: the pattern
/// text is lowercased and parsed, the letter lists are stripped of
/// whitespace and lowercased, and the engine runs on the result. Returns
/// `None` exactly when the lowercased pattern text is not a valid pattern;
/// no other input is rejected.
pub fn run_query(
    words: &Vec<String>,
    raw_pattern: &str,
    raw_excluded: &str,
    raw_required: &str,
) -> (result: Option<Vec<String>>)
    ensures
        result is Some <==> spec_valid_pattern(spec_lowered(raw_pattern@)),
        result matches Some(found) ==> found.deep_view() == spec_matching_words(
            words.deep_view(),
            spec_slots_of(spec_lowered(raw_pattern@)),
            spec_cleaned(raw_excluded@),
            spec_cleaned(raw_required@),
        ),
{
    let lowered_pattern = lowercase(raw_pattern);
    match Pattern::parse(lowered_pattern.as_str()) {
        None => None,
        Some(pattern) => {
            let stripped_excluded = remove_whitespace(raw_excluded);
            let excluded = lowercase(stripped_excluded.as_str());
            let stripped_required = remove_whitespace(raw_required);
            let required = lowercase(stripped_required.as_str());
            Some(find_matching_words(words, &pattern, excluded.as_str(), required.as_str()))
        },
    }
}

} // verus!
