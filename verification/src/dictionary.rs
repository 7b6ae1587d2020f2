//! The dictionary source: a word list arrives as one newline-delimited
//! text, loaded once by the caller and split here into the ordered sequence
//! of candidate words that the engine filters.

use vstd::prelude::*;
use crate::letters::push_char;

verus! {

/// The pieces of `s` between its newline characters, in order: one piece
/// more than there are newlines, so an empty text gives one empty piece and
/// a trailing newline gives a trailing empty piece.
pub open spec fn spec_split_lines(s: Seq<char>) -> Seq<Seq<char>>
    decreases s.len(),
{
    if s.len() == 0 {
        seq![Seq::<char>::empty()]
    } else if s[0] == '\n' {
        seq![Seq::<char>::empty()] + spec_split_lines(s.drop_first())
    } else {
        spec_prepend_first(seq![s[0]], spec_split_lines(s.drop_first()))
    }
}

/// `lines` with `prefix` glued onto the front of its first piece.
pub open spec fn spec_prepend_first(prefix: Seq<char>, lines: Seq<Seq<char>>) -> Seq<Seq<char>>
    recommends
        lines.len() > 0,
{
    seq![prefix + lines[0]] + lines.drop_first()
}

/// A split always yields at least one piece.
pub proof fn lemma_split_lines_nonempty(s: Seq<char>)
    ensures
        spec_split_lines(s).len() >= 1,
    decreases s.len(),
{
    if s.len() > 0 {
        lemma_split_lines_nonempty(s.drop_first());
    }
}

/// Splits a newline-delimited word list into its words, in order. The exact
/// pieces are [`spec_split_lines`] of the text: empty lines stay as empty
/// entries, as a caller that trims its text expects none.
pub fn split_lines(text: &str) -> (lines: Vec<String>)
    ensures
        lines.deep_view() == spec_split_lines(text@),
{
    let n = text.unicode_len();
    let mut lines: Vec<String> = Vec::new();
    let mut cur = String::new();
    let mut i: usize = 0;
    proof {
        lemma_split_lines_nonempty(text@);
        assert(text@.skip(0) =~= text@);
        assert(spec_prepend_first(Seq::<char>::empty(), spec_split_lines(text@))
            =~= spec_split_lines(text@));
        assert(lines.deep_view() =~= Seq::<Seq<char>>::empty());
    }
    while i < n
        invariant
            n == text@.len(),
            i <= n,
            spec_split_lines(text@) == lines.deep_view() + spec_prepend_first(
                cur@,
                spec_split_lines(text@.skip(i as int)),
            ),
        decreases n - i,
    {
        let ghost lines_before: Seq<Seq<char>> = lines.deep_view();
        let ghost cur_before: Seq<char> = cur@;
        let ghost suffix: Seq<char> = text@.skip(i as int);
        let ghost rest: Seq<Seq<char>> = spec_split_lines(text@.skip(i + 1));
        proof {
            lemma_split_lines_nonempty(text@.skip(i + 1));
            assert(suffix.len() == n - i);
            assert(suffix[0] == text@[i as int]);
            assert(suffix.drop_first() =~= text@.skip(i + 1));
        }
        let c = text.get_char(i);
        if c == '\n' {
            proof {
                assert(spec_split_lines(suffix) == seq![Seq::<char>::empty()] + rest);
                assert(spec_prepend_first(cur_before, seq![Seq::<char>::empty()] + rest)
                    =~= seq![cur_before] + rest);
                assert(spec_prepend_first(Seq::<char>::empty(), rest) =~= rest);
            }
            lines.push(cur);
            cur = String::new();
            proof {
                assert(lines.deep_view() =~= lines_before.push(cur_before));
                assert(lines_before + (seq![cur_before] + rest) =~= lines.deep_view() + rest);
            }
        } else {
            proof {
                assert(spec_split_lines(suffix) == spec_prepend_first(seq![suffix[0]], rest));
                assert(spec_prepend_first(
                    cur_before,
                    spec_prepend_first(seq![suffix[0]], rest),
                ) =~= spec_prepend_first(cur_before.push(suffix[0]), rest)) by {
                    assert(spec_prepend_first(seq![suffix[0]], rest).drop_first() =~= rest.drop_first());
                    assert(cur_before + (seq![suffix[0]] + rest[0]) =~= cur_before.push(suffix[0])
                        + rest[0]);
                }
            }
            push_char(&mut cur, c);
        }
        i += 1;
    }
    proof {
        assert(text@.skip(n as int) =~= Seq::<char>::empty());
        assert(spec_split_lines(Seq::<char>::empty()) == seq![Seq::<char>::empty()]);
        assert(spec_prepend_first(cur@, seq![Seq::<char>::empty()]) =~= seq![cur@]);
    }
    let ghost lines_before: Seq<Seq<char>> = lines.deep_view();
    let ghost cur_view: Seq<char> = cur@;
    lines.push(cur);
    proof {
        assert(lines.deep_view() =~= lines_before.push(cur_view));
        assert(lines_before + seq![cur_view] =~= lines_before.push(cur_view));
    }
    lines
}

} // verus!
