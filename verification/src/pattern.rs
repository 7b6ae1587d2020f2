//! Positional patterns: a per-position constraint on a word, where each slot
//! either fixes one lowercase letter or accepts any character, together with
//! the text form a caller writes (a letter per fixed slot, `.` per free one).

use vstd::prelude::*;

verus! {

/// One position of a positional pattern: either any character, or one fixed
/// character the word must carry at that position.
#[derive(Clone, Copy, Debug, PartialEq, Eq)]
pub enum Slot {
    Free,
    Fixed(char),
}

/// Whether the slot admits the character `c`.
pub open spec fn spec_slot_admits(slot: Slot, c: char) -> bool {
    match slot {
        Slot::Free => true,
        Slot::Fixed(f) => c == f,
    }
}

/// A word matches a pattern when its length equals the number of slots and
/// every slot admits the word's character at its position. A word of any
/// other length matches no slot sequence of this length; a caller that hands
/// the engine a pattern of the wrong length simply gets no matches.
pub open spec fn spec_pattern_admits(slots: Seq<Slot>, word: Seq<char>) -> bool {
    &&& word.len() == slots.len()
    &&& forall|i: int| 0 <= i < slots.len() ==> spec_slot_admits(slots[i], word[i])
}

/// Characters allowed in the text form of a pattern: a lowercase ASCII
/// letter fixes its position, `.` leaves it free.
pub open spec fn spec_valid_pattern_char(c: char) -> bool {
    c == '.' || (0x61 <= c as u32 && c as u32 <= 0x7a)
}

/// A whole pattern text is valid when each of its characters is.
pub open spec fn spec_valid_pattern(s: Seq<char>) -> bool {
    forall|i: int| 0 <= i < s.len() ==> spec_valid_pattern_char(s[i])
}

/// The slot a single valid pattern character stands for.
pub open spec fn spec_slot_of_char(c: char) -> Slot {
    if c == '.' {
        Slot::Free
    } else {
        Slot::Fixed(c)
    }
}

/// The slot sequence a pattern text stands for.
pub open spec fn spec_slots_of(s: Seq<char>) -> Seq<Slot>
    decreases s.len(),
{
    if s.len() == 0 {
        Seq::<Slot>::empty()
    } else {
        spec_slots_of(s.drop_last()).push(spec_slot_of_char(s.last()))
    }
}

/// The slots of a pattern text, position by position.
pub proof fn lemma_slots_of_pointwise(s: Seq<char>)
    ensures
        spec_slots_of(s).len() == s.len(),
        forall|i: int| 0 <= i < s.len() ==> spec_slots_of(s)[i] == spec_slot_of_char(s[i]),
    decreases s.len(),
{
    if s.len() > 0 {
        lemma_slots_of_pointwise(s.drop_last());
    }
}

/// A positional pattern: one slot per character position of the words it is
/// matched against.
pub struct Pattern {
    pub slots: Vec<Slot>,
}

impl View for Pattern {
    type V = Seq<Slot>;

    open spec fn view(&self) -> Seq<Slot> {
        self.slots@
    }
}

impl Pattern {
    /// Parses the text form of a pattern. Fails exactly when some character
    /// is neither a lowercase ASCII letter nor `.`; a caller rejects such
    /// input instead of handing it to the engine.
    pub fn parse(text: &str) -> (result: Option<Pattern>)
        ensures
            result is Some <==> spec_valid_pattern(text@),
            result matches Some(p) ==> p@ == spec_slots_of(text@),
    {
        let n = text.unicode_len();
        let mut slots: Vec<Slot> = Vec::new();
        let mut i: usize = 0;
        while i < n
            invariant
                n == text@.len(),
                i <= n,
                forall|j: int| 0 <= j < i ==> spec_valid_pattern_char(text@[j]),
                slots@ == spec_slots_of(text@.take(i as int)),
            decreases n - i,
        {
            let c = text.get_char(i);
            let u: u32 = c as u32;
            if c == '.' {
                slots.push(Slot::Free);
            } else if 0x61 <= u && u <= 0x7a {
                slots.push(Slot::Fixed(c));
            } else {
                assert(!spec_valid_pattern_char(text@[i as int]));
                return None;
            }
            proof {
                assert(text@.take(i + 1).drop_last() =~= text@.take(i as int));
                assert(text@.take(i + 1).last() == text@[i as int]);
            }
            i += 1;
        }
        proof {
            assert(text@.take(n as int) =~= text@);
        }
        Some(Pattern { slots })
    }

    /// A pattern of `len` free slots: it matches exactly the words of length
    /// `len`, whatever their characters.
    pub fn wildcard(len: usize) -> (result: Pattern)
        ensures
            result@.len() == len,
            forall|i: int| 0 <= i < len ==> result@[i] == Slot::Free,
    {
        let mut slots: Vec<Slot> = Vec::new();
        let mut i: usize = 0;
        while i < len
            invariant
                i <= len,
                slots@.len() == i,
                forall|j: int| 0 <= j < i ==> slots@[j] == Slot::Free,
            decreases len - i,
        {
            slots.push(Slot::Free);
            i += 1;
        }
        Pattern { slots }
    }

    /// Whether `word` matches this pattern.
    pub fn admits(&self, word: &str) -> (result: bool)
        ensures
            result == spec_pattern_admits(self@, word@),
    {
        let n = word.unicode_len();
        if n != self.slots.len() {
            return false;
        }
        let mut i: usize = 0;
        while i < n
            invariant
                n == word@.len(),
                n == self@.len(),
                i <= n,
                forall|j: int| 0 <= j < i ==> spec_slot_admits(self@[j], word@[j]),
            decreases n - i,
        {
            let admitted = match self.slots[i] {
                Slot::Free => true,
                Slot::Fixed(f) => word.get_char(i) == f,
            };
            if !admitted {
                assert(!spec_slot_admits(self@[i as int], word@[i as int]));
                return false;
            }
            i += 1;
        }
        true
    }
}

} // verus!
