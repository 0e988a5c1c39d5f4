//! The verbal-memory decision: is the word on screen new, or seen before?

use vstd::prelude::*;
use vstd::hash_set::StringHashSet;

verus! {

/// The button to press for a word.
#[derive(Clone, Copy, Debug, PartialEq, Eq, Structural)]
pub enum WordChoice {
    New,
    Seen,
}

/// The words seen so far and the last word acted on.
pub struct WordMemory {
    seen: StringHashSet,
    last: String,
}

impl WordMemory {
    /// The set of words seen so far.
    pub closed spec fn seen_spec(&self) -> Set<Seq<char>> {
        self.seen@
    }

    /// The last word acted on (empty before the first).
    pub closed spec fn last_spec(&self) -> Seq<char> {
        self.last@
    }

    /// Nothing seen yet.
    pub fn new() -> (r: WordMemory)
        ensures
            r.seen_spec() == Set::<Seq<char>>::empty(),
            r.last_spec() == Seq::<char>::empty(),
    {
        WordMemory { seen: StringHashSet::new(), last: String::new() }
    }

    /// Whether `word` has been seen before.
    pub fn contains(&self, word: &String) -> (r: bool)
        ensures
            r == self.seen_spec().contains(word@),
    {
        self.seen.contains(word.as_str())
    }

    /// Acts on the word now on screen: nothing when it is still the last word
    /// acted on; otherwise `Seen` when it was seen before, or `New` after
    /// remembering it.
    pub fn observe(&mut self, word: String) -> (r: Option<WordChoice>)
        ensures
            old(self).last_spec() == word@ ==> r is None && final(self).seen_spec() == old(self).seen_spec()
                && final(self).last_spec() == old(self).last_spec(),
            old(self).last_spec() != word@ && old(self).seen_spec().contains(word@) ==> r == Some(
                WordChoice::Seen,
            ) && final(self).seen_spec() == old(self).seen_spec() && final(self).last_spec() == word@,
            old(self).last_spec() != word@ && !old(self).seen_spec().contains(word@) ==> r == Some(
                WordChoice::New,
            ) && final(self).seen_spec() == old(self).seen_spec().insert(word@) && final(self).last_spec()
                == word@,
    {
        if self.last == word {
            return None;
        }
        if self.seen.contains(word.as_str()) {
            self.last = word;
            Some(WordChoice::Seen)
        } else {
            self.seen.insert(word.clone());
            self.last = word;
            Some(WordChoice::New)
        }
    }
}

} // verus!
