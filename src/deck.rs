//! A pile of word entries studied together.
use crate::study_book::word::WordEntry;
use vstd::prelude::*;

verus! {

/// Copies of word entries that share a level.
pub struct Deck {
    pub level: u8,
    pub word_entries: Vec<WordEntry>,
}

impl Deck {
    /// A deck at the entry's level holding a copy of the entry.
    pub fn from_word_entry(word_entry: &WordEntry) -> (r: Deck)
        ensures
            r.level == word_entry.level,
            r.word_entries@.len() == 1,
            r.word_entries@[0]@ == word_entry@,
    {
        let lv = word_entry.level;
        let mut word_entries: Vec<WordEntry> = Vec::new();
        word_entries.push(word_entry.duplicate());
        Deck { level: lv, word_entries }
    }

    /// Puts one more entry on the deck.
    pub fn add_word(&mut self, word_entry: WordEntry)
        ensures
            final(self).level == old(self).level,
            final(self).word_entries@ == old(self).word_entries@.push(word_entry),
    {
        self.word_entries.push(word_entry);
    }
}

} // verus!
