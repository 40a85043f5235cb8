//! Words and their study entries.
use crate::entry_map::EntryMap;
use crate::identity::{base64_of, encode_id};
use vstd::prelude::*;

verus! {

/// A word as it stands in the text, e.g. a kanji compound.
pub struct Word {
    word: String,
}

impl View for Word {
    type V = Seq<char>;

    closed spec fn view(&self) -> Seq<char> {
        self.word@
    }
}

/// The identifier of a word with text `w`.
pub open spec fn word_id(w: Seq<char>) -> Seq<char> {
    base64_of(w)
}

impl Word {
    /// The word with text `v`.
    pub fn from(v: &str) -> (r: Word)
        ensures
            r@ == v@,
    {
        Word { word: v.to_owned() }
    }

    /// The word's identifier, made from its text alone.
    pub fn id(&self) -> (r: String)
        ensures
            r@ == word_id(self@),
    {
        encode_id(self.word.as_str())
    }

    /// The word's text.
    pub fn word(&self) -> (r: &str)
        ensures
            r@ == self@,
    {
        self.word.as_str()
    }

    /// A copy of the word.
    pub fn duplicate(&self) -> (r: Word)
        ensures
            r@ == self@,
    {
        Word { word: self.word.clone() }
    }
}

/// What a word entry holds, as plain values.
pub ghost struct WordEntryView {
    pub annotation: Option<Seq<char>>,
    pub hiragana: Seq<char>,
    pub level: u8,
    pub sentence_id: Seq<char>,
    pub word: Seq<char>,
}

/// A word under study: its reading, an optional gloss, how many more right
/// answers it needs, and the sentence it was found in.
pub struct WordEntry {
    pub annotation: Option<String>,
    pub hiragana: String,
    pub level: u8,
    pub sentence_id: String,
    pub word: Word,
}

/// The text of an optional string.
pub open spec fn opt_text(o: Option<String>) -> Option<Seq<char>> {
    match o {
        Some(s) => Some(s@),
        None => None,
    }
}

impl View for WordEntry {
    type V = WordEntryView;

    open spec fn view(&self) -> WordEntryView {
        WordEntryView {
            annotation: opt_text(self.annotation),
            hiragana: self.hiragana@,
            level: self.level,
            sentence_id: self.sentence_id@,
            word: self.word@,
        }
    }
}

/// A copy of an optional string.
pub fn copy_opt(o: &Option<String>) -> (r: Option<String>)
    ensures
        opt_text(r) == opt_text(*o),
{
    match o {
        Some(s) => Some(s.clone()),
        None => None,
    }
}

impl WordEntry {
    /// Sets how many more right answers the word needs.
    pub fn set_level(&mut self, level: u8)
        ensures
            final(self)@ == (WordEntryView { level, ..old(self)@ }),
    {
        self.level = level;
    }

    /// A copy of the entry.
    pub fn duplicate(&self) -> (r: WordEntry)
        ensures
            r@ == self@,
    {
        WordEntry {
            annotation: copy_opt(&self.annotation),
            hiragana: self.hiragana.clone(),
            level: self.level,
            sentence_id: self.sentence_id.clone(),
            word: self.word.duplicate(),
        }
    }
}

/// Word entries keyed by word identifier.
pub type WordEntryMap = EntryMap<WordEntry>;

} // verus!
