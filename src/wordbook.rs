//! A book built from one article, with both backlogs always present.
use crate::study_book::sentence::SentenceEntryMap;
use crate::study_book::word::WordEntryMap;
use crate::study_book::{
    entries_of, entries_of_article, raw_sentences, sentences_of, well_formed_article, words_of,
    StudyObjectCollection,
};
use vstd::prelude::*;

verus! {

/// The words and sentences of an article.
pub struct WordBook {
    pub words: StudyObjectCollection<WordEntryMap>,
    pub sentences: StudyObjectCollection<SentenceEntryMap>,
}

impl WordBook {
    /// A book with every tagged word of the article in the word backlog at
    /// level 1 and every sentence in the sentence backlog; both backlogs are
    /// present even when empty, and nothing is achieved.
    pub fn from_article(article: &str) -> (r: WordBook)
        requires
            well_formed_article(article@),
        ensures
            r.words.backlog is Some,
            r.sentences.backlog is Some,
            entries_of(r.words.backlog) == words_of(raw_sentences(article@)),
            entries_of(r.sentences.backlog) == sentences_of(raw_sentences(article@)),
            r.words.achived is None,
            r.sentences.achived is None,
    {
        let (words, sentences) = entries_of_article(article);
        WordBook {
            words: StudyObjectCollection { achived: None, backlog: Some(words) },
            sentences: StudyObjectCollection { achived: None, backlog: Some(sentences) },
        }
    }
}

} // verus!
