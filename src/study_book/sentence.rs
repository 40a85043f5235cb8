//! Sentences and their study entries.
use crate::entry_map::EntryMap;
use crate::identity::{base64_of, encode_id, strip_markers, without_markers};
use vstd::prelude::*;

verus! {

/// A cleaned sentence: tags replaced by their quoted word, delimiter at the end.
pub struct Sentence {
    sentence: String,
}

impl View for Sentence {
    type V = Seq<char>;

    closed spec fn view(&self) -> Seq<char> {
        self.sentence@
    }
}

/// The identifier of a sentence with text `s`: its quoting marks do not count.
pub open spec fn sentence_id(s: Seq<char>) -> Seq<char> {
    base64_of(without_markers(s))
}

impl Sentence {
    /// The sentence with text `v`.
    pub fn from(v: &str) -> (r: Sentence)
        ensures
            r@ == v@,
    {
        Sentence { sentence: v.to_owned() }
    }

    /// The sentence's identifier, made from its text without quoting marks.
    pub fn id(&self) -> (r: String)
        ensures
            r@ == sentence_id(self@),
    {
        let bare = strip_markers(self.sentence.as_str());
        encode_id(bare.as_str())
    }

    /// The sentence's text.
    pub fn sentence(&self) -> (r: &str)
        ensures
            r@ == self@,
    {
        self.sentence.as_str()
    }
}

/// What a sentence entry holds, as plain values.
pub ghost struct SentenceEntryView {
    pub backlog_volumn: u8,
    pub sentence: Seq<char>,
    pub wordentry_ids: Seq<Seq<char>>,
}

/// A sentence under study: how many of its words are still in the backlog,
/// and the identifiers of its words in order of appearance.
pub struct SentenceEntry {
    pub backlog_volumn: u8,
    pub sentence: Sentence,
    pub wordentry_ids: Vec<String>,
}

impl View for SentenceEntry {
    type V = SentenceEntryView;

    open spec fn view(&self) -> SentenceEntryView {
        SentenceEntryView {
            backlog_volumn: self.backlog_volumn,
            sentence: self.sentence@,
            wordentry_ids: self.wordentry_ids@.map_values(|s: String| s@),
        }
    }
}

/// A copy of a list of strings.
pub fn copy_strings(v: &Vec<String>) -> (r: Vec<String>)
    ensures
        r@.map_values(|s: String| s@) == v@.map_values(|s: String| s@),
{
    let mut r: Vec<String> = Vec::new();
    let mut i: usize = 0;
    while i < v.len()
        invariant
            i <= v@.len(),
            r@.map_values(|s: String| s@) == v@.take(i as int).map_values(|s: String| s@),
        decreases v.len() - i,
    {
        let ghost prev = r@.map_values(|s: String| s@);
        r.push(v[i].clone());
        proof {
            assert(v@.take(i + 1) =~= v@.take(i as int).push(v@[i as int]));
            assert(r@.map_values(|s: String| s@) =~= prev.push(v@[i as int]@));
            assert(v@.take(i + 1).map_values(|s: String| s@) =~= v@.take(i as int).map_values(
                |s: String| s@,
            ).push(v@[i as int]@));
        }
        i = i + 1;
    }
    assert(v@.take(i as int) =~= v@);
    r
}

impl Sentence {
    /// A copy of the sentence.
    pub fn duplicate(&self) -> (r: Sentence)
        ensures
            r@ == self@,
    {
        Sentence { sentence: self.sentence.clone() }
    }
}

impl SentenceEntry {
    /// A copy of the entry.
    pub fn duplicate(&self) -> (r: SentenceEntry)
        ensures
            r@ == self@,
    {
        SentenceEntry {
            backlog_volumn: self.backlog_volumn,
            sentence: self.sentence.duplicate(),
            wordentry_ids: copy_strings(&self.wordentry_ids),
        }
    }
}

/// Sentence entries keyed by sentence identifier.
pub type SentenceEntryMap = EntryMap<SentenceEntry>;

} // verus!
