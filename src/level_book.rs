//! Word entries grouped into decks by level.
use crate::entry_map::{texts, EntryMap};
use crate::identity::encode_id;
use crate::parser::{split_nonempty, split_text, whole_tags, whole_tags_of};
use crate::study_book::lists_each_once;
use crate::study_book::word::{copy_opt, opt_text, word_id, WordEntryView};
use std::collections::HashMap;
use vstd::prelude::*;

verus! {

broadcast use vstd::std_specs::hash::group_hash_axioms;

/// A word under study, with its reading, optional gloss, level and sentence.
pub struct Entry {
    annotation: Option<String>,
    hiragana: String,
    level: u8,
    sentence_id: String,
    word: String,
}

impl View for Entry {
    type V = WordEntryView;

    closed spec fn view(&self) -> WordEntryView {
        WordEntryView {
            annotation: opt_text(self.annotation),
            hiragana: self.hiragana@,
            level: self.level,
            sentence_id: self.sentence_id@,
            word: self.word@,
        }
    }
}

impl Entry {
    /// An entry with the given fields.
    pub fn new(
        word: String,
        hiragana: String,
        level: u8,
        sentence_id: String,
        annotation: Option<String>,
    ) -> (r: Entry)
        ensures
            r@ == (WordEntryView {
                annotation: opt_text(annotation),
                hiragana: hiragana@,
                level,
                sentence_id: sentence_id@,
                word: word@,
            }),
    {
        Entry { annotation, hiragana, level, sentence_id, word }
    }

    /// The gloss, if any.
    pub fn annotation(&self) -> (r: &Option<String>)
        ensures
            opt_text(*r) == self@.annotation,
    {
        &self.annotation
    }

    /// The reading.
    pub fn hiragana(&self) -> (r: &str)
        ensures
            r@ == self@.hiragana,
    {
        self.hiragana.as_str()
    }

    /// How many more right answers the word needs.
    pub fn level(&self) -> (r: &u8)
        ensures
            *r == self@.level,
    {
        &self.level
    }

    /// The word.
    pub fn word(&self) -> (r: &str)
        ensures
            r@ == self@.word,
    {
        self.word.as_str()
    }

    /// A copy of the entry.
    pub fn duplicate(&self) -> (r: Entry)
        ensures
            r@ == self@,
    {
        Entry {
            annotation: copy_opt(&self.annotation),
            hiragana: self.hiragana.clone(),
            level: self.level,
            sentence_id: self.sentence_id.clone(),
            word: self.word.clone(),
        }
    }
}

/// Copies of the entries that share a level.
pub type Deck = Vec<Entry>;

/// Decks keyed by their level.
pub type Decks = HashMap<u8, Deck>;

/// The entries of `vals` at level `lv`, in order.
pub open spec fn at_level(vals: Seq<WordEntryView>, lv: u8) -> Seq<WordEntryView> {
    vals.filter(|e: WordEntryView| e.level == lv)
}

/// What the entries of a deck hold.
pub open spec fn deck_view(d: Seq<Entry>) -> Seq<WordEntryView> {
    d.map_values(|e: Entry| e@)
}

/// `d` has one deck for each level found in `vals`, holding the entries of
/// `vals` at that level in their order, and no other deck.
pub open spec fn decks_by_level(d: Map<u8, Deck>, vals: Seq<WordEntryView>) -> bool {
    &&& forall|lv: u8| d.contains_key(lv) <==> #[trigger] at_level(vals, lv).len() > 0
    &&& forall|lv: u8| d.contains_key(lv) ==> deck_view(#[trigger] d[lv]@) == at_level(vals, lv)
}

/// A set of entries and the decks made from them.
pub struct Book {
    entries: EntryMap<Entry>,
}

/// The decks of a book, grouped by level; absent for a book without entries.
pub struct Backlog {
    decks: Option<Decks>,
}

impl Backlog {
    /// The decks held.
    pub closed spec fn held(&self) -> Option<Decks> {
        self.decks
    }

    /// The decks, grouped by level.
    pub fn decks(&self) -> (r: &Option<Decks>)
        ensures
            *r == self.held(),
    {
        &self.decks
    }
}

impl Book {
    /// The entries keyed by word identifier.
    pub closed spec fn entry_map(&self) -> Map<Seq<char>, WordEntryView> {
        self.entries@
    }

    /// The entries in the book's fixed order.
    pub closed spec fn entry_order(&self) -> Seq<WordEntryView> {
        self.entries.value_seq()
    }

    /// A book of the given entries. Its order lists each entry once.
    pub fn from_entries(entries: EntryMap<Entry>) -> (r: Book)
        ensures
            r.entry_map() == entries@,
            exists|ks: Seq<Seq<char>>|
                lists_each_once(ks, entries@.dom()) && r.entry_order() == ks.map_values(
                    |k: Seq<char>| entries@[k],
                ),
    {
        // The key list's contract says that it names each entry once.
        let _ = entries.keys();
        let r = Book { entries };
        assert(lists_each_once(r.entries.key_seq(), r.entries@.dom()));
        r
    }

    /// The entry of `word`, found by the word's identifier.
    pub fn entry(&self, word: &str) -> (r: Option<&Entry>)
        ensures
            match r {
                Some(e) => self.entry_map().contains_key(word_id(word@)) && e@ == self.entry_map()[word_id(
                    word@,
                )],
                None => !self.entry_map().contains_key(word_id(word@)),
            },
    {
        let id = encode_id(word);
        self.entries.get(id.as_str())
    }

    /// The decks of the book's entries, grouped by level.
    pub fn gen_backlog(&self) -> (r: Backlog)
        ensures
            r.held() is None <==> self.entry_map().len() == 0,
            match r.held() {
                Some(d) => decks_by_level(d@, self.entry_order()),
                None => true,
            },
    {
        Backlog { decks: self.gen_decks() }
    }

    /// The entries at level `lv`, in the book's order; none when there is no
    /// such entry.
    pub fn gen_deck(&self, lv: u8) -> (r: Option<Deck>)
        ensures
            match r {
                Some(d) => deck_view(d@) == at_level(self.entry_order(), lv) && d@.len() > 0,
                None => at_level(self.entry_order(), lv).len() == 0,
            },
    {
        Book::gen_deck_from_entries(&self.entries, lv)
    }

    /// One deck for each level found among the entries; none for a book
    /// without entries.
    pub fn gen_decks(&self) -> (r: Option<Decks>)
        ensures
            r is None <==> self.entry_map().len() == 0,
            match r {
                Some(d) => decks_by_level(d@, self.entry_order()),
                None => true,
            },
    {
        Book::gen_decks_from_entries(&self.entries)
    }

    /// The entries at level `lv`, in the collection's order; none when there
    /// is no such entry.
    pub fn gen_deck_from_entries(entries: &EntryMap<Entry>, lv: u8) -> (r: Option<Deck>)
        ensures
            match r {
                Some(d) => deck_view(d@) == at_level(entries.value_seq(), lv) && d@.len() > 0,
                None => at_level(entries.value_seq(), lv).len() == 0,
            },
    {
        let keys = entries.keys();
        let ghost vals = entries.value_seq();
        let mut d: Deck = Vec::new();
        let mut i: usize = 0;
        assert(vals.take(0) =~= Seq::<WordEntryView>::empty());
        assert(deck_view(d@) =~= at_level(vals.take(0), lv));
        while i < keys.len()
            invariant
                i <= keys@.len(),
                texts(keys@) == entries.key_seq(),
                vals == entries.value_seq(),
                vals.len() == keys@.len(),
                forall|m: int|
                    0 <= m < entries.key_seq().len() ==> entries@.contains_key(
                        #[trigger] entries.key_seq()[m],
                    ),
                deck_view(d@) == at_level(vals.take(i as int), lv),
            decreases keys.len() - i,
        {
            let ghost before = d@;
            let key = &keys[i];
            assert(key@ == entries.key_seq()[i as int]);
            proof {
                assert(vals.take(i + 1) =~= vals.take(i as int).push(vals[i as int]));
                vals.take(i as int).lemma_filter_push(vals[i as int], |e: WordEntryView| e.level == lv);
            }
            match entries.get(key.as_str()) {
                Some(e) => {
                    if e.level == lv {
                        d.push(e.duplicate());
                        assert(deck_view(d@) =~= deck_view(before).push(vals[i as int]));
                    }
                },
                None => {},
            }
            i = i + 1;
        }
        assert(vals.take(i as int) =~= vals);
        if d.len() == 0 {
            None
        } else {
            Some(d)
        }
    }

    /// One deck for each level found in the collection; none for an empty
    /// collection.
    pub fn gen_decks_from_entries(entries: &EntryMap<Entry>) -> (r: Option<Decks>)
        ensures
            r is None <==> entries@.len() == 0,
            match r {
                Some(d) => decks_by_level(d@, entries.value_seq()),
                None => true,
            },
    {
        if entries.is_empty() {
            return None;
        }
        let ghost vals = entries.value_seq();
        let mut decks: Decks = HashMap::new();
        let mut lv: u16 = 0;
        while lv < 256
            invariant
                lv <= 256,
                vals == entries.value_seq(),
                forall|l: u8| decks@.contains_key(l) <==> (l < lv && #[trigger] at_level(vals, l).len() > 0),
                forall|l: u8| decks@.contains_key(l) ==> deck_view(#[trigger] decks@[l]@) == at_level(vals, l),
            decreases 256 - lv,
        {
            let level = lv as u8;
            match Book::gen_deck_from_entries(entries, level) {
                Some(d) => {
                    decks.insert(level, d);
                },
                None => {},
            }
            lv = lv + 1;
        }
        Some(decks)
    }

    /// The non-empty pieces of the article between delimiters (`。` when none
    /// is given), in order.
    pub fn gen_sentences(article: &str, delimiter: Option<&str>) -> (r: Vec<String>)
        ensures
            texts(r@) == split_nonempty(
                article@,
                match delimiter {
                    Some(d) => d@,
                    None => "。"@,
                },
            ),
    {
        let d = match delimiter {
            Some(d) => d,
            None => "。",
        };
        split_text(article, d)
    }

    /// The whole tags of the text, brackets included, in order of
    /// appearance.
    pub fn gen_entries(text: &str, _delimiter: Option<&str>) -> (r: Vec<String>)
        ensures
            texts(r@) == whole_tags(text@),
    {
        whole_tags_of(text)
    }
}

} // verus!
