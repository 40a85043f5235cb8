//! The study book: words and sentences, each either in the backlog or achieved.
use crate::entry_map::{texts, EntryMap};
use crate::identity::{lemma_without_markers_idempotent, without_markers};
use crate::parser::{
    cleaned, fields_of, has_stray_open, split_nonempty, stray_open_from, tag_bodies, Parser,
};
use rand::seq::SliceRandom;
use vstd::prelude::*;

pub mod sentence;
pub mod status;
pub mod word;

use status::Status;
use sentence::{sentence_id, Sentence, SentenceEntry, SentenceEntryMap, SentenceEntryView};
use word::{word_id, Word, WordEntry, WordEntryMap, WordEntryView};

verus! {

/// A kind of study object split in two: what is still studied (the backlog)
/// and what has been learned. A side that was never filled is `None`.
pub struct StudyObjectCollection<T> {
    pub achived: Option<T>,
    pub backlog: Option<T>,
}

/// Words and the sentences they were found in.
pub struct StudyBook {
    pub words: StudyObjectCollection<WordEntryMap>,
    pub sentences: StudyObjectCollection<SentenceEntryMap>,
}

/// The entries of an optional collection; none when it is absent.
pub open spec fn entries_of<V: View>(m: Option<EntryMap<V>>) -> Map<Seq<char>, V::V> {
    match m {
        Some(x) => x@,
        None => Map::empty(),
    }
}

/// The field delimiter of the markup.
pub open spec fn field_delimiter() -> char {
    '・'
}

/// The sentence delimiter of the markup.
pub open spec fn sentence_delimiter() -> char {
    '。'
}

/// The sentences of an article, markup still in them.
pub open spec fn raw_sentences(a: Seq<char>) -> Seq<Seq<char>> {
    split_nonempty(a, seq![sentence_delimiter()])
}

/// The identifier of the sentence that the raw sentence `s` becomes.
pub open spec fn sentence_key(s: Seq<char>) -> Seq<char> {
    sentence_id(cleaned(s, field_delimiter(), sentence_delimiter()))
}

/// The fields of a tag body.
pub open spec fn tag_fields(b: Seq<char>) -> Seq<Seq<char>> {
    fields_of(b, field_delimiter())
}

/// The new word entry that a tag body makes, in the sentence `sid`.
pub open spec fn entry_of_tag(b: Seq<char>, sid: Seq<char>) -> WordEntryView {
    let f = tag_fields(b);
    WordEntryView {
        annotation: if f.len() > 2 { Some(f[2]) } else { None },
        hiragana: f[1],
        level: 1,
        sentence_id: sid,
        word: f[0],
    }
}

/// The identifiers of the words tagged in the raw sentence `s`, in order.
pub open spec fn tagged_ids(s: Seq<char>) -> Seq<Seq<char>> {
    tag_bodies(s).map_values(|b: Seq<char>| word_id(tag_fields(b)[0]))
}

/// The new sentence entry that the raw sentence `s` makes.
pub open spec fn sentence_entry_of(s: Seq<char>) -> SentenceEntryView {
    SentenceEntryView {
        backlog_volumn: tag_bodies(s).len() as u8,
        sentence: cleaned(s, field_delimiter(), sentence_delimiter()),
        wordentry_ids: tagged_ids(s),
    }
}

/// `m` with the words of the tag bodies `bs` put in, in order.
pub open spec fn add_tags(
    m: Map<Seq<char>, WordEntryView>,
    bs: Seq<Seq<char>>,
    sid: Seq<char>,
) -> Map<Seq<char>, WordEntryView>
    decreases bs.len(),
{
    if bs.len() == 0 {
        m
    } else {
        add_tags(m, bs.drop_last(), sid).insert(
            word_id(tag_fields(bs.last())[0]),
            entry_of_tag(bs.last(), sid),
        )
    }
}

/// The word entries that the raw sentences `ss` make, a later one replacing
/// an earlier one with the same identifier.
pub open spec fn words_of(ss: Seq<Seq<char>>) -> Map<Seq<char>, WordEntryView>
    decreases ss.len(),
{
    if ss.len() == 0 {
        Map::empty()
    } else {
        add_tags(words_of(ss.drop_last()), tag_bodies(ss.last()), sentence_key(ss.last()))
    }
}

/// The sentence entries that the raw sentences `ss` make.
pub open spec fn sentences_of(ss: Seq<Seq<char>>) -> Map<Seq<char>, SentenceEntryView>
    decreases ss.len(),
{
    if ss.len() == 0 {
        Map::empty()
    } else {
        sentences_of(ss.drop_last()).insert(sentence_key(ss.last()), sentence_entry_of(ss.last()))
    }
}

/// Every `<<` of the article opens a closed tag, every tag has a word and a
/// reading, and no sentence has more tags than its counter can hold.
pub open spec fn well_formed_article(a: Seq<char>) -> bool {
    forall|k: int|
        0 <= k < raw_sentences(a).len() ==> {
            &&& !stray_open_from(#[trigger] raw_sentences(a)[k], 0)
            &&& tag_bodies(raw_sentences(a)[k]).len() <= 255
            &&& forall|j: int|
                0 <= j < tag_bodies(raw_sentences(a)[k]).len() ==> tag_fields(
                    #[trigger] tag_bodies(raw_sentences(a)[k])[j],
                ).len() >= 2
        }
}

/// Whether every `<<` of the article opens a closed tag, every tag has a
/// word and a reading, and no sentence has more tags than its counter can
/// hold.
pub fn is_well_formed(article: &str) -> (r: bool)
    ensures
        r == well_formed_article(article@),
{
    let p = Parser::new();
    let sents = p.cap_sentences_iter(article);
    let ghost ss = raw_sentences(article@);
    let mut k: usize = 0;
    while k < sents.len()
        invariant
            k <= sents@.len(),
            texts(sents@) == ss,
            ss == raw_sentences(article@),
            p.field_delimiter() == field_delimiter(),
            forall|m: int|
                0 <= m < k ==> {
                    &&& !stray_open_from(#[trigger] ss[m], 0)
                    &&& tag_bodies(ss[m]).len() <= 255
                    &&& forall|j: int|
                        0 <= j < tag_bodies(ss[m]).len() ==> tag_fields(
                            #[trigger] tag_bodies(ss[m])[j],
                        ).len() >= 2
                },
        decreases sents.len() - k,
    {
        let s = &sents[k];
        assert(s@ == ss[k as int]);
        if has_stray_open(s.as_str()) {
            return false;
        }
        let bodies = p.cap_entries_iter(s.as_str());
        if bodies.len() > 255 {
            return false;
        }
        let mut j: usize = 0;
        while j < bodies.len()
            invariant
                j <= bodies@.len(),
                texts(bodies@) == tag_bodies(s@),
                p.field_delimiter() == field_delimiter(),
                forall|m: int| 0 <= m < j ==> tag_fields(#[trigger] tag_bodies(s@)[m]).len() >= 2,
                0 <= k < ss.len(),
                s@ == ss[k as int],
                ss == raw_sentences(article@),
            decreases bodies.len() - j,
        {
            let fields = p.cap_fields_iter(bodies[j].as_str());
            assert(bodies@[j as int]@ == tag_bodies(s@)[j as int]);
            if fields.len() < 2 {
                assert(texts(fields@).len() == fields@.len());
                assert(tag_fields(tag_bodies(ss[k as int])[j as int]).len() < 2);
                return false;
            }
            j = j + 1;
        }
        k = k + 1;
    }
    true
}

/// The word and sentence entries of the sentence `s`, added to `words` and
/// `sentences`.
fn add_sentence(
    p: &Parser,
    s: &String,
    words: &mut WordEntryMap,
    sentences: &mut SentenceEntryMap,
)
    requires
        p.field_delimiter() == field_delimiter(),
        p.sentence_delimiter() == sentence_delimiter(),
        tag_bodies(s@).len() <= 255,
        forall|j: int|
            0 <= j < tag_bodies(s@).len() ==> tag_fields(#[trigger] tag_bodies(s@)[j]).len() >= 2,
    ensures
        final(words)@ == add_tags(old(words)@, tag_bodies(s@), sentence_key(s@)),
        final(sentences)@ == old(sentences)@.insert(sentence_key(s@), sentence_entry_of(s@)),
{
    let clean = p.clean_sentence(s.as_str());
    let sentence = Sentence::from(clean.as_str());
    let sid = sentence.id();
    let bodies = p.cap_entries_iter(s.as_str());
    let ghost bs = tag_bodies(s@);
    let ghost w0 = words@;
    let mut ids: Vec<String> = Vec::new();
    let mut j: usize = 0;
    assert(bs.take(0) =~= Seq::<Seq<char>>::empty());
    assert(texts(ids@) =~= tagged_ids(s@).take(0));
    while j < bodies.len()
        invariant
            j <= bodies@.len(),
            texts(bodies@) == bs,
            bs == tag_bodies(s@),
            sid@ == sentence_key(s@),
            p.field_delimiter() == field_delimiter(),
            forall|m: int| 0 <= m < bs.len() ==> tag_fields(#[trigger] bs[m]).len() >= 2,
            words@ == add_tags(w0, bs.take(j as int), sid@),
            texts(ids@) == tagged_ids(s@).take(j as int),
        decreases bodies.len() - j,
    {
        let b = &bodies[j];
        assert(b@ == bs[j as int]);
        let fields = p.cap_fields_iter(b.as_str());
        assert(texts(fields@) == tag_fields(bs[j as int]));
        assert(fields@[0]@ == tag_fields(bs[j as int])[0]);
        assert(fields@[1]@ == tag_fields(bs[j as int])[1]);
        let word = Word::from(fields[0].as_str());
        let wid = word.id();
        let ghost before_ids = texts(ids@);
        ids.push(wid.clone());
        assert(texts(ids@) =~= before_ids.push(wid@));
        let annotation = if fields.len() > 2 {
            assert(fields@[2]@ == tag_fields(bs[j as int])[2]);
            Some(fields[2].clone())
        } else {
            None
        };
        let entry = WordEntry {
            annotation,
            hiragana: fields[1].clone(),
            level: 1,
            sentence_id: sid.clone(),
            word,
        };
        words.insert(wid, entry);
        proof {
            assert(bs.take(j + 1).drop_last() =~= bs.take(j as int));
            assert(bs.take(j + 1).last() == bs[j as int]);
            assert(entry@ == entry_of_tag(bs[j as int], sid@));
            assert(texts(ids@) =~= tagged_ids(s@).take(j + 1));
        }
        j = j + 1;
    }
    proof {
        assert(bs.take(j as int) =~= bs);
        assert(tagged_ids(s@).take(j as int) =~= tagged_ids(s@));
    }
    let count = ids.len() as u8;
    let entry = SentenceEntry { backlog_volumn: count, sentence, wordentry_ids: ids };
    assert(entry@ == sentence_entry_of(s@));
    sentences.insert(sid, entry);
}

/// The word and sentence entries of a well-formed article.
pub(crate) fn entries_of_article(article: &str) -> (r: (WordEntryMap, SentenceEntryMap))
    requires
        well_formed_article(article@),
    ensures
        r.0@ == words_of(raw_sentences(article@)),
        r.1@ == sentences_of(raw_sentences(article@)),
{
    let p = Parser::new();
    let sents = p.cap_sentences_iter(article);
    let ghost ss = raw_sentences(article@);
    let mut words: WordEntryMap = EntryMap::new();
    let mut sentences: SentenceEntryMap = EntryMap::new();
    let mut k: usize = 0;
    assert(ss.take(0) =~= Seq::<Seq<char>>::empty());
    while k < sents.len()
        invariant
            k <= sents@.len(),
            texts(sents@) == ss,
            ss == raw_sentences(article@),
            well_formed_article(article@),
            p.field_delimiter() == field_delimiter(),
            p.sentence_delimiter() == sentence_delimiter(),
            words@ == words_of(ss.take(k as int)),
            sentences@ == sentences_of(ss.take(k as int)),
        decreases sents.len() - k,
    {
        let s = &sents[k];
        assert(s@ == ss[k as int]);
        add_sentence(&p, s, &mut words, &mut sentences);
        proof {
            assert(ss.take(k + 1).drop_last() =~= ss.take(k as int));
            assert(ss.take(k + 1).last() == ss[k as int]);
        }
        k = k + 1;
    }
    assert(ss.take(k as int) =~= ss);
    (words, sentences)
}

/// Relies on `rand::seq::SliceRandom::shuffle` with the thread-local
/// generator: it swaps items, so the same items come out in a random order.
#[verifier::external_body]
fn shuffle<T>(v: &mut Vec<T>)
    ensures
        final(v)@.to_multiset() == old(v)@.to_multiset(),
{
    v.shuffle(&mut rand::thread_rng());
}

/// `ks` names each member of `s` exactly once.
pub open spec fn lists_each_once(ks: Seq<Seq<char>>, s: Set<Seq<char>>) -> bool {
    ks.no_duplicates() && ks.to_set() == s
}

/// The indices `0..n` in increasing order.
pub open spec fn index_range(n: nat) -> Seq<usize> {
    Seq::new(n, |i: int| i as usize)
}

/// A reordering of `0..n` holds each index below `n` exactly once.
proof fn lemma_reordered_range(order: Seq<usize>, n: nat)
    requires
        order.to_multiset() == index_range(n).to_multiset(),
        n <= usize::MAX,
    ensures
        order.len() == n,
        order.no_duplicates(),
        forall|i: int| 0 <= i < order.len() ==> #[trigger] order[i] < n,
        forall|m: usize| m < n ==> #[trigger] order.contains(m),
{
    broadcast use vstd::seq_lib::group_to_multiset_ensures;

    let r = index_range(n);
    assert(order.len() == order.to_multiset().len());
    assert(r.len() == r.to_multiset().len());
    assert(r.no_duplicates());
    r.lemma_multiset_has_no_duplicates();
    order.lemma_multiset_has_no_duplicates_conv();
    assert forall|i: int| 0 <= i < order.len() implies #[trigger] order[i] < n by {
        assert(order.contains(order[i]));
        assert(order.to_multiset().count(order[i]) > 0);
        assert(r.contains(order[i]));
    }
    assert forall|m: usize| m < n implies #[trigger] order.contains(m) by {
        assert(r[m as int] == m);
        assert(r.contains(m));
        assert(r.to_multiset().count(m) > 0);
    }
}

/// The message of a leveling call on a word that is not in the backlog.
pub const NOT_FOUND: &'static str = "Word of this id can't be found in the backlog.";

/// The entries of both collections, those of `m2` winning on a shared key;
/// absent when there is none.
fn merge_map<V: View>(m1: Option<EntryMap<V>>, m2: Option<EntryMap<V>>) -> (r: Option<EntryMap<V>>)
    ensures
        entries_of(r) == entries_of(m1).union_prefer_right(entries_of(m2)),
        r is Some <==> entries_of(r).len() > 0,
{
    let merged = match m1 {
        Some(a) => match m2 {
            Some(b) => a.union_prefer_right(b),
            None => {
                assert(a@.union_prefer_right(Map::empty()) =~= a@);
                a
            },
        },
        None => match m2 {
            Some(b) => {
                assert(Map::<Seq<char>, V::V>::empty().union_prefer_right(b@) =~= b@);
                b
            },
            None => {
                let e = EntryMap::new();
                assert(Map::<Seq<char>, V::V>::empty().union_prefer_right(Map::empty()) =~= e@);
                e
            },
        },
    };
    if merged.is_empty() {
        None
    } else {
        Some(merged)
    }
}

impl StudyBook {
    /// The words in the backlog.
    pub open spec fn word_backlog(&self) -> Map<Seq<char>, WordEntryView> {
        entries_of(self.words.backlog)
    }

    /// The words learned.
    pub open spec fn word_achieved(&self) -> Map<Seq<char>, WordEntryView> {
        entries_of(self.words.achived)
    }

    /// The sentences with words in the backlog.
    pub open spec fn sentence_backlog(&self) -> Map<Seq<char>, SentenceEntryView> {
        entries_of(self.sentences.backlog)
    }

    /// The sentences whose words are all learned.
    pub open spec fn sentence_achieved(&self) -> Map<Seq<char>, SentenceEntryView> {
        entries_of(self.sentences.achived)
    }

    /// Leveling the word `id` down needs no counter to go below zero.
    pub open spec fn can_level_down(&self, id: Seq<char>) -> bool {
        self.word_backlog().contains_key(id) ==> {
            let e = self.word_backlog()[id];
            &&& e.level >= 1
            &&& e.level == 1 && self.sentence_backlog().contains_key(e.sentence_id)
                ==> self.sentence_backlog()[e.sentence_id].backlog_volumn >= 1
        }
    }

    /// Leveling the word `id` up keeps its level within its counter.
    pub open spec fn can_level_up(&self, id: Seq<char>) -> bool {
        self.word_backlog().contains_key(id) ==> self.word_backlog()[id].level < 255
    }

    /// A new book with every tagged word of the article in the backlog at
    /// level 1, and every sentence of the article in the backlog. When the
    /// article has no tag both backlogs are absent. Nothing is achieved yet.
    pub fn from_article(article: &str) -> (r: StudyBook)
        requires
            well_formed_article(article@),
        ensures
            entries_of(r.words.backlog) == words_of(raw_sentences(article@)),
            r.words.backlog is Some <==> words_of(raw_sentences(article@)).len() > 0,
            r.sentences.backlog is Some <==> words_of(raw_sentences(article@)).len() > 0,
            r.sentences.backlog is Some ==> entries_of(r.sentences.backlog) == sentences_of(
                raw_sentences(article@),
            ),
            r.words.achived is None,
            r.sentences.achived is None,
    {
        let (words, sentences) = entries_of_article(article);
        let no_word = words.is_empty();
        StudyBook {
            words: StudyObjectCollection {
                achived: None,
                backlog: if no_word {
                    None
                } else {
                    Some(words)
                },
            },
            sentences: StudyObjectCollection {
                achived: None,
                backlog: if no_word {
                    None
                } else {
                    Some(sentences)
                },
            },
        }
    }
}

impl StudyBook {
    /// The number of entries in each of the four collections; an absent
    /// collection counts as empty.
    pub fn get_status(&self) -> (r: Status)
        ensures
            r.w_archived == self.word_achieved().len(),
            r.w_backlog == self.word_backlog().len(),
            r.s_archived == self.sentence_achieved().len(),
            r.s_backlog == self.sentence_backlog().len(),
    {
        let w_archived = match &self.words.achived {
            Some(m) => m.len(),
            None => 0,
        };
        let w_backlog = match &self.words.backlog {
            Some(m) => m.len(),
            None => 0,
        };
        let s_archived = match &self.sentences.achived {
            Some(m) => m.len(),
            None => 0,
        };
        let s_backlog = match &self.sentences.backlog {
            Some(m) => m.len(),
            None => 0,
        };
        Status { w_archived, w_backlog, s_archived, s_backlog }
    }

    /// A shuffled copy of the word backlog, each entry once; none when the
    /// backlog is absent or empty.
    pub fn get_deck(&self) -> (r: Option<Vec<WordEntry>>)
        ensures
            r is None <==> self.word_backlog().len() == 0,
            match r {
                Some(d) => exists|ks: Seq<Seq<char>>|
                    {
                        &&& lists_each_once(ks, self.word_backlog().dom())
                        &&& ks.len() == d@.len()
                        &&& forall|i: int|
                            0 <= i < d@.len() ==> (#[trigger] d@[i])@ == self.word_backlog()[ks[i]]
                    },
                None => true,
            },
    {
        let backlog = match &self.words.backlog {
            None => {
                return None;
            },
            Some(b) => b,
        };
        if backlog.is_empty() {
            return None;
        }
        let keys = backlog.keys();
        let n = keys.len();
        let mut order: Vec<usize> = Vec::new();
        let mut i: usize = 0;
        while i < n
            invariant
                i <= n,
                order@ == index_range(i as nat),
            decreases n - i,
        {
            order.push(i);
            i = i + 1;
            assert(order@ =~= index_range(i as nat));
        }
        shuffle(&mut order);
        proof {
            lemma_reordered_range(order@, n as nat);
        }
        let ghost key_seq = backlog.key_seq();
        let ghost ks = order@.map_values(|k: usize| key_seq[k as int]);
        let mut deck: Vec<WordEntry> = Vec::new();
        let mut j: usize = 0;
        while j < n
            invariant
                j <= n,
                n == order@.len(),
                n == key_seq.len(),
                texts(keys@) == key_seq,
                ks == order@.map_values(|k: usize| key_seq[k as int]),
                forall|m: int| 0 <= m < order@.len() ==> #[trigger] order@[m] < n,
                forall|m: int| 0 <= m < key_seq.len() ==> backlog@.contains_key(#[trigger] key_seq[m]),
                deck@.len() == j,
                forall|m: int| 0 <= m < j ==> (#[trigger] deck@[m])@ == backlog@[ks[m]],
            decreases n - j,
        {
            let k = order[j];
            assert(order@[j as int] < n);
            let key = &keys[k];
            assert(key@ == key_seq[k as int]);
            match backlog.get(key.as_str()) {
                Some(e) => {
                    deck.push(e.duplicate());
                },
                None => {},
            }
            j = j + 1;
        }
        proof {
            assert(self.word_backlog() == backlog@);
            assert forall|a: int, b: int| 0 <= a < b < ks.len() implies ks[a] != ks[b] by {
                assert(order@[a] != order@[b]);
            }
            assert forall|x: Seq<char>| ks.contains(x) implies backlog@.dom().contains(x) by {
                let m = choose|m: int| 0 <= m < ks.len() && ks[m] == x;
                assert(order@[m] < n);
            }
            assert forall|x: Seq<char>| backlog@.dom().contains(x) implies ks.contains(x) by {
                assert(key_seq.to_set().contains(x));
                let m = choose|m: int| 0 <= m < key_seq.len() && key_seq[m] == x;
                assert(order@.contains(m as usize));
                let i = choose|i: int| 0 <= i < order@.len() && order@[i] == m as usize;
                assert(ks[i] == x);
            }
            assert(ks.to_set() =~= backlog@.dom());
            assert(lists_each_once(ks, self.word_backlog().dom()));
            assert(forall|i: int|
                0 <= i < deck@.len() ==> (#[trigger] deck@[i])@ == self.word_backlog()[ks[i]]);
        }
        Some(deck)
    }

    /// Whether the word backlog is absent.
    pub fn no_words_in_backlog(&self) -> (r: bool)
        ensures
            r == self.words.backlog is None,
    {
        match &self.words.backlog {
            None => true,
            _ => false,
        }
    }

    /// A copy of the backlog entry of the word `w_id`, if there is one.
    fn backlog_word(&self, w_id: &str) -> (r: Option<WordEntry>)
        ensures
            match r {
                Some(e) => self.word_backlog().contains_key(w_id@) && e@ == self.word_backlog()[w_id@],
                None => !self.word_backlog().contains_key(w_id@),
            },
    {
        match &self.words.backlog {
            Some(words) => match words.get(w_id) {
                Some(w) => Some(w.duplicate()),
                None => None,
            },
            None => None,
        }
    }

    /// A copy of the backlog entry of the sentence `s_id`, if there is one.
    fn backlog_sentence(&self, s_id: &str) -> (r: Option<SentenceEntry>)
        ensures
            match r {
                Some(e) => self.sentence_backlog().contains_key(s_id@) && e@
                    == self.sentence_backlog()[s_id@],
                None => !self.sentence_backlog().contains_key(s_id@),
            },
    {
        match &self.sentences.backlog {
            Some(sentences) => match sentences.get(s_id) {
                Some(s) => Some(s.duplicate()),
                None => None,
            },
            None => None,
        }
    }

    /// Whether the word `w_id` can be leveled down.
    pub fn level_down_allowed(&self, w_id: &str) -> (r: bool)
        ensures
            r == self.can_level_down(w_id@),
    {
        match self.backlog_word(w_id) {
            None => true,
            Some(e) => {
                if e.level == 0 {
                    false
                } else if e.level > 1 {
                    true
                } else {
                    match self.backlog_sentence(e.sentence_id.as_str()) {
                        Some(s) => s.backlog_volumn >= 1,
                        None => true,
                    }
                }
            },
        }
    }

    /// Whether the word `w_id` can be leveled up.
    pub fn level_up_allowed(&self, w_id: &str) -> (r: bool)
        ensures
            r == self.can_level_up(w_id@),
    {
        match self.backlog_word(w_id) {
            None => true,
            Some(e) => e.level < 255,
        }
    }

    /// A wrong answer: the backlog word `w_id` needs one more right answer.
    pub fn level_up_word(&mut self, w_id: &str) -> (r: Result<(), &'static str>)
        requires
            old(self).can_level_up(w_id@),
        ensures
            r is Err <==> !old(self).word_backlog().contains_key(w_id@),
            r is Err ==> *final(self) == *old(self),
            r is Ok ==> ({
                let e = old(self).word_backlog()[w_id@];
                &&& final(self).words.backlog is Some
                &&& final(self).word_backlog() == old(self).word_backlog().insert(
                    w_id@,
                    WordEntryView { level: (e.level + 1) as u8, ..e },
                )
                &&& final(self).words.achived == old(self).words.achived
                &&& final(self).sentences == old(self).sentences
            }),
    {
        match self.backlog_word(w_id) {
            None => Err(NOT_FOUND),
            Some(e) => {
                let mut e = e;
                e.level = e.level + 1;
                match &mut self.words.backlog {
                    Some(words) => {
                        words.insert(w_id.to_owned(), e);
                    },
                    None => {},
                }
                Ok(())
            },
        }
    }

    /// A right answer: the backlog word `w_id` needs one right answer less.
    /// At level 0 it moves to the achieved words, and its sentence counts one
    /// backlog word less; a sentence left with none moves to the achieved
    /// sentences.
    pub fn level_down_word(&mut self, w_id: &str) -> (r: Result<(), &'static str>)
        requires
            old(self).can_level_down(w_id@),
        ensures
            r is Err <==> !old(self).word_backlog().contains_key(w_id@),
            r is Err ==> *final(self) == *old(self),
            r is Ok ==> ({
                let e = old(self).word_backlog()[w_id@];
                let sid = e.sentence_id;
                let s = old(self).sentence_backlog()[sid];
                &&& final(self).words.backlog is Some
                &&& e.level > 1 ==> {
                    &&& final(self).word_backlog() == old(self).word_backlog().insert(
                        w_id@,
                        WordEntryView { level: (e.level - 1) as u8, ..e },
                    )
                    &&& final(self).words.achived == old(self).words.achived
                    &&& final(self).sentences == old(self).sentences
                }
                &&& e.level == 1 ==> {
                    &&& final(self).word_backlog() == old(self).word_backlog().remove(w_id@)
                    &&& final(self).words.achived is Some
                    &&& final(self).word_achieved() == old(self).word_achieved().insert(
                        w_id@,
                        WordEntryView { level: 0, ..e },
                    )
                    &&& !old(self).sentence_backlog().contains_key(sid) ==> final(self).sentences
                        == old(self).sentences
                    &&& old(self).sentence_backlog().contains_key(sid) && s.backlog_volumn > 1 ==> {
                        &&& final(self).sentences.backlog is Some
                        &&& final(self).sentence_backlog() == old(self).sentence_backlog().insert(
                            sid,
                            SentenceEntryView { backlog_volumn: (s.backlog_volumn - 1) as u8, ..s },
                        )
                        &&& final(self).sentences.achived == old(self).sentences.achived
                    }
                    &&& old(self).sentence_backlog().contains_key(sid) && s.backlog_volumn == 1 ==> {
                        &&& final(self).sentences.backlog is Some
                        &&& final(self).sentence_backlog() == old(self).sentence_backlog().remove(
                            sid,
                        )
                        &&& final(self).sentences.achived is Some
                        &&& final(self).sentence_achieved() == old(
                            self,
                        ).sentence_achieved().insert(
                            sid,
                            SentenceEntryView { backlog_volumn: 0, ..s },
                        )
                    }
                }
            }),
    {
        let mut e = match self.backlog_word(w_id) {
            None => {
                return Err(NOT_FOUND);
            },
            Some(e) => e,
        };
        e.level = e.level - 1;
        if e.level > 0 {
            match &mut self.words.backlog {
                Some(words) => {
                    words.insert(w_id.to_owned(), e);
                },
                None => {},
            }
            return Ok(());
        }
        let s_id = e.sentence_id.clone();
        match &mut self.words.backlog {
            Some(words) => {
                words.remove(w_id);
            },
            None => {},
        }
        if self.words.achived.is_none() {
            self.words.achived = Some(EntryMap::new());
        }
        match &mut self.words.achived {
            Some(achived) => {
                achived.insert(w_id.to_owned(), e);
            },
            None => {},
        }
        match self.backlog_sentence(s_id.as_str()) {
            None => {},
            Some(s) => {
                let mut s = s;
                s.backlog_volumn = s.backlog_volumn - 1;
                if s.backlog_volumn > 0 {
                    match &mut self.sentences.backlog {
                        Some(sentences) => {
                            sentences.insert(s_id, s);
                        },
                        None => {},
                    }
                } else {
                    match &mut self.sentences.backlog {
                        Some(sentences) => {
                            sentences.remove(s_id.as_str());
                        },
                        None => {},
                    }
                    if self.sentences.achived.is_none() {
                        self.sentences.achived = Some(EntryMap::new());
                    }
                    match &mut self.sentences.achived {
                        Some(achived) => {
                            achived.insert(s_id, s);
                        },
                        None => {},
                    }
                }
            },
        }
        Ok(())
    }

    /// A book holding the entries of both books in each of the four
    /// collections; where both have an identifier, the entry of `book2` is
    /// kept. A collection left empty is absent. `cb`, when given, is called
    /// with the status of `book2` and that of the result.
    pub fn merge<F: Fn(Status, Status)>(book1: StudyBook, book2: StudyBook, cb: Option<F>) -> (r:
        StudyBook)
        requires
            match cb {
                Some(f) => forall|a: Status, b: Status| f.requires((a, b)),
                None => true,
            },
        ensures
            r.word_backlog() == book1.word_backlog().union_prefer_right(book2.word_backlog()),
            r.word_achieved() == book1.word_achieved().union_prefer_right(book2.word_achieved()),
            r.sentence_backlog() == book1.sentence_backlog().union_prefer_right(
                book2.sentence_backlog(),
            ),
            r.sentence_achieved() == book1.sentence_achieved().union_prefer_right(
                book2.sentence_achieved(),
            ),
            r.words.backlog is Some <==> r.word_backlog().len() > 0,
            r.words.achived is Some <==> r.word_achieved().len() > 0,
            r.sentences.backlog is Some <==> r.sentence_backlog().len() > 0,
            r.sentences.achived is Some <==> r.sentence_achieved().len() > 0,
    {
        let s_add = book2.get_status();
        let StudyBook { words: w1, sentences: s1 } = book1;
        let StudyBook { words: w2, sentences: s2 } = book2;
        let new_book = StudyBook {
            words: StudyObjectCollection {
                achived: merge_map(w1.achived, w2.achived),
                backlog: merge_map(w1.backlog, w2.backlog),
            },
            sentences: StudyObjectCollection {
                achived: merge_map(s1.achived, s2.achived),
                backlog: merge_map(s1.backlog, s2.backlog),
            },
        };
        let s_new = new_book.get_status();
        match cb {
            Some(f) => {
                f(s_add, s_new);
            },
            None => {},
        }
        new_book
    }
}

/// The identifiers of all words tagged in the raw sentences `ss`, in order.
pub open spec fn all_tagged_ids(ss: Seq<Seq<char>>) -> Seq<Seq<char>>
    decreases ss.len(),
{
    if ss.len() == 0 {
        seq![]
    } else {
        all_tagged_ids(ss.drop_last()) + tagged_ids(ss.last())
    }
}

/// Adding tags adds exactly their word identifiers.
proof fn lemma_add_tags_dom(m: Map<Seq<char>, WordEntryView>, bs: Seq<Seq<char>>, sid: Seq<char>)
    ensures
        add_tags(m, bs, sid).dom() == m.dom().union(
            bs.map_values(|b: Seq<char>| word_id(tag_fields(b)[0])).to_set(),
        ),
    decreases bs.len(),
{
    let f = |b: Seq<char>| word_id(tag_fields(b)[0]);
    if bs.len() == 0 {
        assert(bs.map_values(f).to_set() =~= Set::<Seq<char>>::empty());
        assert(m.dom().union(Set::<Seq<char>>::empty()) =~= m.dom());
    } else {
        lemma_add_tags_dom(m, bs.drop_last(), sid);
        assert(bs.map_values(f) =~= bs.drop_last().map_values(f).push(f(bs.last())));
        bs.drop_last().map_values(f).lemma_push_to_set_commute(f(bs.last()));
        assert(add_tags(m, bs, sid).dom() =~= m.dom().union(bs.map_values(f).to_set()));
    }
}

/// Parsing an article puts each distinct tagged word identifier in the word
/// backlog exactly once, and each distinct sentence in the sentence backlog
/// exactly once: with `N` distinct tagged words over `M` distinct sentences
/// the backlogs hold `N` and `M` entries.
pub proof fn lemma_article_counts(a: Seq<char>)
    ensures
        words_of(raw_sentences(a)).dom() == all_tagged_ids(raw_sentences(a)).to_set(),
        sentences_of(raw_sentences(a)).dom() == raw_sentences(a).map_values(
            |s: Seq<char>| sentence_key(s),
        ).to_set(),
        words_of(raw_sentences(a)).len() == all_tagged_ids(raw_sentences(a)).to_set().len(),
        sentences_of(raw_sentences(a)).len() == raw_sentences(a).map_values(
            |s: Seq<char>| sentence_key(s),
        ).to_set().len(),
{
    lemma_words_dom(raw_sentences(a));
    lemma_sentences_dom(raw_sentences(a));
}

/// The word identifiers of the raw sentences `ss` are those of their tags.
proof fn lemma_words_dom(ss: Seq<Seq<char>>)
    ensures
        words_of(ss).dom() == all_tagged_ids(ss).to_set(),
    decreases ss.len(),
{
    if ss.len() == 0 {
        assert(all_tagged_ids(ss).to_set() =~= Set::<Seq<char>>::empty());
        assert(words_of(ss).dom() =~= Set::<Seq<char>>::empty());
    } else {
        lemma_words_dom(ss.drop_last());
        let s = ss.last();
        lemma_add_tags_dom(words_of(ss.drop_last()), tag_bodies(s), sentence_key(s));
        let prev = all_tagged_ids(ss.drop_last());
        let here = tagged_ids(s);
        assert forall|x: Seq<char>| (prev + here).contains(x) <==> prev.contains(x) || here.contains(x) by {
            if (prev + here).contains(x) {
                let i = choose|i: int| 0 <= i < (prev + here).len() && (prev + here)[i] == x;
                if i >= prev.len() {
                    assert(here[i - prev.len()] == x);
                }
            }
            if here.contains(x) {
                let i = choose|i: int| 0 <= i < here.len() && here[i] == x;
                assert((prev + here)[prev.len() + i] == x);
            }
            if prev.contains(x) {
                let i = choose|i: int| 0 <= i < prev.len() && prev[i] == x;
                assert((prev + here)[i] == x);
            }
        }
        assert(words_of(ss).dom() =~= all_tagged_ids(ss).to_set());
    }
}

/// The sentence identifiers of the raw sentences `ss` are their keys.
proof fn lemma_sentences_dom(ss: Seq<Seq<char>>)
    ensures
        sentences_of(ss).dom() == ss.map_values(|s: Seq<char>| sentence_key(s)).to_set(),
    decreases ss.len(),
{
    let f = |s: Seq<char>| sentence_key(s);
    if ss.len() == 0 {
        assert(ss.map_values(f).to_set() =~= Set::<Seq<char>>::empty());
        assert(sentences_of(ss).dom() =~= Set::<Seq<char>>::empty());
    } else {
        lemma_sentences_dom(ss.drop_last());
        assert(ss.map_values(f) =~= ss.drop_last().map_values(f).push(f(ss.last())));
        ss.drop_last().map_values(f).lemma_push_to_set_commute(f(ss.last()));
        assert(sentences_of(ss).dom() =~= ss.map_values(f).to_set());
    }
}

/// Both orders of a key-wise union hold the same keys.
proof fn lemma_union_dom_commutes<V>(a: Map<Seq<char>, V>, b: Map<Seq<char>, V>)
    ensures
        a.union_prefer_right(b).dom() == b.union_prefer_right(a).dom(),
        a.union_prefer_right(b).len() == b.union_prefer_right(a).len(),
{
    assert(a.union_prefer_right(b).dom() =~= b.union_prefer_right(a).dom());
}

/// Merging two books in either order gives collections of the same sizes.
/// Where both books hold an identifier, the entry of the book merged in
/// second is the one kept, so the two results may differ in their entries.
pub proof fn lemma_merge_counts_commute(book1: StudyBook, book2: StudyBook)
    ensures
        book1.word_backlog().union_prefer_right(book2.word_backlog()).len()
            == book2.word_backlog().union_prefer_right(book1.word_backlog()).len(),
        book1.word_achieved().union_prefer_right(book2.word_achieved()).len()
            == book2.word_achieved().union_prefer_right(book1.word_achieved()).len(),
        book1.sentence_backlog().union_prefer_right(book2.sentence_backlog()).len()
            == book2.sentence_backlog().union_prefer_right(book1.sentence_backlog()).len(),
        book1.sentence_achieved().union_prefer_right(book2.sentence_achieved()).len()
            == book2.sentence_achieved().union_prefer_right(book1.sentence_achieved()).len(),
        forall|k: Seq<char>|
            book1.word_backlog().contains_key(k) && book2.word_backlog().contains_key(k) ==> {
                &&& #[trigger] book1.word_backlog().union_prefer_right(book2.word_backlog())[k]
                    == book2.word_backlog()[k]
                &&& book2.word_backlog().union_prefer_right(book1.word_backlog())[k]
                    == book1.word_backlog()[k]
            },
{
    lemma_union_dom_commutes(book1.word_backlog(), book2.word_backlog());
    lemma_union_dom_commutes(book1.word_achieved(), book2.word_achieved());
    lemma_union_dom_commutes(book1.sentence_backlog(), book2.sentence_backlog());
    lemma_union_dom_commutes(book1.sentence_achieved(), book2.sentence_achieved());
}

/// Identifiers depend on the text alone: equal words get equal identifiers
/// in every call and every run, and so do equal sentences; a sentence's
/// identifier stays the same when its quoting marks are dropped.
pub proof fn lemma_ids_stable(w1: Word, w2: Word, s1: Sentence, s2: Sentence)
    requires
        w1@ == w2@,
        s1@ == s2@,
    ensures
        word_id(w1@) == word_id(w2@),
        sentence_id(s1@) == sentence_id(s2@),
        sentence_id(s1@) == sentence_id(without_markers(s1@)),
{
    lemma_without_markers_idempotent(s1@);
}

} // verus!
