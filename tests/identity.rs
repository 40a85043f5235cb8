use learn_jp::identity::IdSrc;
use learn_jp::study_book::sentence::Sentence;
use learn_jp::study_book::word::{Word, WordEntry};
use learn_jp::deck::Deck;
use learn_jp::ui::NextStep;
use regex::Regex;

#[test]
fn word_to_id() {
    let w = IdSrc::from_str("自動車");
    assert_eq!(w.id(), base64::encode("自動車"));
}

#[test]
fn preprocess() {
    let s = IdSrc::from(
        "トヨタ`自動車`は`あす`からロシア",
        |v: String| {
            let re = Regex::new("`").unwrap();
            re.replace_all(&v, "").into_owned()
        },
    );

    assert_eq!(s.id(), base64::encode("トヨタ自動車はあすからロシア"));
}

#[test]
fn id_source_keeps_its_value() {
    let s = IdSrc::from("ab", |v: String| v.to_uppercase());
    assert_eq!(s.value(), "ab");
    assert_eq!(s.id(), "QUI=");
}

#[test]
fn word_id_is_base64_of_the_word() {
    assert_eq!(Word::from("自動車").id(), "6Ieq5YuV6LuK");
    assert_eq!(Word::from("自動車").id(), Word::from("自動車").id());
    assert_ne!(Word::from("自動車").id(), "自動車");
}

#[test]
fn sentence_id_ignores_quoting_marks() {
    let quoted = Sentence::from("A`工場`D。");
    let bare = Sentence::from("A工場D。");
    assert_eq!(quoted.id(), bare.id());
    assert_eq!(quoted.id(), base64::encode("A工場D。"));
    assert_eq!(quoted.sentence(), "A`工場`D。");
}

#[test]
fn deck_collects_entries() {
    let e = WordEntry {
        annotation: None,
        hiragana: String::from("つよ"),
        level: 3,
        sentence_id: String::from("x"),
        word: Word::from("強"),
    };
    let mut d = Deck::from_word_entry(&e);
    assert_eq!(d.level, 3);
    assert_eq!(d.word_entries.len(), 1);
    assert_eq!(d.word_entries[0].word.word(), "強");
    let mut f = e;
    f.set_level(2);
    assert_eq!(f.level, 2);
    d.add_word(f);
    assert_eq!(d.word_entries.len(), 2);
    assert_eq!(d.level, 3);
}

#[test]
fn next_step_labels() {
    assert_eq!(NextStep::Study.label(), "Yes");
    assert_eq!(NextStep::AddMore.label(), "No, let's add more contents");
}
