use learn_jp::study_book::status::Status;
use learn_jp::study_book::word::Word;
use learn_jp::study_book::{is_well_formed, StudyBook};

const ARTICLE: &str = r"ロシアへの<<経済制裁・けいざいせいさい>>が<<強・つよ>>まる<<中・なか>>、日本の<<自動車・じどうしゃ>>メーカーに<<影響・えいきょう・>>が<<広がっています・ひろがる・to spread out>>。トヨタ自動車はあすからロシアにある<<工場・こうじょう>>の<<稼働・かどう・operation of a machine, running>>を<<停止・ていし>>すると<<発表・はっぴょう>>しました。";

const A_1: &str = r"ロシアへの<<経済制裁・けいざいせいさい>>が<<強・つよ>>まる<<中・なか>>、日本の<<自動車・じどうしゃ>>メーカーに<<影響・えいきょう・>>が<<広がっています・ひろがる・to spread out>>。";
const A_2: &str = r"トヨタ自動車はあすからロシアにある<<工場・こうじょう>>の<<稼働・かどう・operation of a machine, running>>を<<停止・ていし>>すると<<発表・はっぴょう>>しました。";

const SMALL: &str = "A<<経済制裁・けいざいせいさい>>B<<強・つよ>>。C<<工場・こうじょう>>D。";

fn id_of(w: &str) -> String {
    Word::from(w).id()
}

#[test]
fn can_detect_no_word_in_backlog() {
    let b = StudyBook::from_article("へへへへへへ");

    assert!(b.no_words_in_backlog());
}

#[test]
fn can_gen_book_from_article() {
    let b = StudyBook::from_article(ARTICLE);

    let backlog_w = b.words.backlog.unwrap();
    let backlog_s = b.sentences.backlog.unwrap();

    assert_eq!(backlog_w.len(), 10);
    assert_eq!(backlog_s.len(), 2);

    let w = Word::from("稼働");
    let w_id = w.id();

    let entry_w = backlog_w.get(&w_id).unwrap();
    assert_eq!(entry_w.word.word(), "稼働");
    assert_eq!(entry_w.hiragana, "かどう");
    assert_eq!(
        entry_w.annotation.to_owned().unwrap(),
        "operation of a machine, running"
    );

    let entry_s = backlog_s.get(&entry_w.sentence_id).unwrap();
    assert_eq!(
        entry_s.sentence.sentence(),
        "トヨタ自動車はあすからロシアにある`工場`の`稼働`を`停止`すると`発表`しました。"
    );

    let w = Word::from("停止");
    assert!(entry_s.wordentry_ids.contains(&w.id()));

    let entry_w = backlog_w.get(&w.id()).unwrap();
    assert_eq!(entry_w.annotation, None);
}

#[test]
fn can_report_correct_status() {
    let s = StudyBook::from_article(ARTICLE).get_status();

    assert_eq!(s.s_archived, 0);
    assert_eq!(s.w_archived, 0);
    assert_eq!(s.s_backlog, 2);
    assert_eq!(s.w_backlog, 10);
}

#[test]
fn can_merge_books() {
    let b1 = StudyBook::from_article(A_1);
    let b2 = StudyBook::from_article(A_2);

    StudyBook::merge(
        b1,
        b2,
        Some(|s_add: Status, s_new: Status| {
            assert_eq!(s_add.s_archived, 0);
            assert_eq!(s_add.w_archived, 0);
            assert_eq!(s_add.s_backlog, 1);
            assert_eq!(s_add.w_backlog, 4);

            assert_eq!(s_new.s_archived, 0);
            assert_eq!(s_new.w_archived, 0);
            assert_eq!(s_new.s_backlog, 2);
            assert_eq!(s_new.w_backlog, 10);
        }),
    );
}

#[test]
fn can_gen_deck() {
    let b = StudyBook::from_article(ARTICLE);
    let d = b.get_deck().unwrap();

    let w: Vec<&str> = d.iter().map(|e| e.word.word()).collect();

    assert_eq!(w.len(), 10);
    assert!(w.contains(&"経済制裁"));
    assert!(w.contains(&"稼働"));
}

#[test]
fn deck_is_random() {
    let b = StudyBook::from_article(ARTICLE);
    let d1 = b.get_deck().unwrap();
    let d2 = b.get_deck().unwrap();

    let res0 = d1[0].word.word() == d2[0].word.word();
    let res1 = d1[1].word.word() == d2[1].word.word();
    let res2 = d1[2].word.word() == d2[2].word.word();

    assert!(!res0 || !res1 || !res2);
}

#[test]
fn can_level_up_word() {
    let mut b = StudyBook::from_article(ARTICLE);

    let w = Word::from("自動車");
    let w_id = w.id();

    b.level_up_word(&w_id).unwrap();

    assert_eq!(b.words.backlog.unwrap().get(&w_id).unwrap().level, 2);
}

#[test]
fn can_level_down_word() {
    let mut b = StudyBook::from_article(ARTICLE);

    for w in ["工場", "稼働", "停止", "発表"] {
        b.level_down_word(&Word::from(w).id()).unwrap();
    }

    let w = Word::from("自動車");
    let w_id = w.id();

    b.level_down_word(&w_id).unwrap();

    let w_b = b.words.backlog.unwrap();
    let w_a = b.words.achived.unwrap();
    let s_b = b.sentences.backlog.unwrap();
    let s_a = b.sentences.achived.unwrap();

    assert_eq!(w_b.len(), 5);
    assert_eq!(s_b.len(), 1);

    assert_eq!(w_a.len(), 5);
    assert_eq!(s_a.len(), 1);

    let w = &w_a.get(&w_id).unwrap();
    let s_id = &w.sentence_id;
    let s = s_b.get(s_id).unwrap();

    assert_eq!(w.level, 0);
    assert_eq!(s.backlog_volumn, 5);
}

#[test]
fn small_article_gives_two_sentences_and_three_words() {
    let b = StudyBook::from_article(SMALL);
    let s = b.get_status();
    assert_eq!(s.s_backlog, 2);
    assert_eq!(s.w_backlog, 3);
    assert_eq!(s.s_archived, 0);
    assert_eq!(s.w_archived, 0);

    let words = b.words.backlog.as_ref().unwrap();
    for w in ["経済制裁", "強", "工場"] {
        assert_eq!(words.get(&id_of(w)).unwrap().level, 1);
    }
    let sentences = b.sentences.backlog.as_ref().unwrap();
    let first = &words.get(&id_of("強")).unwrap().sentence_id;
    let second = &words.get(&id_of("工場")).unwrap().sentence_id;
    assert_eq!(sentences.get(first).unwrap().backlog_volumn, 2);
    assert_eq!(sentences.get(second).unwrap().backlog_volumn, 1);
    assert_eq!(sentences.get(first).unwrap().sentence.sentence(), "A`経済制裁`B`強`。");
    assert_eq!(sentences.get(second).unwrap().sentence.sentence(), "C`工場`D。");
    assert!(b.words.achived.is_none());
    assert!(b.sentences.achived.is_none());
}

#[test]
fn leveling_down_both_words_of_a_sentence_achieves_it() {
    let mut b = StudyBook::from_article(SMALL);
    let sid = b.words.backlog.as_ref().unwrap().get(&id_of("強")).unwrap().sentence_id.clone();

    b.level_down_word(&id_of("強")).unwrap();
    {
        let s_b = b.sentences.backlog.as_ref().unwrap();
        assert_eq!(s_b.get(&sid).unwrap().backlog_volumn, 1);
        assert!(b.sentences.achived.is_none());
    }

    b.level_down_word(&id_of("経済制裁")).unwrap();
    let s_b = b.sentences.backlog.as_ref().unwrap();
    let s_a = b.sentences.achived.as_ref().unwrap();
    assert!(s_b.get(&sid).is_none());
    assert_eq!(s_a.get(&sid).unwrap().backlog_volumn, 0);
    let w_a = b.words.achived.as_ref().unwrap();
    assert!(w_a.get(&id_of("強")).is_some());
    assert!(w_a.get(&id_of("経済制裁")).is_some());
    assert_eq!(w_a.get(&id_of("強")).unwrap().level, 0);
    let s = b.get_status();
    assert_eq!(s.w_backlog, 1);
    assert_eq!(s.w_archived, 2);
    assert_eq!(s.s_backlog, 1);
    assert_eq!(s.s_archived, 1);
}

#[test]
fn level_up_of_unknown_word_is_not_found() {
    let mut b = StudyBook::from_article(SMALL);
    let before = b.get_status();
    let r = b.level_up_word(&id_of("無い"));
    assert_eq!(r, Err("Word of this id can't be found in the backlog."));
    assert_eq!(b.get_status(), before);
    let words = b.words.backlog.as_ref().unwrap();
    for w in ["経済制裁", "強", "工場"] {
        assert_eq!(words.get(&id_of(w)).unwrap().level, 1);
    }
}

#[test]
fn level_down_of_unknown_word_is_not_found() {
    let mut b = StudyBook::from_article(SMALL);
    assert!(b.level_down_word(&id_of("無い")).is_err());
    assert_eq!(b.get_status().w_backlog, 3);
    assert!(b.words.achived.is_none());
}

#[test]
fn leveling_on_an_empty_book_is_not_found() {
    let mut b = StudyBook::from_article("");
    assert!(b.level_up_word(&id_of("強")).is_err());
    assert!(b.level_down_word(&id_of("強")).is_err());
}

#[test]
fn level_down_from_two_keeps_word_in_backlog() {
    let mut b = StudyBook::from_article(SMALL);
    let id = id_of("工場");
    b.level_up_word(&id).unwrap();
    b.level_down_word(&id).unwrap();
    assert_eq!(b.words.backlog.as_ref().unwrap().get(&id).unwrap().level, 1);
    assert!(b.words.achived.is_none());
}

#[test]
fn empty_article_has_no_backlog() {
    let b = StudyBook::from_article("");
    assert!(b.no_words_in_backlog());
    assert!(b.sentences.backlog.is_none());
    assert!(b.get_deck().is_none());
    let s = b.get_status();
    assert_eq!(s, Status { w_archived: 0, w_backlog: 0, s_archived: 0, s_backlog: 0 });
}

#[test]
fn gloss_keeps_later_delimiters() {
    let b = StudyBook::from_article("<<稼働・かどう・a・b>>を。");
    let words = b.words.backlog.unwrap();
    let e = words.get(&id_of("稼働")).unwrap();
    assert_eq!(e.hiragana, "かどう");
    assert_eq!(e.annotation.as_deref(), Some("a・b"));
}

#[test]
fn empty_gloss_is_absent() {
    let b = StudyBook::from_article(A_1);
    let words = b.words.backlog.unwrap();
    assert_eq!(words.get(&id_of("影響")).unwrap().annotation, None);
    assert_eq!(
        words.get(&id_of("広がっています")).unwrap().annotation.as_deref(),
        Some("to spread out")
    );
}

#[test]
fn repeated_word_counts_once() {
    let b = StudyBook::from_article("<<犬・いぬ>>。<<犬・いぬ>>が。");
    let s = b.get_status();
    assert_eq!(s.w_backlog, 1);
    assert_eq!(s.s_backlog, 2);
}

#[test]
fn deck_holds_each_backlog_word_once() {
    let b = StudyBook::from_article(ARTICLE);
    let d = b.get_deck().unwrap();
    assert_eq!(d.len(), b.get_status().w_backlog);
    let mut ws: Vec<&str> = d.iter().map(|e| e.word.word()).collect();
    ws.sort();
    ws.dedup();
    assert_eq!(ws.len(), 10);
}

#[test]
fn merge_counts_agree_in_both_orders_and_second_book_wins() {
    let mut a = StudyBook::from_article(SMALL);
    a.level_up_word(&id_of("強")).unwrap();
    let b = StudyBook::from_article("E<<強・つよ>>。");
    let ab = StudyBook::merge(a, b, None::<fn(Status, Status)>);

    let mut a = StudyBook::from_article(SMALL);
    a.level_up_word(&id_of("強")).unwrap();
    let b = StudyBook::from_article("E<<強・つよ>>。");
    let ba = StudyBook::merge(b, a, None::<fn(Status, Status)>);

    assert_eq!(ab.get_status(), ba.get_status());
    assert_eq!(ab.get_status().w_backlog, 3);
    assert_eq!(ab.get_status().s_backlog, 3);
    assert_eq!(ab.words.backlog.as_ref().unwrap().get(&id_of("強")).unwrap().level, 1);
    assert_eq!(ba.words.backlog.as_ref().unwrap().get(&id_of("強")).unwrap().level, 2);
}

#[test]
fn merging_empty_books_leaves_collections_absent() {
    let m = StudyBook::merge(
        StudyBook::from_article(""),
        StudyBook::from_article("へ。"),
        None::<fn(Status, Status)>,
    );
    assert!(m.words.backlog.is_none());
    assert!(m.words.achived.is_none());
    assert!(m.sentences.backlog.is_none());
    assert!(m.sentences.achived.is_none());
}

#[test]
fn well_formedness_is_checked() {
    assert!(is_well_formed(ARTICLE));
    assert!(is_well_formed(""));
    assert!(!is_well_formed("<<経済>>。"));
    assert!(!is_well_formed("a<<・けい>>。"));
    assert!(!is_well_formed("a<<経済・けいざい。"));
    assert!(!is_well_formed("a<<経済>・けいざい>>。"));
    assert!(is_well_formed("a<<<経済・けいざい>>。"));
}

#[test]
fn leveling_guards_report_counter_limits() {
    let mut b = StudyBook::from_article(SMALL);
    let id = id_of("強");
    assert!(b.level_up_allowed(&id));
    assert!(b.level_down_allowed(&id));
    for _ in 0..254 {
        b.level_up_word(&id).unwrap();
    }
    assert_eq!(b.words.backlog.as_ref().unwrap().get(&id).unwrap().level, 255);
    assert!(!b.level_up_allowed(&id));
}
