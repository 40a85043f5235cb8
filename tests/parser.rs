use learn_jp::level_book::Book;
use learn_jp::parser::{has_stray_open, Parser};

const ARTICLE: &str = r"ロシアへの<<経済制裁・けいざいせいさい>>が<<強・つよ>>まる<<中・なか>>、日本の<<自動車・じどうしゃ>>メーカーに<<影響・えいきょう・>>が<<広がっています・ひろがる・to spread out>>。トヨタ自動車はあすからロシアにある<<工場・こうじょう>>の<<稼働・かどう・operation of a machine, running>>を<<停止・ていし>>すると<<発表・はっぴょう>>しました。";
const SENTENCE: &str = r"トヨタ自動車はあすからロシアにある<<工場・こうじょう>>の<<稼働・かどう・operation of a machine, running>>を";
const ENTRY: &str = "稼働・かどう・operation of a machine, running";
const ENTRY_NO_ANNOTATION: &str = "工場・こうじょう";

const HASH_ARTICLE: &str = r#"ロシアへの#経済制裁(けいざいせいさい)#が#強(つよ)#まる#中(なか)#、日本の#自動車(じどうしゃ)#メーカーに#影響(えいきょう)が#広がっています(ひろがる・to spread out)。トヨタ自動車はあすからロシアにある#工場(こうじょう)の#稼働(かどう・operation [of a machine], running)#を#停止(ていし)#すると#発表(はっぴょう)#しました。"#;
const HASH_SECOND: &str = "トヨタ自動車はあすからロシアにある#工場(こうじょう)の#稼働(かどう・operation [of a machine], running)#を#停止(ていし)#すると#発表(はっぴょう)#しました";

const BRACKET_ARTICLE: &str = r#"ロシアへの<<経済制裁[けいざいせいさい]>>が<<強[つよ]>>まる<<中[なか]>>、日本の<<自動車[じどうしゃ]>>メーカーに<<影響[えいきょう]>>が<<広がっています[ひろがる・to spread out]>>。トヨタ自動車はあすからロシアにある<<工場[こうじょう]>>の<<稼働[かどう・operation of a machine, running>>を<<停止[ていし]>>すると<<発表[はっぴょう]>>しました。"#;

#[test]
fn cap_sentence() {
    let p = Parser::new();
    let sentences = p.cap_sentences_iter(ARTICLE);
    let mut iter = sentences.iter().map(|s| s.as_str());

    assert_eq!(iter.next(), Some("ロシアへの<<経済制裁・けいざいせいさい>>が<<強・つよ>>まる<<中・なか>>、日本の<<自動車・じどうしゃ>>メーカーに<<影響・えいきょう・>>が<<広がっています・ひろがる・to spread out>>"));
    assert_eq!(iter.next(), Some("トヨタ自動車はあすからロシアにある<<工場・こうじょう>>の<<稼働・かどう・operation of a machine, running>>を<<停止・ていし>>すると<<発表・はっぴょう>>しました"));
    assert_eq!(iter.next(), None);
}

#[test]
fn clean_sentence() {
    let p = Parser::new();
    assert_eq!(
        p.clean_sentence(SENTENCE),
        "トヨタ自動車はあすからロシアにある`工場`の`稼働`を。"
    );
}

#[test]
fn cap_entry_str() {
    let p = Parser::new();
    let entries = p.cap_entries_iter(SENTENCE);
    let mut iter = entries.iter().map(|s| s.as_str());

    assert_eq!(iter.next(), Some("工場・こうじょう"));
    assert_eq!(
        iter.next(),
        Some("稼働・かどう・operation of a machine, running")
    );
    assert_eq!(iter.next(), None);
}

#[test]
fn cap_entry_field() {
    let p = Parser::new();
    let fields = p.cap_fields_iter(ENTRY);
    let mut iter = fields.iter().map(|s| s.as_str());
    assert_eq!(iter.next(), Some("稼働"));
    assert_eq!(iter.next(), Some("かどう"));
    assert_eq!(iter.next(), Some("operation of a machine, running"));

    let fields = p.cap_fields_iter(ENTRY_NO_ANNOTATION);
    let mut iter = fields.iter().map(|s| s.as_str());
    assert_eq!(iter.next(), Some("工場"));
    assert_eq!(iter.next(), Some("こうじょう"));
    assert_eq!(iter.next(), None);
}

#[test]
fn can_split_article_by_maru() {
    let sentences = Parser::new().cap_sentences_iter(HASH_ARTICLE);
    assert_eq!(sentences.len(), 2);
    assert_eq!(sentences[1], HASH_SECOND);
}

#[test]
fn bac2_split_article_with_maru() {
    let sentences = Parser::new().cap_sentences_iter(HASH_ARTICLE);
    assert_eq!(sentences.len(), 2);
    assert_eq!(sentences[1], HASH_SECOND);
}

#[test]
fn bac3_split_article_with_maru() {
    let sentences = Book::gen_sentences(HASH_ARTICLE, None);
    assert_eq!(sentences.len(), 2);
    assert_eq!(sentences[1], HASH_SECOND);
}

#[test]
fn bac4_split_article_with_maru() {
    let sentences = Book::gen_sentences(HASH_ARTICLE, None);
    assert_eq!(sentences.len(), 2);
    assert_eq!(sentences[1], HASH_SECOND);
}

#[test]
fn bac5_split_article_with_maru() {
    let sentences = Book::gen_sentences(HASH_ARTICLE, None);
    assert_eq!(sentences.len(), 2);
    assert_eq!(sentences[1], HASH_SECOND);
}

#[test]
fn bac6_split_article_with_maru() {
    let sentences = Book::gen_sentences(BRACKET_ARTICLE, None);
    assert_eq!(sentences.len(), 2);
    assert_eq!(sentences[1],"トヨタ自動車はあすからロシアにある<<工場[こうじょう]>>の<<稼働[かどう・operation of a machine, running>>を<<停止[ていし]>>すると<<発表[はっぴょう]>>しました");
}

#[test]
fn capture_entries() {
    let entries = Book::gen_entries(BRACKET_ARTICLE, None);

    assert_eq!(entries.len(), 10);
    assert_eq!(entries[0], "<<経済制裁[けいざいせいさい]>>");
    assert_eq!(entries[1], "<<強[つよ]>>");
}

#[test]
fn split_with_longer_and_empty_delimiters() {
    assert_eq!(Book::gen_sentences("a--b----c-", Some("--")), vec!["a", "b", "c-"]);
    assert_eq!(Book::gen_sentences("abc", Some("")), vec!["a", "b", "c"]);
    assert_eq!(Book::gen_sentences("。。", None), Vec::<String>::new());
}

#[test]
fn configured_delimiters_are_used() {
    let p = Parser::with_delimiters('|', '.');
    assert_eq!(p.cap_sentences_iter("x<<a|b>>.y."), vec!["x<<a|b>>", "y"]);
    assert_eq!(p.clean_sentence("x<<a|b>>"), "x`a`.");
    assert_eq!(p.cap_fields_iter("a|b|c|d"), vec!["a", "b", "c|d"]);
}

#[test]
fn tags_take_the_first_closing_bracket() {
    let p = Parser::new();
    assert_eq!(p.cap_entries_iter("<<<a・b>>>"), vec!["<a・b"]);
    assert_eq!(p.cap_entries_iter("<<a>b>> <<c・d>>"), vec!["c・d"]);
    assert_eq!(p.cap_entries_iter("<<a・b"), Vec::<String>::new());
    assert_eq!(p.clean_sentence("x<<・b>>y"), "x``y。");
}

#[test]
fn empty_fields_are_dropped() {
    let p = Parser::new();
    assert_eq!(p.cap_fields_iter("・a・・b"), vec!["a", "・b"]);
    assert_eq!(p.cap_fields_iter("影響・えいきょう・"), vec!["影響", "えいきょう"]);
}

#[test]
fn stray_openers_are_found() {
    assert!(has_stray_open("x<<a・b"));
    assert!(has_stray_open("<<a>b>>"));
    assert!(!has_stray_open("<<a・b>> and <<c・d>>"));
    assert!(!has_stray_open("no tags"));
}
