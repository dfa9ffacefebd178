use dreadnom::{
    article_role, note_name, number_and_title_from, urban_idea_special_case, ArticleRole,
    ReadmeInfo,
};

#[test]
fn special_case_for_urban_ideas() {
    let prologue1 = "# 71 Urban\n#ideas\n";
    let prologue2 = "# 71: Urban Cities\n#ideas\n\n\n";
    let body = "1. blah blah\n 2.blah diddy blah\n";
    for prologue in [prologue1, prologue2] {
        let contents = [prologue, body].concat();
        assert_eq!(
            urban_idea_special_case(&contents).unwrap(),
            ("71 Urban Events".to_string(), ["\n## Ideas\n", body].concat())
        );
    }
}

#[test]
fn number_and_title_from_splits_initial_number_from_rest() {
    let a = "12_stuff";
    let b = "stuff";
    assert_eq!(number_and_title_from(a), (Some(12), "stuff".to_string()));
    assert_eq!(number_and_title_from(b), (None, "stuff".to_string()));
}

#[test]
fn other_articles_are_not_urban() {
    assert_eq!(urban_idea_special_case("# 72 Urban\n#ideas\n1. x"), None);
    assert_eq!(urban_idea_special_case("# 71 Urban\n## Ideas\n1. x"), None);
}

#[test]
fn number_too_large_counts_as_none() {
    assert_eq!(number_and_title_from("99999999999 big"), (None, "big".to_string()));
}

#[test]
fn name_with_a_newline_is_kept_whole() {
    assert_eq!(number_and_title_from("7 a\nb"), (None, "7 a\nb".to_string()));
}

#[test]
fn note_names_pick_the_longer_title() {
    assert_eq!(note_name("03 Short", "3 A Much Longer Title").unwrap(), "03 A Much Longer Title");
    assert_eq!(note_name("03 A Much Longer Title", "Short").unwrap(), "03 A Much Longer Title");
    assert_eq!(note_name("12 A Much Longer Title", "Short").unwrap(), "12 Short");
    assert_eq!(note_name("100 Last", "Final Things").unwrap(), "Final Things");
    assert_eq!(note_name("No Number", "Title"), None);
}

#[test]
fn article_roles() {
    assert_eq!(article_role("05 Things copy"), ArticleRole::Duplicate);
    assert_eq!(article_role("00 Read Me"), ArticleRole::OriginalReadme);
    assert_eq!(article_role("05 Things"), ArticleRole::Article);
}

#[test]
fn readme_context_needs_collection_and_thanks() {
    let mut info = ReadmeInfo::new();
    assert!(info.context().is_none());
    info.update_from_article("# 1 X\n20 Things #1: X\nnothing else");
    assert!(info.context().is_none());
    info.update_from_article("# 2 Y\nThank you to my backers!\nMonstrous Lair");
    let ctx = info.context().unwrap();
    assert_eq!(ctx.nomicon, "Thingonomicon");
    assert_eq!(ctx.thank_you, "Thank you to my backers!");
    assert_eq!(ctx.original_readme, "");
    info.save_original_readme("Read me.".to_string());
    let ctx = info.context().unwrap();
    assert_eq!(ctx.original_readme, "\n\n-----\n\nHere is the original Read Me\n\nRead me.");
}

#[test]
fn lair_collection_is_recognised() {
    let mut info = ReadmeInfo::new();
    info.update_from_article("# 1 X\nMonstrous Lair #1: X\nThank you to all");
    assert_eq!(info.context().unwrap().nomicon, "Laironomicon");
}
