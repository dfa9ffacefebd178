use dreadnom::{dice_code, list_to_table, make_link, parse, DreadError};

const NAME: &str = "A File Name";

/// Writes each run of two or more newlines as a pilcrow.
fn parz(contents: &str) -> String {
    let parsed = parse(NAME, contents).unwrap();
    let mut out = String::new();
    let mut newlines = 0usize;
    for c in parsed.chars() {
        if c == '\n' {
            newlines += 1;
            continue;
        }
        match newlines {
            0 => {}
            1 => out.push('\n'),
            _ => out.push('¶'),
        }
        newlines = 0;
        out.push(c);
    }
    match newlines {
        0 => {}
        1 => out.push('\n'),
        _ => out.push('¶'),
    }
    out
}

fn header(n: usize) -> String {
    format!("| d{n} | Item |\n| --:| -- |")
}

#[test]
fn lib_make_link_result_starts_with_newline_and_hat() {
    assert_eq!(make_link(""), "^");
}

#[test]
fn parse_make_link_result_starts_with_newline_and_hat() {
    assert_eq!(make_link(""), "^");
}

#[test]
fn lib_make_link_trims_cruft_and_lowercases() {
    assert_eq!(make_link("\n@$#$@how%^&^&%NOW-you--------COW-------"), "^how-now-you-cow");
}

#[test]
fn parse_make_link_trims_cruft_and_lowercases() {
    assert_eq!(make_link("\n@$#$@how%^&^&%NOW-you--------COW-------"), "^how-now-you-cow");
}

#[test]
fn lib_dice_code_inserts_name_and_link_into_a_code_template() {
    let expected = "\n`dice: [[A#B]]`\n";
    assert_eq!(dice_code("A", "B"), expected);
}

#[test]
fn parse_dice_code_inserts_name_and_link_into_a_code_template() {
    let expected = "\n`dice: [[A#B]]`\n";
    assert_eq!(dice_code("A", "B"), expected);
}

#[test]
fn lib_parse_requires_nonempty_content_to_begin_with_a_newline() {
    let bad_content = "How\nnow, brown cow?\n";
    assert!(parse(NAME, bad_content).is_err());
}

#[test]
fn parse_parse_requires_nonempty_content_to_begin_with_a_newline() {
    let bad_content = "How\nnow, brown cow?\n";
    assert!(parse(NAME, bad_content).is_err());
}

#[test]
fn lib_if_entire_content_is_vanilla_then_parse_returns_it_unchanged() {
    let expected = "\nHow\nnow, brown cow?\n";
    assert_eq!(parz(expected), expected);
}

#[test]
fn parse_if_entire_content_is_vanilla_then_parse_returns_it_unchanged() {
    let expected = "\nHow\nnow, brown cow?\n";
    assert_eq!(parz(expected), expected);
}

#[test]
fn lib_heading_followed_by_vanilla_does_not_introduce_a_paragraph() {
    let expected = "\n## Head\nVanilla";
    assert_eq!(parz(expected), expected);
}

#[test]
fn parse_heading_followed_by_vanilla_does_not_introduce_a_paragraph() {
    let expected = "\n## Head\nVanilla";
    assert_eq!(parz(expected), expected);
}

#[test]
fn parse_parse_adds_dice_rolling_code_before_and_link_after_lists() {
    let input = "\n## Random List\n1. Foo\n2. Baz";
    let head = header(2);
    let expected = format!(
        "\n## Random List¶`dice: [[{NAME}#^random-list]]`¶{head}\n| 1 | Foo |\n| 2 | Baz |¶^random-list"
    );
    let input = [input, "\nCat Dog"].concat();
    let expected = [&expected, "¶Cat Dog"].concat();
    assert_eq!(parz(&input), expected);
}

#[test]
fn added_material_is_preceded_and_followed_by_paragraphs() {
    let before = ["\n## X", "\n## X\ntext"];
    let after = ["## Y", "text", ""];
    let list = "1. a\n2. b";
    let table = format!("{}\n| 1 | a |\n| 2 | b |", header(2));
    let link = "^x";
    let code = format!("`dice: [[{NAME}#{link}]]`");
    for b4 in before {
        for aft in after {
            let input = [b4, "\n", list, "\n", aft].concat();
            let expected = [b4, "¶", &code, "¶", &table, "¶", link, "¶", aft].concat();
            assert_eq!(parz(&input), expected);
        }
    }
}

#[test]
fn parse_we_add_a_link_after_a_list_that_ends_the_file_even_if_it_doesnt_end_with_a_newline() {
    let input = "\n## Subhead\n1. Foo\n2. Baz";
    let head = header(2);
    let expected = format!(
        "\n## Subhead¶`dice: [[{NAME}#^subhead]]`¶{head}\n| 1 | Foo |\n| 2 | Baz |¶^subhead¶"
    );
    assert_eq!(parz(input), expected);
}

#[test]
fn list_to_table_errors_on_an_empty_list() {
    assert!(list_to_table(&Vec::new()).is_err());
}

#[test]
fn list_to_table_output() {
    let input = vec!["\n1. Foo", "\n2. Bar"];
    let expected = "\n| d2 | Item |\n| --:| -- |\n| 1 | Foo |\n| 2 | Bar |";
    assert_eq!(list_to_table(&input).unwrap(), expected);
}

#[test]
fn parse_check_bad_parse_regression() {
    const WEIRD: &str = "\n\n1. T\n";
    let link = "^START";
    let code = format!("`dice: [[{NAME}#{link}]]`");
    let table = format!("{}\n| 1 | T |", header(1));
    let expected = ["¶", &code, "¶", &table, "¶", link, "¶"].concat();
    assert_eq!(parz(WEIRD), expected);
}

#[test]
fn end_to_end_random_list() {
    let out = parse(NAME, "\n## Random List\n1. Foo\n2. Baz").unwrap();
    let expected = "\n## Random List\n\n`dice: [[A File Name#^random-list]]`\n\n| d2 | Item |\n| --:| -- |\n| 1 | Foo |\n| 2 | Baz |\n\n^random-list\n\n";
    assert_eq!(out, expected);
}

#[test]
fn empty_body_gives_empty_output() {
    assert_eq!(parse(NAME, "").unwrap(), "");
}

#[test]
fn body_without_leading_newline_is_refused() {
    assert_eq!(parse(NAME, "x"), Err(DreadError::MustStartWithNewline));
}

#[test]
fn empty_list_run_error() {
    assert_eq!(list_to_table(&Vec::new()), Err(DreadError::EmptyListRun));
}

#[test]
fn rows_are_renumbered_from_one_and_trimmed() {
    let input = vec!["\n7.   Seven  ", "\n3.Three"];
    let expected = "\n| d2 | Item |\n| --:| -- |\n| 1 | Seven |\n| 2 | Three |";
    assert_eq!(list_to_table(&input).unwrap(), expected);
}

#[test]
fn twelve_items_make_a_d12() {
    let items: Vec<String> = (1..=12).map(|i| format!("\n{i}. x{i}")).collect();
    let refs: Vec<&str> = items.iter().map(|s| s.as_str()).collect();
    let table = list_to_table(&refs).unwrap();
    assert!(table.starts_with("\n| d12 | Item |"));
    assert!(table.ends_with("\n| 10 | x10 |\n| 11 | x11 |\n| 12 | x12 |"));
}

#[test]
fn trigger_before_any_header_uses_start() {
    let out = parse(NAME, "\n1. a").unwrap();
    assert!(out.contains("`dice: [[A File Name#^START]]`"));
    assert!(out.ends_with("\n\n^START\n\n"));
}

#[test]
fn anchor_comes_from_the_first_header_of_a_run() {
    let out = parse(NAME, "\n## First\n### Second\n1. a").unwrap();
    assert!(out.contains("[[A File Name#^first]]"));
}

#[test]
fn later_header_run_changes_the_anchor() {
    let out = parse(NAME, "\n## One\n1. a\n## Two\n1. b").unwrap();
    assert!(out.contains("[[A File Name#^one]]"));
    assert!(out.contains("[[A File Name#^two]]"));
    assert_eq!(out.matches("| d1 | Item |").count(), 2);
}

#[test]
fn blank_lines_collapse_to_one() {
    assert_eq!(parse(NAME, "\nA\n\n\n\nB").unwrap(), "\nA\n\nB");
}

#[test]
fn pure_prose_is_unchanged() {
    let body = "\nOne line\nAnother, with 3 words.\n\nA paragraph";
    assert_eq!(parse(NAME, body).unwrap(), body);
}

#[test]
fn slug_of_empty_header_is_the_hat() {
    assert_eq!(make_link(""), "^");
    assert_eq!(make_link("!!!"), "^");
}

#[test]
fn slug_keeps_unicode_words() {
    assert_eq!(make_link("\n## Café Menu"), "^café-menu");
}

#[test]
fn slug_is_the_same_for_the_same_header() {
    assert_eq!(make_link("\n## Same Title"), make_link("\n## Same Title"));
}

#[test]
fn hash_without_space_is_not_a_header() {
    let out = parse(NAME, "\n#tag\n1. a").unwrap();
    assert!(out.contains("[[A File Name#^START]]"));
}
