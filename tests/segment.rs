use dreadnom::{embedded_file_name, subdivide, DreadError};

const MINIMAL: &str = "# H\n©";

#[test]
fn lib_a_minimal_content_suffices() {
    assert!(subdivide(MINIMAL).is_ok());
}

#[test]
fn parse_a_minimal_content_suffices() {
    assert!(subdivide(MINIMAL).is_ok());
}

#[test]
fn lib_prologue_must_contain_copyright_symbol() {
    assert!(subdivide("# H\ncopyright\n## IJK").is_err());
}

#[test]
fn parse_prologue_must_contain_copyright_symbol() {
    assert!(subdivide("# H\ncopyright\n## IJK").is_err());
}

#[test]
fn copyright_is_required_even_if_there_are_no_subsections() {
    let read_me = "00 Read Me";
    let rest = "\nblah diddy blah\n";
    let contents = ["## ", read_me, "\n", rest].concat();
    assert!(subdivide(&contents).is_err());
}

#[test]
#[allow(non_snake_case)]
fn lib_but_OGL_instead_of_copyright_is_ok() {
    assert!(subdivide("# H\nOGL\nis not copyright\n----\n## Subhead").is_ok());
}

#[test]
#[allow(non_snake_case)]
fn parse_but_OGL_instead_of_copyright_is_ok() {
    assert!(subdivide("# H\nOGL\nis not copyright\n----\n## Subhead").is_ok());
}

#[test]
fn subdivide_does() {
    // returns file name, prologue, and body
    let input = "# Owlbear \nThanks\n©\nfoo\n©\nbar\n## Barred Owl";
    let fname = "Owlbear".to_owned();
    let prolog = "©\n©\n".to_owned();
    let body = "\n## Barred Owl";
    assert_eq!(subdivide(input).unwrap(), (fname, prolog, body));
}

#[test]
fn name_copyright_body_does() {
    let input = "# Owlbear \nThanks\n©\nfoo\n©\nbar\n## Barred Owl";
    let fname = "Owlbear".to_owned();
    let prolog = "©\n©\n".to_owned();
    let body = "\n## Barred Owl";
    assert_eq!(subdivide(input).unwrap(), (fname, prolog, body));
}

#[test]
fn lib_must_be_a_markdown_header() {
    assert!(embedded_file_name(" # Too Late").is_err());
}

#[test]
fn parse_must_be_a_markdown_header() {
    assert!(embedded_file_name(" # Too Late").is_err());
}

#[test]
fn lib_trims_header_marker_and_whitespace() {
    assert_eq!(embedded_file_name("#  99 Bottles\t\n").unwrap(), "99 Bottles");
}

#[test]
fn parse_trims_header_marker_and_whitespace() {
    assert_eq!(embedded_file_name("#  99 Bottles\t\n").unwrap(), "99 Bottles");
}

#[test]
fn lib_trims_20_things_prefix() {
    assert_eq!(embedded_file_name("# 20 Things #99: Bottles\n").unwrap(), "99 Bottles");
}

#[test]
fn parse_trims_20_things_prefix() {
    assert_eq!(embedded_file_name("# 20 Things #99: Bottles\n").unwrap(), "99 Bottles");
}

#[test]
fn lib_embedded_file_name_removes_colon_everywhere() {
    assert_eq!(embedded_file_name("# 88: Mottles\n").unwrap(), "88 Mottles".to_string());
}

#[test]
fn parse_embedded_file_name_removes_colon_everywhere() {
    assert_eq!(embedded_file_name("# 88: Mottles\n").unwrap(), "88 Mottles".to_string());
}

#[test]
fn lib_markdown_can_be_header_2_etc() {
    for octo in ["#", "##", "####"] {
        let header = format!("{octo} 99 Bottles");
        assert_eq!(embedded_file_name(&header).unwrap(), "99 Bottles");
    }
}

#[test]
fn parse_markdown_can_be_header_2_etc() {
    for octo in ["#", "##", "####"] {
        let header = format!("{octo} 99 Bottles");
        assert_eq!(embedded_file_name(&header).unwrap(), "99 Bottles");
    }
}

#[test]
#[allow(non_snake_case)]
fn lib_tries_to_find_a_better_name_than_Name() {
    let contents = "# Name\nWhee!\nStuff#00: Better Name. ©";
    assert_eq!(embedded_file_name(contents).unwrap(), "Better Name");
}

#[test]
#[allow(non_snake_case)]
fn parse_tries_to_find_a_better_name_than_Name() {
    let contents = "# Name\nWhee!\nStuff#00: Better Name. ©";
    assert_eq!(embedded_file_name(contents).unwrap(), "Better Name");
}

#[test]
fn malformed_prologue_fails_with_no_license_line() {
    assert_eq!(subdivide("# H\ncopyright\n## IJK"), Err(DreadError::NoLicenseLine));
}

#[test]
fn first_line_must_be_a_header() {
    assert_eq!(subdivide("Title\n©\n## A"), Err(DreadError::NotAHeader));
    assert_eq!(subdivide("#Title\n©\n## A"), Err(DreadError::NotAHeader));
    assert_eq!(subdivide("#   \n©\n## A"), Err(DreadError::NotAHeader));
}

#[test]
fn a_lone_header_has_no_license_line() {
    assert_eq!(subdivide("# Only a title"), Err(DreadError::NoLicenseLine));
}

#[test]
fn monstrous_lair_prefix_is_stripped() {
    assert_eq!(embedded_file_name("# Monstrous Lair #12: Troll Bridge").unwrap(), "12 Troll Bridge");
}

#[test]
fn every_colon_is_removed() {
    assert_eq!(embedded_file_name("# A: B: C").unwrap(), "A B C");
}

#[test]
fn name_stays_without_a_license_line_naming_a_title() {
    assert_eq!(embedded_file_name("# Name\nno title here\n").unwrap(), "Name");
}

#[test]
fn include_ogl_counts_but_only_as_a_whole_word() {
    let (_, prologue, body) = subdivide("# H\nInclude OGL text\nOGLE\nxOGL\n## S\nrest").unwrap();
    assert_eq!(prologue, "Include OGL text\n");
    assert_eq!(body, "\n## S\nrest");
}

#[test]
fn without_a_subhead_the_body_is_empty() {
    let (title, prologue, body) = subdivide("# T\nline ©\nmore").unwrap();
    assert_eq!(title, "T");
    assert_eq!(prologue, "line ©\n");
    assert_eq!(body, "");
}

#[test]
fn a_subhead_right_after_the_title_leaves_no_prologue() {
    assert_eq!(subdivide("# T\n## S\n©"), Err(DreadError::NoLicenseLine));
}
