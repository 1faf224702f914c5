use corewars_parser::clean::{Info, Warning};

#[test]
fn metadata_comments_extracted() {
    let input = ";redcode\n;author Ian Chamberlain\n; name my-amazing-warrior\nMOV 1, 1";
    let cleaned = Info::extract_from_string(input);
    assert_eq!(cleaned.lines, vec!["MOV 1, 1".to_string()]);
    assert_eq!(cleaned.metadata.redcode, Some("".to_string()));
    assert_eq!(cleaned.metadata.author, Some("Ian Chamberlain".to_string()));
    assert_eq!(cleaned.metadata.name, Some("my-amazing-warrior".to_string()));
    assert_eq!(cleaned.metadata.origin, None);
    assert!(cleaned.warnings.is_empty());
}

#[test]
fn duplicate_org_is_dropped_with_warning() {
    let cleaned = Info::extract_from_string("ORG 5\nORG 2\n");
    assert_eq!(cleaned.lines, vec!["ORG 5".to_string()]);
    assert_eq!(cleaned.metadata.origin, Some("5".to_string()));
    assert_eq!(cleaned.warnings, vec![Warning::DuplicateOrigin]);
}

#[test]
fn end_sets_origin_and_line_is_kept() {
    let cleaned = Info::extract_from_string("MOV 1, 1\nEND 2\n");
    assert_eq!(
        cleaned.lines,
        vec!["MOV 1, 1".to_string(), "END 2".to_string()]
    );
    assert_eq!(cleaned.metadata.origin, Some("2".to_string()));
    assert!(cleaned.warnings.is_empty());
}

#[test]
fn org_without_argument_warns() {
    let cleaned = Info::extract_from_string("ORG\nMOV 0, 1\n");
    assert_eq!(cleaned.lines, vec!["MOV 0, 1".to_string()]);
    assert_eq!(cleaned.metadata.origin, None);
    assert_eq!(cleaned.warnings, vec![Warning::MissingOriginArgument]);
}

#[test]
fn end_without_argument_is_kept() {
    let cleaned = Info::extract_from_string("MOV 1, 1\nEND\n");
    assert_eq!(cleaned.lines, vec!["MOV 1, 1".to_string(), "END".to_string()]);
    assert_eq!(cleaned.metadata.origin, None);
    assert!(cleaned.warnings.is_empty());
}

#[test]
fn comments_removed_and_blanks_dropped() {
    let cleaned = Info::extract_from_string("foo who\n; bar di bar\nbaz. ; bar\n\n   \n");
    assert_eq!(cleaned.lines, vec!["foo who".to_string(), "baz.".to_string()]);
    assert_eq!(cleaned.metadata, Info::default());
}

#[test]
fn remaining_tags_extracted() {
    let input = "; date 2020-01-01\n;version 1.2\n;assertion CORESIZE == 8000\nNOP 0";
    let cleaned = Info::extract_from_string(input);
    assert_eq!(cleaned.metadata.date, Some("2020-01-01".to_string()));
    assert_eq!(cleaned.metadata.version, Some("1.2".to_string()));
    assert_eq!(
        cleaned.metadata.assertion,
        Some("CORESIZE == 8000".to_string())
    );
    assert_eq!(cleaned.lines, vec!["NOP 0".to_string()]);
}

#[test]
fn last_tag_occurrence_wins() {
    let cleaned = Info::extract_from_string(";name first\n;name second\nNOP 0");
    assert_eq!(cleaned.metadata.name, Some("second".to_string()));
}

#[test]
fn commented_org_is_ignored() {
    let cleaned = Info::extract_from_string("ORG 5\nMOV 0, 1\n; ORG 4 behind comment ignored\n");
    assert_eq!(
        cleaned.lines,
        vec!["ORG 5".to_string(), "MOV 0, 1".to_string()]
    );
    assert_eq!(cleaned.metadata.origin, Some("5".to_string()));
}
