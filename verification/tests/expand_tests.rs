use corewars_parser::error::ErrorKind;
use corewars_parser::expand::expand;

fn lines(texts: &[&str]) -> Vec<String> {
    texts.iter().map(|s| s.to_string()).collect()
}

#[test]
fn label_offsets_are_position_relative() {
    // "fwd" is declared at instruction index 1; the references stand in
    // the instructions at indexes 0, 1 and 2.
    let input = lines(&["MOV 0, fwd", "fwd", "MOV 0, fwd", "MOV fwd, 0"]);
    let expanded = expand(input, None).unwrap();
    assert_eq!(
        expanded.lines,
        lines(&["MOV 0, 1", "MOV 0, 0", "MOV -1, 0"])
    );
    assert_eq!(expanded.origin, None);
}

#[test]
fn undefined_label_is_unknown_symbol() {
    let err = expand(lines(&["MOV 0, nowhere"]), None).unwrap_err();
    assert_eq!(err.kind, ErrorKind::UnknownSymbol);
    assert_eq!(err.token, "nowhere");
    assert_eq!(err.line, "MOV 0, nowhere");
    assert_eq!(err.line_number, 1);
}

#[test]
fn equ_is_textual_substitution() {
    let expanded = expand(lines(&["step EQU 4", "MOV step, step"]), None).unwrap();
    assert_eq!(expanded.lines, lines(&["MOV 4, 4"]));
}

#[test]
fn nested_equ_definitions_expand() {
    let expanded = expand(
        lines(&["outer EQU inner", "inner EQU 2", "MOV outer, 0"]),
        None,
    )
    .unwrap();
    assert_eq!(expanded.lines, lines(&["MOV 2, 0"]));
}

#[test]
fn origin_resolves_to_absolute_index() {
    let input = lines(&["ORG start", "MOV 0, 1", "start", "MOV 2, 3"]);
    let expanded = expand(input, Some("start".to_string())).unwrap();
    assert_eq!(
        expanded.lines,
        lines(&["ORG 1", "MOV 0, 1", "MOV 2, 3"])
    );
    assert_eq!(expanded.origin, Some("1".to_string()));
}

#[test]
fn numeric_origin_is_kept() {
    let expanded = expand(lines(&["MOV 0, 1"]), Some("5".to_string())).unwrap();
    assert_eq!(expanded.origin, Some("5".to_string()));
}

#[test]
fn undefined_origin_is_unknown_symbol() {
    let err = expand(lines(&["MOV 0, 1"]), Some("missing".to_string())).unwrap_err();
    assert_eq!(err.kind, ErrorKind::UnknownSymbol);
    assert_eq!(err.token, "missing");
}

#[test]
fn label_lines_are_removed() {
    let input = lines(&["top", "MOV 0, top", "bottom", "JMP bottom, 0"]);
    let expanded = expand(input, None).unwrap();
    assert_eq!(expanded.lines, lines(&["MOV 0, 0", "JMP 0, 0"]));
}

#[test]
fn lines_without_symbols_pass_through() {
    let input = lines(&["MOV.AB #1, $2", "DAT #0, #0"]);
    let expanded = expand(input, None).unwrap();
    assert_eq!(expanded.lines, lines(&["MOV.AB #1, $2", "DAT #0, #0"]));
}

#[test]
fn first_label_binding_wins() {
    let input = lines(&["dup", "MOV 0, dup", "dup", "MOV 0, dup"]);
    let expanded = expand(input, None).unwrap();
    assert_eq!(expanded.lines, lines(&["MOV 0, 0", "MOV 0, -1"]));
}

#[test]
fn equ_replacement_may_hold_several_tokens() {
    let expanded = expand(lines(&["both EQU 4, 5", "MOV both"]), None).unwrap();
    assert_eq!(expanded.lines, lines(&["MOV 4, 5"]));
}

#[test]
fn equ_keyword_is_case_insensitive() {
    let expanded = expand(lines(&["step equ 7", "MOV step, 0"]), None).unwrap();
    assert_eq!(expanded.lines, lines(&["MOV 7, 0"]));
}
