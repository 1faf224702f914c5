use corewars_parser::deserialize::deserialize;
use corewars_parser::error::ErrorKind;
use corewars_parser::load_file::{AddressMode, Field, Instruction, Modifier, Opcode};

fn lines(texts: &[&str]) -> Vec<String> {
    texts.iter().map(|s| s.to_string()).collect()
}

#[test]
fn parse_simple_file() {
    let simple_input = [
        "mov 1, 3",
        "mov 100, #12",
        "dat #0, #0",
        "jmp +123, #45",
        "jmp -4",
        "jmp -1",
    ]
    .iter()
    .map(|s| s.to_string())
    .collect();

    let expected_core = vec![
        Instruction::new(Opcode::Mov, Field::direct(1), Field::direct(3)),
        Instruction::new(Opcode::Mov, Field::direct(100), Field::immediate(12)),
        Instruction::new(Opcode::Dat, Field::immediate(0), Field::immediate(0)),
        Instruction::new(Opcode::Jmp, Field::direct(123), Field::immediate(45)),
        Instruction::new(Opcode::Jmp, Field::direct(-4), Field::direct(0)),
        Instruction::new(Opcode::Jmp, Field::direct(-1), Field::direct(0)),
    ];

    let parsed = deserialize(simple_input)
        .unwrap_or_else(|err| panic!("Failed to parse simple file: {:?}", err));

    assert_eq!(parsed, expected_core);
}

#[test]
fn modifier_computed_when_absent() {
    let parsed = deserialize(lines(&["mov 1, 3"])).unwrap();
    assert_eq!(
        parsed,
        vec![Instruction {
            opcode: Opcode::Mov,
            modifier: Modifier::I,
            field_a: Field::direct(1),
            field_b: Field::direct(3),
        }]
    );
}

#[test]
fn immediate_dat_defaults_to_f() {
    let parsed = deserialize(lines(&["dat #0, #0"])).unwrap();
    assert_eq!(
        parsed,
        vec![Instruction {
            opcode: Opcode::Dat,
            modifier: Modifier::F,
            field_a: Field::immediate(0),
            field_b: Field::immediate(0),
        }]
    );
}

#[test]
fn missing_field_b_defaults() {
    let parsed = deserialize(lines(&["jmp -4"])).unwrap();
    assert_eq!(
        parsed,
        vec![Instruction {
            opcode: Opcode::Jmp,
            modifier: Modifier::B,
            field_a: Field::direct(-4),
            field_b: Field::direct(0),
        }]
    );
}

#[test]
fn explicit_modifier_is_honoured() {
    let parsed = deserialize(lines(&["mov.ab #1, $2"])).unwrap();
    assert_eq!(
        parsed,
        vec![Instruction {
            opcode: Opcode::Mov,
            modifier: Modifier::AB,
            field_a: Field::immediate(1),
            field_b: Field::direct(2),
        }]
    );
}

#[test]
fn directive_and_label_lines_are_skipped() {
    let parsed = deserialize(lines(&["ORG 0", "start", "nop 0", "END"])).unwrap();
    assert_eq!(
        parsed,
        vec![Instruction::new(
            Opcode::Nop,
            Field::direct(0),
            Field::direct(0)
        )]
    );
}

#[test]
fn labelled_instruction_parses() {
    let parsed = deserialize(lines(&["start mov 1, 2"])).unwrap();
    assert_eq!(
        parsed,
        vec![Instruction::new(
            Opcode::Mov,
            Field::direct(1),
            Field::direct(2)
        )]
    );
}

#[test]
fn invalid_opcode_is_reported() {
    let err = deserialize(lines(&["nop 0", "start frobnicate 1, 2"])).unwrap_err();
    assert_eq!(err.kind, ErrorKind::InvalidOpcode);
    assert_eq!(err.token, "frobnicate");
    assert_eq!(err.line_number, 2);
    assert_eq!(err.line, "start frobnicate 1, 2");
}

#[test]
fn invalid_modifier_is_reported() {
    let err = deserialize(lines(&["mov.zz 1, 2"])).unwrap_err();
    assert_eq!(err.kind, ErrorKind::InvalidModifier);
    assert_eq!(err.token, "zz");
}

#[test]
fn invalid_address_mode_is_reported() {
    let err = deserialize(lines(&["mov %1, 2"])).unwrap_err();
    assert_eq!(err.kind, ErrorKind::InvalidAddressMode);
    assert_eq!(err.token, "%");
}

#[test]
fn malformed_instruction_is_reported() {
    let err = deserialize(lines(&["mov"])).unwrap_err();
    assert_eq!(err.kind, ErrorKind::MalformedInstruction);
}

#[test]
fn unresolved_symbol_in_field_is_reported() {
    let err = deserialize(lines(&["mov foo, 1"])).unwrap_err();
    assert_eq!(err.kind, ErrorKind::UnknownSymbol);
    assert_eq!(err.token, "foo");
}

#[test]
fn extreme_values_parse() {
    let parsed = deserialize(lines(&["dat 2147483647, -2147483648"])).unwrap();
    assert_eq!(parsed[0].field_a.value, i32::MAX);
    assert_eq!(parsed[0].field_b.value, i32::MIN);
}

#[test]
fn value_overflow_is_malformed() {
    let err = deserialize(lines(&["dat 2147483648"])).unwrap_err();
    assert_eq!(err.kind, ErrorKind::MalformedInstruction);
    assert_eq!(err.token, "2147483648");
}

#[test]
fn leading_zeros_and_plus_sign_accepted() {
    let parsed = deserialize(lines(&["mov +007, 0012"])).unwrap();
    assert_eq!(parsed[0].field_a.value, 7);
    assert_eq!(parsed[0].field_b.value, 12);
}

#[test]
fn rendered_instructions_parse_back_identically() {
    let original = deserialize(lines(&[
        "mov 1, 3",
        "mov.x {2, <7",
        "dat #0, #0",
        "jmp -4",
        "slt.ba }12, $-3",
    ]))
    .unwrap();
    let rendered: Vec<String> = original.iter().map(|inst| inst.to_string()).collect();
    let reparsed = deserialize(rendered).unwrap();
    assert_eq!(reparsed, original);
}

#[test]
fn mixed_case_opcode_and_modifier_parse() {
    let parsed = deserialize(lines(&["MoV.aB #1, $2"])).unwrap();
    assert_eq!(parsed[0].opcode, Opcode::Mov);
    assert_eq!(parsed[0].modifier, Modifier::AB);
    assert_eq!(parsed[0].field_a.address_mode, AddressMode::Immediate);
}

#[test]
fn all_sigils_parse_in_fields() {
    let parsed = deserialize(lines(&["mov #1, $2", "mov *3, @4", "mov {5, <6", "mov }7, >8"]))
        .unwrap();
    assert_eq!(parsed[0].field_a.address_mode, AddressMode::Immediate);
    assert_eq!(parsed[0].field_b.address_mode, AddressMode::Direct);
    assert_eq!(parsed[1].field_a.address_mode, AddressMode::IndirectA);
    assert_eq!(parsed[1].field_b.address_mode, AddressMode::IndirectB);
    assert_eq!(parsed[2].field_a.address_mode, AddressMode::PreDecIndirectA);
    assert_eq!(parsed[2].field_b.address_mode, AddressMode::PreDecIndirectB);
    assert_eq!(parsed[3].field_a.address_mode, AddressMode::PostIncIndirectA);
    assert_eq!(parsed[3].field_b.address_mode, AddressMode::PostIncIndirectB);
}

#[test]
fn empty_line_list_gives_no_instructions() {
    let parsed = deserialize(Vec::new()).unwrap();
    assert!(parsed.is_empty());
}
