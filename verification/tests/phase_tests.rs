use corewars_parser::error::ErrorKind;
use corewars_parser::load_file::{Core, Field, Instruction, Opcode};
use corewars_parser::phase::{parse, Clean, Deserialized, Expand, Phase, Raw};

#[test]
fn transitions() {
    let raw_phase = Phase::<Raw>::from_str(
        ";redcode\n; author Ian Chamberlain\nORG start\nEQU thing 4\nMOV thing, 0\nstart\nMOV thing, thing+1",
    );

    let _clean_phase = Phase::<Clean>::from(raw_phase);
}

#[test]
fn pipeline_runs_all_phases() {
    let raw = Phase::<Raw>::from_str(
        ";author Somebody\nORG start\nstart\nMOV 0, step\nstep\nJMP start, 0\n",
    );
    let cleaned = Phase::<Clean>::from(raw);
    assert_eq!(cleaned.state.metadata.origin, Some("start".to_string()));
    let expanded = Phase::<Expand>::try_from(cleaned).unwrap();
    assert_eq!(expanded.state.metadata.origin, Some("0".to_string()));
    let done = Phase::<Deserialized>::try_from(expanded).unwrap();
    assert_eq!(
        done.state.instructions,
        vec![
            Instruction::new(Opcode::Mov, Field::direct(0), Field::direct(1)),
            Instruction::new(Opcode::Jmp, Field::direct(-1), Field::direct(0)),
        ]
    );
}

#[test]
fn parse_reports_unknown_symbol() {
    let err = match parse("MOV 0, nowhere\n") {
        Ok(_) => panic!("expected an unknown-symbol failure"),
        Err(e) => e,
    };
    assert_eq!(err.kind, ErrorKind::UnknownSymbol);
    assert_eq!(err.token, "nowhere");
}

#[test]
fn dumped_core_parses_back_identically() {
    let program = "; name imp-and-friends\nstart\nMOV 0, 1\nADD.AB #4, 3\nJMP start, <2\n";
    let first = parse(program).unwrap();
    let instructions = first.state.instructions;

    let mut core = Core::new(instructions.len());
    for (i, inst) in instructions.iter().enumerate() {
        core.set(i, *inst);
    }
    let dumped = core.dump_all();

    let second = parse(&dumped).unwrap();
    assert_eq!(second.state.instructions, instructions);
}

#[test]
fn parse_empty_input_yields_no_instructions() {
    let done = parse("; just a comment\n").unwrap();
    assert!(done.state.instructions.is_empty());
    assert_eq!(done.state.metadata.origin, None);
}
