use corewars_parser::load_file::{AddressMode, Core, Field, Instruction, Modifier, Opcode};
use corewars_parser::load_file::Opcode::{
    Add, Cmp, Dat, Div, Djn, Jmn, Jmp, Jmz, Mod, Mov, Mul, Nop, SkipEq, Slt, Sne, Spl, Sub,
};

fn all_modes() -> Vec<AddressMode> {
    ["#", "$", "@", "<", ">", "*", "{", "}"]
        .iter()
        .map(|mode_str| AddressMode::from_str(mode_str).unwrap())
        .collect()
}

#[test]
fn default_instruction() {
    let expected_instruction = Instruction {
        opcode: Opcode::Dat,
        modifier: Modifier::F,
        field_a: Field {
            address_mode: AddressMode::Direct,
            value: 0,
        },
        field_b: Field {
            address_mode: AddressMode::Direct,
            value: 0,
        },
    };

    assert_eq!(Instruction::default(), expected_instruction)
}

#[test]
fn dat_from_context() {
    for &a_mode in all_modes().iter() {
        for &b_mode in all_modes().iter() {
            assert_eq!(
                Modifier::from_context(Opcode::Dat, a_mode, b_mode),
                Modifier::F
            );
        }
    }
}

#[test]
fn modifier_b_from_context() {
    let opcodes = [Jmp, Jmz, Jmn, Djn, Spl, Nop];

    for &a_mode in all_modes().iter() {
        for &b_mode in all_modes().iter() {
            for &opcode in opcodes.iter() {
                assert_eq!(Modifier::from_context(opcode, a_mode, b_mode), Modifier::B);
            }
        }
    }

    let a_modes: Vec<AddressMode> = ["$", "@", "<", ">", "*", "{", "}"]
        .iter()
        .map(|mode_str| AddressMode::from_str(mode_str).unwrap())
        .collect();

    for &a_mode in a_modes.iter() {
        for &b_mode in all_modes().iter() {
            assert_eq!(
                Modifier::from_context(Opcode::Slt, a_mode, b_mode),
                Modifier::B
            )
        }
    }
}

#[test]
fn modifier_ab_from_context() {
    let opcodes = [Mov, Cmp, SkipEq, Sne, Add, Sub, Mul, Div, Mod, Slt];

    for &b_mode in all_modes().iter() {
        for &opcode in opcodes.iter() {
            assert_eq!(
                Modifier::from_context(opcode, AddressMode::Immediate, b_mode),
                Modifier::AB
            );
        }
    }
}

fn all_opcodes() -> Vec<Opcode> {
    vec![
        Dat, Mov, Add, Sub, Mul, Div, Mod, Jmp, Jmz, Jmn, Djn, Cmp, SkipEq, Sne, Slt, Spl, Nop,
    ]
}

#[test]
fn opcode_text_bijection() {
    for &op in all_opcodes().iter() {
        let text = op.to_string();
        assert_eq!(Opcode::from_str(&text), Some(op));
        assert_eq!(Opcode::from_str(&text.to_lowercase()), Some(op));
    }
    assert_eq!(Opcode::from_str("MoV"), Some(Opcode::Mov));
    assert_eq!(Opcode::from_str("seq"), Some(Opcode::SkipEq));
    assert_eq!(Opcode::from_str("XYZ"), None);
    assert_eq!(Opcode::from_str(""), None);
}

#[test]
fn modifier_text_bijection() {
    for &m in [
        Modifier::A,
        Modifier::B,
        Modifier::AB,
        Modifier::BA,
        Modifier::F,
        Modifier::X,
        Modifier::I,
    ]
    .iter()
    {
        let text = m.to_string();
        assert_eq!(Modifier::from_str(&text), Some(m));
        assert_eq!(Modifier::from_str(&text.to_lowercase()), Some(m));
    }
    assert_eq!(Modifier::from_str("aB"), Some(Modifier::AB));
    assert_eq!(Modifier::from_str("Q"), None);
}

#[test]
fn address_mode_text_bijection() {
    for &m in all_modes().iter() {
        let text = m.to_string();
        assert_eq!(AddressMode::from_str(&text), Some(m));
    }
    assert_eq!(AddressMode::from_str("%"), None);
    assert_eq!(AddressMode::from_str("##"), None);
}

#[test]
fn field_rendering() {
    assert_eq!(Field::direct(7).to_string(), "$7");
    assert_eq!(Field::immediate(-5).to_string(), "#-5");
    assert_eq!(Field::direct(0).to_string(), "$0");
}

#[test]
fn instruction_rendering() {
    let inst = Instruction::new(Opcode::Mov, Field::direct(1), Field::direct(3));
    assert_eq!(inst.to_string(), "MOV.I $1, $3");
    let jmp = Instruction::new(Opcode::Jmp, Field::direct(-4), Field::immediate(0));
    assert_eq!(jmp.to_string(), "JMP.B $-4, #0");
}

#[test]
fn core_get_and_set() {
    let mut core = Core::new(10);
    assert_eq!(core.get(0), Some(&Instruction::default()));
    assert_eq!(core.get(10), None);
    let inst = Instruction::new(Opcode::Mov, Field::direct(1), Field::direct(3));
    core.set(3, inst);
    assert_eq!(core.get(3), Some(&inst));
}

#[test]
fn core_default_size() {
    let core = Core::default();
    assert_eq!(core.get(7999).copied(), Some(Instruction::default()));
    assert_eq!(core.get(8000), None);
}

#[test]
fn core_dump_skips_defaults() {
    let mut core = Core::new(4);
    core.set(2, Instruction::new(Opcode::Mov, Field::direct(1), Field::direct(3)));
    assert_eq!(core.dump(), "MOV.I $1, $3\n");
    let all = core.dump_all();
    assert_eq!(
        all,
        "DAT.F $0, $0\nDAT.F $0, $0\nMOV.I $1, $3\nDAT.F $0, $0\n"
    );
}

#[test]
fn core_equality_is_elementwise() {
    let mut a = Core::new(4);
    let b = Core::new(4);
    assert!(a == b);
    a.set(1, Instruction::new(Opcode::Spl, Field::direct(2), Field::direct(0)));
    assert!(a != b);
}
