use register_machine::program::instruction::{
    ArgumentType, Decrement, Increment, Instruction, JumpNotZero, ParseError,
};
use register_machine::program::Program;

fn chars(s: &str) -> Vec<char> {
    s.chars().collect()
}

#[test]
fn classifies_register_names() {
    assert_eq!(
        Instruction::parse_argument_type("a").unwrap(),
        ArgumentType::Register(0)
    );
    assert_eq!(
        Instruction::parse_argument_type("b").unwrap(),
        ArgumentType::Register(1)
    );
    assert_eq!(
        Instruction::parse_argument_type("c").unwrap(),
        ArgumentType::Register(2)
    );
    assert_eq!(
        Instruction::parse_argument_type("d").unwrap(),
        ArgumentType::Register(3)
    );
}

#[test]
fn classifies_signed_literals() {
    assert_eq!(
        Instruction::parse_argument_type("5").unwrap(),
        ArgumentType::Number(5)
    );
    assert_eq!(
        Instruction::parse_argument_type("-12").unwrap(),
        ArgumentType::Number(-12)
    );
    assert_eq!(
        Instruction::parse_argument_type("+7").unwrap(),
        ArgumentType::Number(7)
    );
    assert_eq!(
        Instruction::parse_argument_type("-0").unwrap(),
        ArgumentType::Number(0)
    );
    assert_eq!(
        Instruction::parse_argument_type("007").unwrap(),
        ArgumentType::Number(7)
    );
    assert_eq!(
        Instruction::parse_argument_type("2147483647").unwrap(),
        ArgumentType::Number(i32::MAX)
    );
    assert_eq!(
        Instruction::parse_argument_type("-2147483648").unwrap(),
        ArgumentType::Number(i32::MIN)
    );
}

#[test]
fn rejects_tokens_that_are_no_operands() {
    for bad in ["", "e", "z", "1.5", "0x10", "--3", "+", "-", "5 ", " 5"] {
        match Instruction::parse_argument_type(bad) {
            Err(ParseError::InvalidArgument { token }) => assert_eq!(token, chars(bad)),
            other => panic!("{:?} classified as {:?}", bad, other),
        }
    }
}

#[test]
fn rejects_literals_outside_32_bits() {
    for bad in ["2147483648", "-2147483649", "99999999999999999999"] {
        match Instruction::parse_argument_type(bad) {
            Err(ParseError::InvalidArgument { token }) => assert_eq!(token, chars(bad)),
            other => panic!("{:?} classified as {:?}", bad, other),
        }
    }
}

#[test]
fn parses_each_mnemonic() {
    assert_eq!(
        Instruction::parse("cpy 5 a").unwrap(),
        Instruction::Copy(register_machine::program::instruction::Copy {
            source: ArgumentType::Number(5),
            destination: 0,
        })
    );
    assert_eq!(
        Instruction::parse("cpy b c").unwrap(),
        Instruction::Copy(register_machine::program::instruction::Copy {
            source: ArgumentType::Register(1),
            destination: 2,
        })
    );
    assert_eq!(
        Instruction::parse("inc b").unwrap(),
        Instruction::Increment(Increment { target: 1 })
    );
    assert_eq!(
        Instruction::parse("dec d").unwrap(),
        Instruction::Decrement(Decrement { target: 3 })
    );
    assert_eq!(
        Instruction::parse("jnz a -2").unwrap(),
        Instruction::JumpNotZero(JumpNotZero {
            target: ArgumentType::Register(0),
            jump_distance: ArgumentType::Number(-2),
        })
    );
}

#[test]
fn trims_lines_and_ignores_extra_tokens() {
    assert_eq!(
        Instruction::parse("  inc a \t").unwrap(),
        Instruction::Increment(Increment { target: 0 })
    );
    assert_eq!(
        Instruction::parse("inc a junk").unwrap(),
        Instruction::Increment(Increment { target: 0 })
    );
}

#[test]
fn doubled_spaces_make_empty_operands() {
    match Instruction::parse("inc  a") {
        Err(ParseError::InvalidArgument { token }) => assert_eq!(token, chars("")),
        other => panic!("parsed as {:?}", other),
    }
}

#[test]
fn unknown_mnemonics_are_named() {
    match Instruction::parse("foo 1") {
        Err(ParseError::UnknownMnemonic { token }) => assert_eq!(token, chars("foo")),
        other => panic!("parsed as {:?}", other),
    }
    match Instruction::parse("") {
        Err(ParseError::UnknownMnemonic { token }) => assert_eq!(token, chars("")),
        other => panic!("parsed as {:?}", other),
    }
    match Instruction::parse("CPY 1 a") {
        Err(ParseError::UnknownMnemonic { token }) => assert_eq!(token, chars("CPY")),
        other => panic!("parsed as {:?}", other),
    }
}

#[test]
fn missing_operands_are_named() {
    match Instruction::parse("cpy") {
        Err(ParseError::MissingOperand { mnemonic, position }) => {
            assert_eq!(mnemonic, chars("cpy"));
            assert_eq!(position, 1);
        }
        other => panic!("parsed as {:?}", other),
    }
    match Instruction::parse("cpy 5") {
        Err(ParseError::MissingOperand { mnemonic, position }) => {
            assert_eq!(mnemonic, chars("cpy"));
            assert_eq!(position, 2);
        }
        other => panic!("parsed as {:?}", other),
    }
    match Instruction::parse("inc") {
        Err(ParseError::MissingOperand { mnemonic, position }) => {
            assert_eq!(mnemonic, chars("inc"));
            assert_eq!(position, 1);
        }
        other => panic!("parsed as {:?}", other),
    }
    match Instruction::parse("dec") {
        Err(ParseError::MissingOperand { mnemonic, position }) => {
            assert_eq!(mnemonic, chars("dec"));
            assert_eq!(position, 1);
        }
        other => panic!("parsed as {:?}", other),
    }
    match Instruction::parse("jnz 1") {
        Err(ParseError::MissingOperand { mnemonic, position }) => {
            assert_eq!(mnemonic, chars("jnz"));
            assert_eq!(position, 2);
        }
        other => panic!("parsed as {:?}", other),
    }
}

#[test]
fn register_required_positions_reject_numbers() {
    match Instruction::parse("cpy 1 2") {
        Err(ParseError::InvalidDestination { mnemonic }) => assert_eq!(mnemonic, chars("cpy")),
        other => panic!("parsed as {:?}", other),
    }
    match Instruction::parse("inc 5") {
        Err(ParseError::InvalidDestination { mnemonic }) => assert_eq!(mnemonic, chars("inc")),
        other => panic!("parsed as {:?}", other),
    }
    match Instruction::parse("dec -1") {
        Err(ParseError::InvalidDestination { mnemonic }) => assert_eq!(mnemonic, chars("dec")),
        other => panic!("parsed as {:?}", other),
    }
}

#[test]
fn per_instruction_parsers_agree_with_dispatch() {
    assert_eq!(
        Instruction::Copy(register_machine::program::instruction::Copy::parse("5", "a").unwrap()),
        Instruction::parse("cpy 5 a").unwrap()
    );
    assert_eq!(
        Instruction::Increment(Increment::parse("c").unwrap()),
        Instruction::parse("inc c").unwrap()
    );
    assert_eq!(
        Instruction::Decrement(Decrement::parse("c").unwrap()),
        Instruction::parse("dec c").unwrap()
    );
    assert_eq!(
        Instruction::JumpNotZero(JumpNotZero::parse("d", "-1").unwrap()),
        Instruction::parse("jnz d -1").unwrap()
    );
}

#[test]
fn parse_str_keeps_instruction_order_and_skips_blanks() {
    let text = "cpy 5 a\n\n  \t\ninc a\ndec b\n";
    let parsed = Instruction::parse_str(text).unwrap();
    assert_eq!(parsed.len(), 3);
    assert_eq!(
        parsed[0],
        Instruction::Copy(register_machine::program::instruction::Copy {
            source: ArgumentType::Number(5),
            destination: 0,
        })
    );
    assert_eq!(
        parsed[1],
        Instruction::Increment(Increment { target: 0 })
    );
    assert_eq!(
        parsed[2],
        Instruction::Decrement(Decrement { target: 1 })
    );
}

#[test]
fn reparsing_identical_text_yields_identical_instructions() {
    let text = "cpy -3 d\ninc d\njnz d -1\n\ndec a";
    let first = Instruction::parse_str(text).unwrap();
    let second = Instruction::parse_str(text).unwrap();
    assert_eq!(first, second);
}

#[test]
fn first_malformed_line_is_reported() {
    match Instruction::parse_str("inc a\nbad 1\ncpy 5") {
        Err(ParseError::UnknownMnemonic { token }) => assert_eq!(token, chars("bad")),
        other => panic!("parsed as {:?}", other),
    }
}

#[test]
fn malformed_text_never_builds_a_program() {
    assert!(Program::from_str("cpy 5 a\nbogus").is_err());
    assert!(Program::from_str("inc 5").is_err());
    assert!(Program::from_str("cpy 1 2").is_err());
    assert!(Program::from_str("jnz q 1").is_err());
    assert!(Program::from_str("cpy 2147483648 a").is_err());
}
