use assembler::generator::encode_instruction;
use assembler::instructions::{InstructionMode, Instructions};
use assembler::lexer::Lexer;
use assembler::parser::Parser;
use assembler::token::Token;
use assembler::utils::{cleanup_line, register_to_byte, string_to_u32, Parameter};
use assembler::errors::AsmError;

#[test]
fn cleanup_line_strips_comment_commas_and_blanks() {
    let frags = cleanup_line("  ADD RA, RB ,RC ; add them up");
    assert_eq!(frags, vec!["ADD", "RA", "RB", "RC"]);
}

#[test]
fn cleanup_line_of_comment_only_is_empty() {
    assert!(cleanup_line("; nothing here").is_empty());
    assert!(cleanup_line("   ").is_empty());
    assert!(cleanup_line("").is_empty());
}

#[test]
fn cleanup_line_joins_around_commas() {
    // Commas are removed, not treated as separators.
    assert_eq!(cleanup_line("A,B C"), vec!["AB", "C"]);
}

#[test]
fn cleanup_line_splits_on_any_blank() {
    assert_eq!(cleanup_line("A\tB"), vec!["A", "B"]);
    assert_eq!(cleanup_line("ADD\tRA \t RB"), vec!["ADD", "RA", "RB"]);
}

#[test]
fn string_to_u32_decimal() {
    assert_eq!(string_to_u32("123"), Some(123));
    assert_eq!(string_to_u32("0"), Some(0));
    assert_eq!(string_to_u32("+5"), Some(5));
    assert_eq!(string_to_u32("-0"), Some(0));
    assert_eq!(string_to_u32("-1"), None);
    assert_eq!(string_to_u32("4294967295"), Some(u32::MAX));
    assert_eq!(string_to_u32("4294967296"), None);
    assert_eq!(string_to_u32(""), None);
    assert_eq!(string_to_u32("12a"), None);
}

#[test]
fn string_to_u32_hex() {
    assert_eq!(string_to_u32("0x1A"), Some(26));
    assert_eq!(string_to_u32("0XFF"), Some(255));
    assert_eq!(string_to_u32("0xFFFFFFFF"), Some(u32::MAX));
    assert_eq!(string_to_u32("0x100000000"), None);
    assert_eq!(string_to_u32("0xZZ"), None);
    assert_eq!(string_to_u32("0x"), None);
    // The marker counts only as a prefix.
    assert_eq!(string_to_u32("10x"), None);
}

#[test]
fn string_to_u32_binary() {
    assert_eq!(string_to_u32("0b101"), Some(5));
    assert_eq!(string_to_u32("0B1111"), Some(15));
    assert_eq!(string_to_u32("0b102"), None);
}

#[test]
fn register_to_byte_table() {
    assert_eq!(register_to_byte("A"), Some(0x0));
    assert_eq!(register_to_byte("a"), Some(0x0));
    assert_eq!(register_to_byte("P"), Some(0xF));
    assert_eq!(register_to_byte("p"), Some(0xF));
    assert_eq!(register_to_byte("H"), Some(0x7));
    assert_eq!(register_to_byte("Q"), None);
    assert_eq!(register_to_byte("AB"), None);
    assert_eq!(register_to_byte(""), None);
    assert_eq!(register_to_byte("5"), None);
}

#[test]
fn opcode_numeric_round_trip() {
    assert!(matches!(Instructions::from_u8(0x00), Some(Instructions::HLT)));
    assert!(matches!(Instructions::from_u8(0x03), Some(Instructions::SET)));
    assert!(matches!(Instructions::from_u8(0x20), Some(Instructions::RET)));
    assert!(Instructions::from_u8(0x21).is_none());
    assert_eq!(Instructions::SET.to_u8(), 0x03);
    assert_eq!(Instructions::JMP.to_u8(), 0x1E);
    assert_eq!(Instructions::RET.mnemonic(), "RET");
}

#[test]
fn mnemonic_lookup_is_case_insensitive() {
    assert!(matches!(Instructions::from_mnemonic("add"), Some(Instructions::ADD)));
    assert!(matches!(Instructions::from_mnemonic("Add"), Some(Instructions::ADD)));
    assert!(matches!(Instructions::from_mnemonic("ld16s"), Some(Instructions::LD16S)));
    assert!(Instructions::from_mnemonic("nope").is_none());
}

#[test]
fn encode_register_mode_packs_nibbles() {
    let words = encode_instruction(Instructions::ADD, InstructionMode::Register, &[1, 2, 3]);
    assert_eq!(words, vec![0x0500_1230, 0]);
}

#[test]
fn encode_masks_operands_to_nibbles() {
    let words = encode_instruction(Instructions::ADD, InstructionMode::Register, &[0x12, 0x23]);
    assert_eq!(words[0], 0x0500_2300);
}

#[test]
fn encode_base_offset_mode_bits() {
    let words = encode_instruction(Instructions::SD, InstructionMode::BaseOffset, &[1, 2]);
    assert_eq!(words, vec![0x0FC0_1200, 0]);
}

#[test]
fn encode_immediate_extension_flag_and_word() {
    let words = encode_instruction(Instructions::SET, InstructionMode::Immediate, &[0, 0x1234]);
    assert_eq!(words, vec![0x0340_0001, 0x1234]);
}

#[test]
fn encode_is_deterministic() {
    let a = encode_instruction(Instructions::MUL, InstructionMode::Immediate, &[2, 0x99]);
    let b = encode_instruction(Instructions::MUL, InstructionMode::Immediate, &[2, 0x99]);
    assert_eq!(a, b);
}

#[test]
fn get_label_address_finds_first_definition() {
    let mut lexer = Lexer::new();
    lexer.label_prepass("one:\nSET RA 1\ntwo:\nJMP one\n".to_string());
    assert_eq!(lexer.get_label_address("ONE"), Some(0));
    assert_eq!(lexer.get_label_address("one"), Some(0));
    assert_eq!(lexer.get_label_address("TWO"), Some(4));
    assert_eq!(lexer.get_label_address("three"), None);
}

#[test]
fn label_name_is_text_before_first_colon() {
    let mut lexer = Lexer::new();
    lexer.label_prepass("ONE:TWO\n".to_string());
    assert_eq!(lexer.get_label_address("ONE"), Some(0));
    assert_eq!(lexer.get_label_address("ONETWO"), None);
    assert_eq!(lexer.get_label_address("TWO"), None);
}

#[test]
fn label_on_instruction_line_does_not_advance() {
    let mut lexer = Lexer::new();
    lexer.label_prepass("L: SET RA 1\nM:\n".to_string());
    // The label line keeps the address at zero even though the rest of the
    // line is retained as an instruction.
    assert_eq!(lexer.get_label_address("L"), Some(0));
    assert_eq!(lexer.get_label_address("M"), Some(0));
}

#[test]
fn tokenize_inserts_mode_as_second_token() {
    let mut lexer = Lexer::new();
    let lines = lexer.tokenize("SET RA 5".to_string()).unwrap();
    assert_eq!(lines.len(), 1);
    let ts = &lines[0];
    assert!(matches!(ts[0], Token::OpCode(Instructions::SET)));
    assert!(matches!(ts[1], Token::Mode(InstructionMode::Immediate)));
    assert!(matches!(ts[2], Token::Register(0)));
    assert!(matches!(ts[3], Token::Value(5)));
}

#[test]
fn tokenize_base_offset_operand() {
    let mut lexer = Lexer::new();
    let lines = lexer.tokenize("SD RA [RB+0x10]".to_string()).unwrap();
    let ts = &lines[0];
    assert!(matches!(ts[1], Token::Mode(InstructionMode::BaseOffset)));
    assert!(matches!(ts[3], Token::BaseOffset(1, 0x10)));
}

#[test]
fn tokenize_label_reference_is_immediate_mode() {
    let mut lexer = Lexer::new();
    let lines = lexer.tokenize("JMP somewhere\nSOMEWHERE:\n".to_string()).unwrap();
    let ts = &lines[0];
    assert!(matches!(ts[1], Token::Mode(InstructionMode::Immediate)));
    assert!(matches!(&ts[2], Token::Label(name) if name.as_str() == "somewhere"));
}

#[test]
fn parse_line_rejects_malformed_token_sequences() {
    let lexer = Lexer::new();
    let parser = Parser::new(&lexer);
    assert_eq!(
        parser.parse_line(vec![Token::Register(0)]).map(|_| ()),
        Err(AsmError::InternalTokenInvariant)
    );
    assert_eq!(
        parser
            .parse_line(vec![Token::Register(0), Token::Mode(InstructionMode::Register)])
            .map(|_| ()),
        Err(AsmError::InternalTokenInvariant)
    );
    assert_eq!(
        parser
            .parse_line(vec![
                Token::OpCode(Instructions::ADD),
                Token::Mode(InstructionMode::Register),
                Token::Mode(InstructionMode::Register),
            ])
            .map(|_| ()),
        Err(AsmError::InternalTokenInvariant)
    );
}

#[test]
fn parse_line_builds_node_in_order() {
    let lexer = Lexer::new();
    let parser = Parser::new(&lexer);
    let node = parser
        .parse_line(vec![
            Token::OpCode(Instructions::ADD),
            Token::Mode(InstructionMode::Register),
            Token::Register(3),
            Token::Value(7),
        ])
        .unwrap();
    assert!(matches!(node.op_code, Instructions::ADD));
    assert!(matches!(node.mode, InstructionMode::Register));
    assert_eq!(node.args, vec![3, 7]);
    assert_eq!(node.token_repr, "ADD");
}

#[test]
fn parameter_returns_its_value() {
    let p = Parameter { value: 17 };
    assert_eq!(p.get_value(), 17);
}
