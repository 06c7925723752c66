use assembler::errors::AsmError;
use assembler::generator::CodeGenerator;
use assembler::lexer::Lexer;
use assembler::parser::Parser;

fn assemble(src: &str) -> Result<Vec<u32>, AsmError> {
    let mut lexer = Lexer::new();
    let token_lines = lexer.tokenize(src.to_string())?;
    let parser = Parser::new(&lexer);
    let mut nodes = Vec::new();
    for line in token_lines {
        nodes.push(parser.parse_line(line)?);
    }
    Ok(CodeGenerator::generate(nodes))
}

#[test]
fn scenario_three_instructions() {
    // A label at the start, an immediate, a register operation, a backward
    // jump: three instruction words, the jump target resolves to address 0,
    // and the small immediate packs without an extension word.
    let words = assemble("START:\nSET RA 5\nADD RB RA RA\nJMP START\n").unwrap();
    assert_eq!(words.len(), 3);
    assert_eq!(words[0], 0x0340_0005);
    assert_eq!(words[1], 0x0500_1000);
    assert_eq!(words[2], 0x1E40_0000);
}

#[test]
fn boundary_immediate_fits_in_nibble() {
    let words = assemble("SET RA 15").unwrap();
    assert_eq!(words, vec![0x0340_000F]);
}

#[test]
fn boundary_immediate_needs_extension() {
    let words = assemble("SET RA 16").unwrap();
    assert_eq!(words, vec![0x0340_0001, 0x0000_0010]);
}

#[test]
fn no_extension_word_for_small_immediates() {
    for v in [0u32, 1, 7, 15] {
        let words = assemble(&format!("SET RA {}", v)).unwrap();
        assert_eq!(words.len(), 1, "value {} must not produce an extension", v);
        assert_eq!(words[0] & 0xF, v);
    }
}

#[test]
fn case_insensitive_assembly() {
    let lower = assemble("add ra rb rc").unwrap();
    let mixed = assemble("Add Ra rB RC").unwrap();
    let upper = assemble("ADD RA RB RC").unwrap();
    assert_eq!(lower, upper);
    assert_eq!(mixed, upper);
    assert_eq!(lower, vec![0x0500_0120]);
}

#[test]
fn case_insensitive_register_as_last_operand() {
    // A lower-case register name must pick register mode, not a label.
    assert_eq!(assemble("or ra").unwrap(), assemble("OR RA").unwrap());
    assert_eq!(assemble("or ra").unwrap(), vec![0x0A00_0000]);
}

#[test]
fn register_prefix_is_optional_and_single() {
    // A bare letter names a register; a doubled prefix does not.
    assert_eq!(assemble("ADD A B C").unwrap(), assemble("ADD RA RB RC").unwrap());
    assert_eq!(assemble("ADD RRA RB RC"), Err(AsmError::InvalidRegister));
}

#[test]
fn tabs_separate_fragments() {
    assert_eq!(assemble("ADD\tRA\tRB\tRC").unwrap(), assemble("ADD RA RB RC").unwrap());
}

#[test]
fn forward_and_backward_references_agree() {
    let words = assemble("JMP MID\nMID:\nADD RA RA RA\nJMP MID\n").unwrap();
    assert_eq!(words.len(), 3);
    // Both jumps embed MID's address, 4, whether the reference stands
    // before or after the definition.
    assert_eq!(words[0], words[2]);
    assert_eq!(words[0], 0x1E40_0004);
}

#[test]
fn label_address_is_four_per_instruction() {
    let words = assemble("SET RA 1\nSET RB 2\nHERE:\nJMP HERE\n").unwrap();
    assert_eq!(words.len(), 3);
    assert_eq!(words[2], 0x1E40_0008);
}

#[test]
fn first_label_definition_wins() {
    let words = assemble("X:\nSET RA 1\nX:\nJMP X\n").unwrap();
    assert_eq!(words[1], 0x1E40_0000);
}

#[test]
fn label_lookup_is_case_insensitive() {
    let words = assemble("loop:\nJMP LOOP\n").unwrap();
    assert_eq!(words, vec![0x1E40_0000]);
}

#[test]
fn determinism_same_source_same_words() {
    let src = "START:\nSET RA 5\nADD RB RA RA\nJMP START\n";
    assert_eq!(assemble(src).unwrap(), assemble(src).unwrap());
}

#[test]
fn comments_and_commas_are_stripped() {
    let plain = assemble("ADD RA, RB, RC ; sum into RA").unwrap();
    assert_eq!(plain, assemble("ADD RA RB RC").unwrap());
}

#[test]
fn blank_lines_do_not_advance_addresses() {
    let with_blanks = assemble("\n\nSET RA 1\n\n; only a comment\nDONE:\nJMP DONE\n").unwrap();
    assert_eq!(with_blanks[1], 0x1E40_0004);
}

#[test]
fn register_indirect_mode() {
    // MOV RA [RB]: register-indirect mode, operands RA then RB.
    let words = assemble("MOV RA [RB]").unwrap();
    assert_eq!(words, vec![0x0480_0100]);
}

#[test]
fn lone_mnemonic_is_register_mode() {
    let words = assemble("RET").unwrap();
    assert_eq!(words, vec![0x2000_0000]);
}

#[test]
fn register_mode_last_operand() {
    // SUB RA RB RC: 0x06 opcode, register mode, nibbles 0,1,2.
    let words = assemble("SUB RA RB RC").unwrap();
    assert_eq!(words, vec![0x0600_0120]);
}

#[test]
fn hex_and_binary_immediates() {
    assert_eq!(assemble("SET RA 0xFF").unwrap(), vec![0x0340_0001, 0xFF]);
    assert_eq!(assemble("SET RA 0b101").unwrap(), vec![0x0340_0005]);
}

#[test]
fn empty_source_produces_no_words() {
    assert_eq!(assemble("").unwrap(), vec![]);
    assert_eq!(assemble("; nothing but a comment\n").unwrap(), vec![]);
}

#[test]
fn too_many_tokens_aborts() {
    assert_eq!(assemble("SET RA RB RC 5"), Err(AsmError::TooManyTokens));
}

#[test]
fn unknown_instruction_aborts() {
    assert_eq!(assemble("FROB RA"), Err(AsmError::UnknownInstruction));
}

#[test]
fn invalid_register_aborts() {
    assert_eq!(assemble("ADD RZ RA RA"), Err(AsmError::InvalidRegister));
    assert_eq!(assemble("MOV RA [RZ]"), Err(AsmError::InvalidRegister));
}

#[test]
fn malformed_literal_aborts() {
    assert_eq!(assemble("SET RA 0xZZ"), Err(AsmError::MalformedNumericLiteral));
    assert_eq!(assemble("SET RA 0b12"), Err(AsmError::MalformedNumericLiteral));
}

#[test]
fn digit_led_fragment_without_marker_is_a_label() {
    // Only a 0x/0b marker makes a fragment a literal for sure; a digit-led
    // name is a label reference, definable and resolvable like any other.
    assert_eq!(assemble("9q:\nJMP 9q\n").unwrap(), vec![0x1E40_0000]);
    assert_eq!(assemble("SET RA 9q"), Err(AsmError::UndefinedLabel));
}

#[test]
fn undefined_label_aborts() {
    assert_eq!(assemble("JMP NOWHERE"), Err(AsmError::UndefinedLabel));
}

#[test]
fn error_aborts_whole_run_without_output() {
    // One defective line invalidates the build even when others are fine.
    assert_eq!(
        assemble("SET RA 1\nSET RA RB RC 5\nSET RB 2\n"),
        Err(AsmError::TooManyTokens)
    );
}

#[test]
fn base_offset_token_is_rejected_by_the_parser() {
    // `[Rx+imm]` tokenizes as a base-offset token, which the parser's
    // operand fold refuses as an internal-consistency defect.
    assert_eq!(assemble("SD RA [RB+4]"), Err(AsmError::InternalTokenInvariant));
}
