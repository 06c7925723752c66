use vstd::prelude::*;

verus! {

/// The ways an assembly run can fail.  Any one of them aborts the whole
/// build: there is no per-line recovery and no partial output.
#[derive(Clone, Copy, Debug, PartialEq, Eq, Structural)]
pub enum AsmError {
    /// The first fragment of a line is not a known mnemonic.
    UnknownInstruction,
    /// An operand that must be a register does not name one of the
    /// sixteen registers `RA` through `RP`.
    InvalidRegister,
    /// A line holds more than four fragments.
    TooManyTokens,
    /// A fragment that looks numeric does not parse as a hexadecimal,
    /// binary or decimal literal.
    MalformedNumericLiteral,
    /// An operand refers to a label that no line defines.
    UndefinedLabel,
    /// A token sequence handed to the parser does not have the shape the
    /// lexer promises (opcode first, mode second, plain operands after).
    InternalTokenInvariant,
}

} // verus!
