use vstd::prelude::*;
use vstd::string::*;

use crate::chars::{case_eq, chars_eq_str, str_to_chars, upper_chars, upper_seq};

verus! {

/// The closed, densely numbered set of mnemonics.  The numeric value of an
/// opcode doubles as the high byte of its encoded instruction word.
#[derive(Debug, Copy, Clone, PartialEq, Eq, Structural)]
pub enum Instructions {
    HLT,
    PSH,
    POP,
    SET,
    MOV,
    ADD,
    SUB,
    MUL,
    DIV,
    AND,
    OR,
    XOR,
    NOT,
    SL,
    SR,
    SD,
    LD,
    SD16,
    LD16,
    SD8,
    LD8,
    LD16S,
    LD8S,
    CMP,
    IF,
    IFN,
    IFG,
    IFL,
    IFE,
    IFNE,
    JMP,
    CALL,
    RET,
}

/// The addressing mode of one instruction, chosen by the textual form of
/// the last operand of its source line; encoded as a two-bit field.
#[derive(Debug, Copy, Clone, PartialEq, Eq, Structural)]
pub enum InstructionMode {
    Register,
    Immediate,
    RegisterIndirect,
    BaseOffset,
}

/// The numeric opcode of each mnemonic.
pub open spec fn opcode_value(op: Instructions) -> u8 {
    match op {
        Instructions::HLT => 0x00,
        Instructions::PSH => 0x01,
        Instructions::POP => 0x02,
        Instructions::SET => 0x03,
        Instructions::MOV => 0x04,
        Instructions::ADD => 0x05,
        Instructions::SUB => 0x06,
        Instructions::MUL => 0x07,
        Instructions::DIV => 0x08,
        Instructions::AND => 0x09,
        Instructions::OR => 0x0A,
        Instructions::XOR => 0x0B,
        Instructions::NOT => 0x0C,
        Instructions::SL => 0x0D,
        Instructions::SR => 0x0E,
        Instructions::SD => 0x0F,
        Instructions::LD => 0x10,
        Instructions::SD16 => 0x11,
        Instructions::LD16 => 0x12,
        Instructions::SD8 => 0x13,
        Instructions::LD8 => 0x14,
        Instructions::LD16S => 0x15,
        Instructions::LD8S => 0x16,
        Instructions::CMP => 0x17,
        Instructions::IF => 0x18,
        Instructions::IFN => 0x19,
        Instructions::IFG => 0x1A,
        Instructions::IFL => 0x1B,
        Instructions::IFE => 0x1C,
        Instructions::IFNE => 0x1D,
        Instructions::JMP => 0x1E,
        Instructions::CALL => 0x1F,
        Instructions::RET => 0x20,
    }
}

/// The opcode, if any, with the given numeric value.
pub open spec fn spec_opcode_from_u8(v: u8) -> Option<Instructions> {
    match v {
        0x00 => Some(Instructions::HLT),
        0x01 => Some(Instructions::PSH),
        0x02 => Some(Instructions::POP),
        0x03 => Some(Instructions::SET),
        0x04 => Some(Instructions::MOV),
        0x05 => Some(Instructions::ADD),
        0x06 => Some(Instructions::SUB),
        0x07 => Some(Instructions::MUL),
        0x08 => Some(Instructions::DIV),
        0x09 => Some(Instructions::AND),
        0x0A => Some(Instructions::OR),
        0x0B => Some(Instructions::XOR),
        0x0C => Some(Instructions::NOT),
        0x0D => Some(Instructions::SL),
        0x0E => Some(Instructions::SR),
        0x0F => Some(Instructions::SD),
        0x10 => Some(Instructions::LD),
        0x11 => Some(Instructions::SD16),
        0x12 => Some(Instructions::LD16),
        0x13 => Some(Instructions::SD8),
        0x14 => Some(Instructions::LD8),
        0x15 => Some(Instructions::LD16S),
        0x16 => Some(Instructions::LD8S),
        0x17 => Some(Instructions::CMP),
        0x18 => Some(Instructions::IF),
        0x19 => Some(Instructions::IFN),
        0x1A => Some(Instructions::IFG),
        0x1B => Some(Instructions::IFL),
        0x1C => Some(Instructions::IFE),
        0x1D => Some(Instructions::IFNE),
        0x1E => Some(Instructions::JMP),
        0x1F => Some(Instructions::CALL),
        0x20 => Some(Instructions::RET),
        _ => None,
    }
}

/// The canonical (upper-case) spelling of each mnemonic.
pub open spec fn mnemonic_chars(op: Instructions) -> Seq<char> {
    match op {
        Instructions::HLT => "HLT"@,
        Instructions::PSH => "PSH"@,
        Instructions::POP => "POP"@,
        Instructions::SET => "SET"@,
        Instructions::MOV => "MOV"@,
        Instructions::ADD => "ADD"@,
        Instructions::SUB => "SUB"@,
        Instructions::MUL => "MUL"@,
        Instructions::DIV => "DIV"@,
        Instructions::AND => "AND"@,
        Instructions::OR => "OR"@,
        Instructions::XOR => "XOR"@,
        Instructions::NOT => "NOT"@,
        Instructions::SL => "SL"@,
        Instructions::SR => "SR"@,
        Instructions::SD => "SD"@,
        Instructions::LD => "LD"@,
        Instructions::SD16 => "SD16"@,
        Instructions::LD16 => "LD16"@,
        Instructions::SD8 => "SD8"@,
        Instructions::LD8 => "LD8"@,
        Instructions::LD16S => "LD16S"@,
        Instructions::LD8S => "LD8S"@,
        Instructions::CMP => "CMP"@,
        Instructions::IF => "IF"@,
        Instructions::IFN => "IFN"@,
        Instructions::IFG => "IFG"@,
        Instructions::IFL => "IFL"@,
        Instructions::IFE => "IFE"@,
        Instructions::IFNE => "IFNE"@,
        Instructions::JMP => "JMP"@,
        Instructions::CALL => "CALL"@,
        Instructions::RET => "RET"@,
    }
}

/// The opcode whose canonical spelling the upper-cased fragment matches.
pub open spec fn canonical_lookup(u: Seq<char>) -> Option<Instructions> {
    if u == "HLT"@ {
        Some(Instructions::HLT)
    } else     if u == "PSH"@ {
        Some(Instructions::PSH)
    } else     if u == "POP"@ {
        Some(Instructions::POP)
    } else     if u == "SET"@ {
        Some(Instructions::SET)
    } else     if u == "MOV"@ {
        Some(Instructions::MOV)
    } else     if u == "ADD"@ {
        Some(Instructions::ADD)
    } else     if u == "SUB"@ {
        Some(Instructions::SUB)
    } else     if u == "MUL"@ {
        Some(Instructions::MUL)
    } else     if u == "DIV"@ {
        Some(Instructions::DIV)
    } else     if u == "AND"@ {
        Some(Instructions::AND)
    } else     if u == "OR"@ {
        Some(Instructions::OR)
    } else     if u == "XOR"@ {
        Some(Instructions::XOR)
    } else     if u == "NOT"@ {
        Some(Instructions::NOT)
    } else     if u == "SL"@ {
        Some(Instructions::SL)
    } else     if u == "SR"@ {
        Some(Instructions::SR)
    } else     if u == "SD"@ {
        Some(Instructions::SD)
    } else     if u == "LD"@ {
        Some(Instructions::LD)
    } else     if u == "SD16"@ {
        Some(Instructions::SD16)
    } else     if u == "LD16"@ {
        Some(Instructions::LD16)
    } else     if u == "SD8"@ {
        Some(Instructions::SD8)
    } else     if u == "LD8"@ {
        Some(Instructions::LD8)
    } else     if u == "LD16S"@ {
        Some(Instructions::LD16S)
    } else     if u == "LD8S"@ {
        Some(Instructions::LD8S)
    } else     if u == "CMP"@ {
        Some(Instructions::CMP)
    } else     if u == "IF"@ {
        Some(Instructions::IF)
    } else     if u == "IFN"@ {
        Some(Instructions::IFN)
    } else     if u == "IFG"@ {
        Some(Instructions::IFG)
    } else     if u == "IFL"@ {
        Some(Instructions::IFL)
    } else     if u == "IFE"@ {
        Some(Instructions::IFE)
    } else     if u == "IFNE"@ {
        Some(Instructions::IFNE)
    } else     if u == "JMP"@ {
        Some(Instructions::JMP)
    } else     if u == "CALL"@ {
        Some(Instructions::CALL)
    } else     if u == "RET"@ {
        Some(Instructions::RET)
    } else {
        None
    }
}

/// The opcode named by a fragment, compared case-insensitively.
pub open spec fn spec_lookup_mnemonic(s: Seq<char>) -> Option<Instructions> {
    canonical_lookup(upper_seq(s))
}

/// The catalog is bidirectional on numeric codes: every opcode is found
/// again under its own numeric value.
pub proof fn lemma_opcode_value_round_trip(op: Instructions)
    ensures
        spec_opcode_from_u8(opcode_value(op)) == Some(op),
{
}

/// The catalog is bidirectional on names: every opcode is found again under
/// its own canonical spelling.
#[verifier::rlimit(60)]
pub proof fn lemma_mnemonic_round_trip(op: Instructions)
    ensures
        spec_lookup_mnemonic(mnemonic_chars(op)) == Some(op),
{
    reveal_strlit("HLT");
    reveal_strlit("PSH");
    reveal_strlit("POP");
    reveal_strlit("SET");
    reveal_strlit("MOV");
    reveal_strlit("ADD");
    reveal_strlit("SUB");
    reveal_strlit("MUL");
    reveal_strlit("DIV");
    reveal_strlit("AND");
    reveal_strlit("OR");
    reveal_strlit("XOR");
    reveal_strlit("NOT");
    reveal_strlit("SL");
    reveal_strlit("SR");
    reveal_strlit("SD");
    reveal_strlit("LD");
    reveal_strlit("SD16");
    reveal_strlit("LD16");
    reveal_strlit("SD8");
    reveal_strlit("LD8");
    reveal_strlit("LD16S");
    reveal_strlit("LD8S");
    reveal_strlit("CMP");
    reveal_strlit("IF");
    reveal_strlit("IFN");
    reveal_strlit("IFG");
    reveal_strlit("IFL");
    reveal_strlit("IFE");
    reveal_strlit("IFNE");
    reveal_strlit("JMP");
    reveal_strlit("CALL");
    reveal_strlit("RET");
    match op {
        Instructions::HLT => {
            assert(upper_seq("HLT"@) =~= "HLT"@);
        },
        Instructions::PSH => {
            assert(upper_seq("PSH"@) =~= "PSH"@);
            assert("PSH"@[0] != "HLT"@[0]);
        },
        Instructions::POP => {
            assert(upper_seq("POP"@) =~= "POP"@);
            assert("POP"@[0] != "HLT"@[0]);
            assert("POP"@[1] != "PSH"@[1]);
        },
        Instructions::SET => {
            assert(upper_seq("SET"@) =~= "SET"@);
            assert("SET"@[0] != "HLT"@[0]);
            assert("SET"@[0] != "PSH"@[0]);
            assert("SET"@[0] != "POP"@[0]);
        },
        Instructions::MOV => {
            assert(upper_seq("MOV"@) =~= "MOV"@);
            assert("MOV"@[0] != "HLT"@[0]);
            assert("MOV"@[0] != "PSH"@[0]);
            assert("MOV"@[0] != "POP"@[0]);
            assert("MOV"@[0] != "SET"@[0]);
        },
        Instructions::ADD => {
            assert(upper_seq("ADD"@) =~= "ADD"@);
            assert("ADD"@[0] != "HLT"@[0]);
            assert("ADD"@[0] != "PSH"@[0]);
            assert("ADD"@[0] != "POP"@[0]);
            assert("ADD"@[0] != "SET"@[0]);
            assert("ADD"@[0] != "MOV"@[0]);
        },
        Instructions::SUB => {
            assert(upper_seq("SUB"@) =~= "SUB"@);
            assert("SUB"@[0] != "HLT"@[0]);
            assert("SUB"@[0] != "PSH"@[0]);
            assert("SUB"@[0] != "POP"@[0]);
            assert("SUB"@[1] != "SET"@[1]);
            assert("SUB"@[0] != "MOV"@[0]);
            assert("SUB"@[0] != "ADD"@[0]);
        },
        Instructions::MUL => {
            assert(upper_seq("MUL"@) =~= "MUL"@);
            assert("MUL"@[0] != "HLT"@[0]);
            assert("MUL"@[0] != "PSH"@[0]);
            assert("MUL"@[0] != "POP"@[0]);
            assert("MUL"@[0] != "SET"@[0]);
            assert("MUL"@[1] != "MOV"@[1]);
            assert("MUL"@[0] != "ADD"@[0]);
            assert("MUL"@[0] != "SUB"@[0]);
        },
        Instructions::DIV => {
            assert(upper_seq("DIV"@) =~= "DIV"@);
            assert("DIV"@[0] != "HLT"@[0]);
            assert("DIV"@[0] != "PSH"@[0]);
            assert("DIV"@[0] != "POP"@[0]);
            assert("DIV"@[0] != "SET"@[0]);
            assert("DIV"@[0] != "MOV"@[0]);
            assert("DIV"@[0] != "ADD"@[0]);
            assert("DIV"@[0] != "SUB"@[0]);
            assert("DIV"@[0] != "MUL"@[0]);
        },
        Instructions::AND => {
            assert(upper_seq("AND"@) =~= "AND"@);
            assert("AND"@[0] != "HLT"@[0]);
            assert("AND"@[0] != "PSH"@[0]);
            assert("AND"@[0] != "POP"@[0]);
            assert("AND"@[0] != "SET"@[0]);
            assert("AND"@[0] != "MOV"@[0]);
            assert("AND"@[1] != "ADD"@[1]);
            assert("AND"@[0] != "SUB"@[0]);
            assert("AND"@[0] != "MUL"@[0]);
            assert("AND"@[0] != "DIV"@[0]);
        },
        Instructions::OR => {
            assert(upper_seq("OR"@) =~= "OR"@);
            assert("OR"@.len() != "HLT"@.len());
            assert("OR"@.len() != "PSH"@.len());
            assert("OR"@.len() != "POP"@.len());
            assert("OR"@.len() != "SET"@.len());
            assert("OR"@.len() != "MOV"@.len());
            assert("OR"@.len() != "ADD"@.len());
            assert("OR"@.len() != "SUB"@.len());
            assert("OR"@.len() != "MUL"@.len());
            assert("OR"@.len() != "DIV"@.len());
            assert("OR"@.len() != "AND"@.len());
        },
        Instructions::XOR => {
            assert(upper_seq("XOR"@) =~= "XOR"@);
            assert("XOR"@[0] != "HLT"@[0]);
            assert("XOR"@[0] != "PSH"@[0]);
            assert("XOR"@[0] != "POP"@[0]);
            assert("XOR"@[0] != "SET"@[0]);
            assert("XOR"@[0] != "MOV"@[0]);
            assert("XOR"@[0] != "ADD"@[0]);
            assert("XOR"@[0] != "SUB"@[0]);
            assert("XOR"@[0] != "MUL"@[0]);
            assert("XOR"@[0] != "DIV"@[0]);
            assert("XOR"@[0] != "AND"@[0]);
            assert("XOR"@.len() != "OR"@.len());
        },
        Instructions::NOT => {
            assert(upper_seq("NOT"@) =~= "NOT"@);
            assert("NOT"@[0] != "HLT"@[0]);
            assert("NOT"@[0] != "PSH"@[0]);
            assert("NOT"@[0] != "POP"@[0]);
            assert("NOT"@[0] != "SET"@[0]);
            assert("NOT"@[0] != "MOV"@[0]);
            assert("NOT"@[0] != "ADD"@[0]);
            assert("NOT"@[0] != "SUB"@[0]);
            assert("NOT"@[0] != "MUL"@[0]);
            assert("NOT"@[0] != "DIV"@[0]);
            assert("NOT"@[0] != "AND"@[0]);
            assert("NOT"@.len() != "OR"@.len());
            assert("NOT"@[0] != "XOR"@[0]);
        },
        Instructions::SL => {
            assert(upper_seq("SL"@) =~= "SL"@);
            assert("SL"@.len() != "HLT"@.len());
            assert("SL"@.len() != "PSH"@.len());
            assert("SL"@.len() != "POP"@.len());
            assert("SL"@.len() != "SET"@.len());
            assert("SL"@.len() != "MOV"@.len());
            assert("SL"@.len() != "ADD"@.len());
            assert("SL"@.len() != "SUB"@.len());
            assert("SL"@.len() != "MUL"@.len());
            assert("SL"@.len() != "DIV"@.len());
            assert("SL"@.len() != "AND"@.len());
            assert("SL"@[0] != "OR"@[0]);
            assert("SL"@.len() != "XOR"@.len());
            assert("SL"@.len() != "NOT"@.len());
        },
        Instructions::SR => {
            assert(upper_seq("SR"@) =~= "SR"@);
            assert("SR"@.len() != "HLT"@.len());
            assert("SR"@.len() != "PSH"@.len());
            assert("SR"@.len() != "POP"@.len());
            assert("SR"@.len() != "SET"@.len());
            assert("SR"@.len() != "MOV"@.len());
            assert("SR"@.len() != "ADD"@.len());
            assert("SR"@.len() != "SUB"@.len());
            assert("SR"@.len() != "MUL"@.len());
            assert("SR"@.len() != "DIV"@.len());
            assert("SR"@.len() != "AND"@.len());
            assert("SR"@[0] != "OR"@[0]);
            assert("SR"@.len() != "XOR"@.len());
            assert("SR"@.len() != "NOT"@.len());
            assert("SR"@[1] != "SL"@[1]);
        },
        Instructions::SD => {
            assert(upper_seq("SD"@) =~= "SD"@);
            assert("SD"@.len() != "HLT"@.len());
            assert("SD"@.len() != "PSH"@.len());
            assert("SD"@.len() != "POP"@.len());
            assert("SD"@.len() != "SET"@.len());
            assert("SD"@.len() != "MOV"@.len());
            assert("SD"@.len() != "ADD"@.len());
            assert("SD"@.len() != "SUB"@.len());
            assert("SD"@.len() != "MUL"@.len());
            assert("SD"@.len() != "DIV"@.len());
            assert("SD"@.len() != "AND"@.len());
            assert("SD"@[0] != "OR"@[0]);
            assert("SD"@.len() != "XOR"@.len());
            assert("SD"@.len() != "NOT"@.len());
            assert("SD"@[1] != "SL"@[1]);
            assert("SD"@[1] != "SR"@[1]);
        },
        Instructions::LD => {
            assert(upper_seq("LD"@) =~= "LD"@);
            assert("LD"@.len() != "HLT"@.len());
            assert("LD"@.len() != "PSH"@.len());
            assert("LD"@.len() != "POP"@.len());
            assert("LD"@.len() != "SET"@.len());
            assert("LD"@.len() != "MOV"@.len());
            assert("LD"@.len() != "ADD"@.len());
            assert("LD"@.len() != "SUB"@.len());
            assert("LD"@.len() != "MUL"@.len());
            assert("LD"@.len() != "DIV"@.len());
            assert("LD"@.len() != "AND"@.len());
            assert("LD"@[0] != "OR"@[0]);
            assert("LD"@.len() != "XOR"@.len());
            assert("LD"@.len() != "NOT"@.len());
            assert("LD"@[0] != "SL"@[0]);
            assert("LD"@[0] != "SR"@[0]);
            assert("LD"@[0] != "SD"@[0]);
        },
        Instructions::SD16 => {
            assert(upper_seq("SD16"@) =~= "SD16"@);
            assert("SD16"@.len() != "HLT"@.len());
            assert("SD16"@.len() != "PSH"@.len());
            assert("SD16"@.len() != "POP"@.len());
            assert("SD16"@.len() != "SET"@.len());
            assert("SD16"@.len() != "MOV"@.len());
            assert("SD16"@.len() != "ADD"@.len());
            assert("SD16"@.len() != "SUB"@.len());
            assert("SD16"@.len() != "MUL"@.len());
            assert("SD16"@.len() != "DIV"@.len());
            assert("SD16"@.len() != "AND"@.len());
            assert("SD16"@.len() != "OR"@.len());
            assert("SD16"@.len() != "XOR"@.len());
            assert("SD16"@.len() != "NOT"@.len());
            assert("SD16"@.len() != "SL"@.len());
            assert("SD16"@.len() != "SR"@.len());
            assert("SD16"@.len() != "SD"@.len());
            assert("SD16"@.len() != "LD"@.len());
        },
        Instructions::LD16 => {
            assert(upper_seq("LD16"@) =~= "LD16"@);
            assert("LD16"@.len() != "HLT"@.len());
            assert("LD16"@.len() != "PSH"@.len());
            assert("LD16"@.len() != "POP"@.len());
            assert("LD16"@.len() != "SET"@.len());
            assert("LD16"@.len() != "MOV"@.len());
            assert("LD16"@.len() != "ADD"@.len());
            assert("LD16"@.len() != "SUB"@.len());
            assert("LD16"@.len() != "MUL"@.len());
            assert("LD16"@.len() != "DIV"@.len());
            assert("LD16"@.len() != "AND"@.len());
            assert("LD16"@.len() != "OR"@.len());
            assert("LD16"@.len() != "XOR"@.len());
            assert("LD16"@.len() != "NOT"@.len());
            assert("LD16"@.len() != "SL"@.len());
            assert("LD16"@.len() != "SR"@.len());
            assert("LD16"@.len() != "SD"@.len());
            assert("LD16"@.len() != "LD"@.len());
            assert("LD16"@[0] != "SD16"@[0]);
        },
        Instructions::SD8 => {
            assert(upper_seq("SD8"@) =~= "SD8"@);
            assert("SD8"@[0] != "HLT"@[0]);
            assert("SD8"@[0] != "PSH"@[0]);
            assert("SD8"@[0] != "POP"@[0]);
            assert("SD8"@[1] != "SET"@[1]);
            assert("SD8"@[0] != "MOV"@[0]);
            assert("SD8"@[0] != "ADD"@[0]);
            assert("SD8"@[1] != "SUB"@[1]);
            assert("SD8"@[0] != "MUL"@[0]);
            assert("SD8"@[0] != "DIV"@[0]);
            assert("SD8"@[0] != "AND"@[0]);
            assert("SD8"@.len() != "OR"@.len());
            assert("SD8"@[0] != "XOR"@[0]);
            assert("SD8"@[0] != "NOT"@[0]);
            assert("SD8"@.len() != "SL"@.len());
            assert("SD8"@.len() != "SR"@.len());
            assert("SD8"@.len() != "SD"@.len());
            assert("SD8"@.len() != "LD"@.len());
            assert("SD8"@.len() != "SD16"@.len());
            assert("SD8"@.len() != "LD16"@.len());
        },
        Instructions::LD8 => {
            assert(upper_seq("LD8"@) =~= "LD8"@);
            assert("LD8"@[0] != "HLT"@[0]);
            assert("LD8"@[0] != "PSH"@[0]);
            assert("LD8"@[0] != "POP"@[0]);
            assert("LD8"@[0] != "SET"@[0]);
            assert("LD8"@[0] != "MOV"@[0]);
            assert("LD8"@[0] != "ADD"@[0]);
            assert("LD8"@[0] != "SUB"@[0]);
            assert("LD8"@[0] != "MUL"@[0]);
            assert("LD8"@[0] != "DIV"@[0]);
            assert("LD8"@[0] != "AND"@[0]);
            assert("LD8"@.len() != "OR"@.len());
            assert("LD8"@[0] != "XOR"@[0]);
            assert("LD8"@[0] != "NOT"@[0]);
            assert("LD8"@.len() != "SL"@.len());
            assert("LD8"@.len() != "SR"@.len());
            assert("LD8"@.len() != "SD"@.len());
            assert("LD8"@.len() != "LD"@.len());
            assert("LD8"@.len() != "SD16"@.len());
            assert("LD8"@.len() != "LD16"@.len());
            assert("LD8"@[0] != "SD8"@[0]);
        },
        Instructions::LD16S => {
            assert(upper_seq("LD16S"@) =~= "LD16S"@);
            assert("LD16S"@.len() != "HLT"@.len());
            assert("LD16S"@.len() != "PSH"@.len());
            assert("LD16S"@.len() != "POP"@.len());
            assert("LD16S"@.len() != "SET"@.len());
            assert("LD16S"@.len() != "MOV"@.len());
            assert("LD16S"@.len() != "ADD"@.len());
            assert("LD16S"@.len() != "SUB"@.len());
            assert("LD16S"@.len() != "MUL"@.len());
            assert("LD16S"@.len() != "DIV"@.len());
            assert("LD16S"@.len() != "AND"@.len());
            assert("LD16S"@.len() != "OR"@.len());
            assert("LD16S"@.len() != "XOR"@.len());
            assert("LD16S"@.len() != "NOT"@.len());
            assert("LD16S"@.len() != "SL"@.len());
            assert("LD16S"@.len() != "SR"@.len());
            assert("LD16S"@.len() != "SD"@.len());
            assert("LD16S"@.len() != "LD"@.len());
            assert("LD16S"@.len() != "SD16"@.len());
            assert("LD16S"@.len() != "LD16"@.len());
            assert("LD16S"@.len() != "SD8"@.len());
            assert("LD16S"@.len() != "LD8"@.len());
        },
        Instructions::LD8S => {
            assert(upper_seq("LD8S"@) =~= "LD8S"@);
            assert("LD8S"@.len() != "HLT"@.len());
            assert("LD8S"@.len() != "PSH"@.len());
            assert("LD8S"@.len() != "POP"@.len());
            assert("LD8S"@.len() != "SET"@.len());
            assert("LD8S"@.len() != "MOV"@.len());
            assert("LD8S"@.len() != "ADD"@.len());
            assert("LD8S"@.len() != "SUB"@.len());
            assert("LD8S"@.len() != "MUL"@.len());
            assert("LD8S"@.len() != "DIV"@.len());
            assert("LD8S"@.len() != "AND"@.len());
            assert("LD8S"@.len() != "OR"@.len());
            assert("LD8S"@.len() != "XOR"@.len());
            assert("LD8S"@.len() != "NOT"@.len());
            assert("LD8S"@.len() != "SL"@.len());
            assert("LD8S"@.len() != "SR"@.len());
            assert("LD8S"@.len() != "SD"@.len());
            assert("LD8S"@.len() != "LD"@.len());
            assert("LD8S"@[0] != "SD16"@[0]);
            assert("LD8S"@[2] != "LD16"@[2]);
            assert("LD8S"@.len() != "SD8"@.len());
            assert("LD8S"@.len() != "LD8"@.len());
            assert("LD8S"@.len() != "LD16S"@.len());
        },
        Instructions::CMP => {
            assert(upper_seq("CMP"@) =~= "CMP"@);
            assert("CMP"@[0] != "HLT"@[0]);
            assert("CMP"@[0] != "PSH"@[0]);
            assert("CMP"@[0] != "POP"@[0]);
            assert("CMP"@[0] != "SET"@[0]);
            assert("CMP"@[0] != "MOV"@[0]);
            assert("CMP"@[0] != "ADD"@[0]);
            assert("CMP"@[0] != "SUB"@[0]);
            assert("CMP"@[0] != "MUL"@[0]);
            assert("CMP"@[0] != "DIV"@[0]);
            assert("CMP"@[0] != "AND"@[0]);
            assert("CMP"@.len() != "OR"@.len());
            assert("CMP"@[0] != "XOR"@[0]);
            assert("CMP"@[0] != "NOT"@[0]);
            assert("CMP"@.len() != "SL"@.len());
            assert("CMP"@.len() != "SR"@.len());
            assert("CMP"@.len() != "SD"@.len());
            assert("CMP"@.len() != "LD"@.len());
            assert("CMP"@.len() != "SD16"@.len());
            assert("CMP"@.len() != "LD16"@.len());
            assert("CMP"@[0] != "SD8"@[0]);
            assert("CMP"@[0] != "LD8"@[0]);
            assert("CMP"@.len() != "LD16S"@.len());
            assert("CMP"@.len() != "LD8S"@.len());
        },
        Instructions::IF => {
            assert(upper_seq("IF"@) =~= "IF"@);
            assert("IF"@.len() != "HLT"@.len());
            assert("IF"@.len() != "PSH"@.len());
            assert("IF"@.len() != "POP"@.len());
            assert("IF"@.len() != "SET"@.len());
            assert("IF"@.len() != "MOV"@.len());
            assert("IF"@.len() != "ADD"@.len());
            assert("IF"@.len() != "SUB"@.len());
            assert("IF"@.len() != "MUL"@.len());
            assert("IF"@.len() != "DIV"@.len());
            assert("IF"@.len() != "AND"@.len());
            assert("IF"@[0] != "OR"@[0]);
            assert("IF"@.len() != "XOR"@.len());
            assert("IF"@.len() != "NOT"@.len());
            assert("IF"@[0] != "SL"@[0]);
            assert("IF"@[0] != "SR"@[0]);
            assert("IF"@[0] != "SD"@[0]);
            assert("IF"@[0] != "LD"@[0]);
            assert("IF"@.len() != "SD16"@.len());
            assert("IF"@.len() != "LD16"@.len());
            assert("IF"@.len() != "SD8"@.len());
            assert("IF"@.len() != "LD8"@.len());
            assert("IF"@.len() != "LD16S"@.len());
            assert("IF"@.len() != "LD8S"@.len());
            assert("IF"@.len() != "CMP"@.len());
        },
        Instructions::IFN => {
            assert(upper_seq("IFN"@) =~= "IFN"@);
            assert("IFN"@[0] != "HLT"@[0]);
            assert("IFN"@[0] != "PSH"@[0]);
            assert("IFN"@[0] != "POP"@[0]);
            assert("IFN"@[0] != "SET"@[0]);
            assert("IFN"@[0] != "MOV"@[0]);
            assert("IFN"@[0] != "ADD"@[0]);
            assert("IFN"@[0] != "SUB"@[0]);
            assert("IFN"@[0] != "MUL"@[0]);
            assert("IFN"@[0] != "DIV"@[0]);
            assert("IFN"@[0] != "AND"@[0]);
            assert("IFN"@.len() != "OR"@.len());
            assert("IFN"@[0] != "XOR"@[0]);
            assert("IFN"@[0] != "NOT"@[0]);
            assert("IFN"@.len() != "SL"@.len());
            assert("IFN"@.len() != "SR"@.len());
            assert("IFN"@.len() != "SD"@.len());
            assert("IFN"@.len() != "LD"@.len());
            assert("IFN"@.len() != "SD16"@.len());
            assert("IFN"@.len() != "LD16"@.len());
            assert("IFN"@[0] != "SD8"@[0]);
            assert("IFN"@[0] != "LD8"@[0]);
            assert("IFN"@.len() != "LD16S"@.len());
            assert("IFN"@.len() != "LD8S"@.len());
            assert("IFN"@[0] != "CMP"@[0]);
            assert("IFN"@.len() != "IF"@.len());
        },
        Instructions::IFG => {
            assert(upper_seq("IFG"@) =~= "IFG"@);
            assert("IFG"@[0] != "HLT"@[0]);
            assert("IFG"@[0] != "PSH"@[0]);
            assert("IFG"@[0] != "POP"@[0]);
            assert("IFG"@[0] != "SET"@[0]);
            assert("IFG"@[0] != "MOV"@[0]);
            assert("IFG"@[0] != "ADD"@[0]);
            assert("IFG"@[0] != "SUB"@[0]);
            assert("IFG"@[0] != "MUL"@[0]);
            assert("IFG"@[0] != "DIV"@[0]);
            assert("IFG"@[0] != "AND"@[0]);
            assert("IFG"@.len() != "OR"@.len());
            assert("IFG"@[0] != "XOR"@[0]);
            assert("IFG"@[0] != "NOT"@[0]);
            assert("IFG"@.len() != "SL"@.len());
            assert("IFG"@.len() != "SR"@.len());
            assert("IFG"@.len() != "SD"@.len());
            assert("IFG"@.len() != "LD"@.len());
            assert("IFG"@.len() != "SD16"@.len());
            assert("IFG"@.len() != "LD16"@.len());
            assert("IFG"@[0] != "SD8"@[0]);
            assert("IFG"@[0] != "LD8"@[0]);
            assert("IFG"@.len() != "LD16S"@.len());
            assert("IFG"@.len() != "LD8S"@.len());
            assert("IFG"@[0] != "CMP"@[0]);
            assert("IFG"@.len() != "IF"@.len());
            assert("IFG"@[2] != "IFN"@[2]);
        },
        Instructions::IFL => {
            assert(upper_seq("IFL"@) =~= "IFL"@);
            assert("IFL"@[0] != "HLT"@[0]);
            assert("IFL"@[0] != "PSH"@[0]);
            assert("IFL"@[0] != "POP"@[0]);
            assert("IFL"@[0] != "SET"@[0]);
            assert("IFL"@[0] != "MOV"@[0]);
            assert("IFL"@[0] != "ADD"@[0]);
            assert("IFL"@[0] != "SUB"@[0]);
            assert("IFL"@[0] != "MUL"@[0]);
            assert("IFL"@[0] != "DIV"@[0]);
            assert("IFL"@[0] != "AND"@[0]);
            assert("IFL"@.len() != "OR"@.len());
            assert("IFL"@[0] != "XOR"@[0]);
            assert("IFL"@[0] != "NOT"@[0]);
            assert("IFL"@.len() != "SL"@.len());
            assert("IFL"@.len() != "SR"@.len());
            assert("IFL"@.len() != "SD"@.len());
            assert("IFL"@.len() != "LD"@.len());
            assert("IFL"@.len() != "SD16"@.len());
            assert("IFL"@.len() != "LD16"@.len());
            assert("IFL"@[0] != "SD8"@[0]);
            assert("IFL"@[0] != "LD8"@[0]);
            assert("IFL"@.len() != "LD16S"@.len());
            assert("IFL"@.len() != "LD8S"@.len());
            assert("IFL"@[0] != "CMP"@[0]);
            assert("IFL"@.len() != "IF"@.len());
            assert("IFL"@[2] != "IFN"@[2]);
            assert("IFL"@[2] != "IFG"@[2]);
        },
        Instructions::IFE => {
            assert(upper_seq("IFE"@) =~= "IFE"@);
            assert("IFE"@[0] != "HLT"@[0]);
            assert("IFE"@[0] != "PSH"@[0]);
            assert("IFE"@[0] != "POP"@[0]);
            assert("IFE"@[0] != "SET"@[0]);
            assert("IFE"@[0] != "MOV"@[0]);
            assert("IFE"@[0] != "ADD"@[0]);
            assert("IFE"@[0] != "SUB"@[0]);
            assert("IFE"@[0] != "MUL"@[0]);
            assert("IFE"@[0] != "DIV"@[0]);
            assert("IFE"@[0] != "AND"@[0]);
            assert("IFE"@.len() != "OR"@.len());
            assert("IFE"@[0] != "XOR"@[0]);
            assert("IFE"@[0] != "NOT"@[0]);
            assert("IFE"@.len() != "SL"@.len());
            assert("IFE"@.len() != "SR"@.len());
            assert("IFE"@.len() != "SD"@.len());
            assert("IFE"@.len() != "LD"@.len());
            assert("IFE"@.len() != "SD16"@.len());
            assert("IFE"@.len() != "LD16"@.len());
            assert("IFE"@[0] != "SD8"@[0]);
            assert("IFE"@[0] != "LD8"@[0]);
            assert("IFE"@.len() != "LD16S"@.len());
            assert("IFE"@.len() != "LD8S"@.len());
            assert("IFE"@[0] != "CMP"@[0]);
            assert("IFE"@.len() != "IF"@.len());
            assert("IFE"@[2] != "IFN"@[2]);
            assert("IFE"@[2] != "IFG"@[2]);
            assert("IFE"@[2] != "IFL"@[2]);
        },
        Instructions::IFNE => {
            assert(upper_seq("IFNE"@) =~= "IFNE"@);
            assert("IFNE"@.len() != "HLT"@.len());
            assert("IFNE"@.len() != "PSH"@.len());
            assert("IFNE"@.len() != "POP"@.len());
            assert("IFNE"@.len() != "SET"@.len());
            assert("IFNE"@.len() != "MOV"@.len());
            assert("IFNE"@.len() != "ADD"@.len());
            assert("IFNE"@.len() != "SUB"@.len());
            assert("IFNE"@.len() != "MUL"@.len());
            assert("IFNE"@.len() != "DIV"@.len());
            assert("IFNE"@.len() != "AND"@.len());
            assert("IFNE"@.len() != "OR"@.len());
            assert("IFNE"@.len() != "XOR"@.len());
            assert("IFNE"@.len() != "NOT"@.len());
            assert("IFNE"@.len() != "SL"@.len());
            assert("IFNE"@.len() != "SR"@.len());
            assert("IFNE"@.len() != "SD"@.len());
            assert("IFNE"@.len() != "LD"@.len());
            assert("IFNE"@[0] != "SD16"@[0]);
            assert("IFNE"@[0] != "LD16"@[0]);
            assert("IFNE"@.len() != "SD8"@.len());
            assert("IFNE"@.len() != "LD8"@.len());
            assert("IFNE"@.len() != "LD16S"@.len());
            assert("IFNE"@[0] != "LD8S"@[0]);
            assert("IFNE"@.len() != "CMP"@.len());
            assert("IFNE"@.len() != "IF"@.len());
            assert("IFNE"@.len() != "IFN"@.len());
            assert("IFNE"@.len() != "IFG"@.len());
            assert("IFNE"@.len() != "IFL"@.len());
            assert("IFNE"@.len() != "IFE"@.len());
        },
        Instructions::JMP => {
            assert(upper_seq("JMP"@) =~= "JMP"@);
            assert("JMP"@[0] != "HLT"@[0]);
            assert("JMP"@[0] != "PSH"@[0]);
            assert("JMP"@[0] != "POP"@[0]);
            assert("JMP"@[0] != "SET"@[0]);
            assert("JMP"@[0] != "MOV"@[0]);
            assert("JMP"@[0] != "ADD"@[0]);
            assert("JMP"@[0] != "SUB"@[0]);
            assert("JMP"@[0] != "MUL"@[0]);
            assert("JMP"@[0] != "DIV"@[0]);
            assert("JMP"@[0] != "AND"@[0]);
            assert("JMP"@.len() != "OR"@.len());
            assert("JMP"@[0] != "XOR"@[0]);
            assert("JMP"@[0] != "NOT"@[0]);
            assert("JMP"@.len() != "SL"@.len());
            assert("JMP"@.len() != "SR"@.len());
            assert("JMP"@.len() != "SD"@.len());
            assert("JMP"@.len() != "LD"@.len());
            assert("JMP"@.len() != "SD16"@.len());
            assert("JMP"@.len() != "LD16"@.len());
            assert("JMP"@[0] != "SD8"@[0]);
            assert("JMP"@[0] != "LD8"@[0]);
            assert("JMP"@.len() != "LD16S"@.len());
            assert("JMP"@.len() != "LD8S"@.len());
            assert("JMP"@[0] != "CMP"@[0]);
            assert("JMP"@.len() != "IF"@.len());
            assert("JMP"@[0] != "IFN"@[0]);
            assert("JMP"@[0] != "IFG"@[0]);
            assert("JMP"@[0] != "IFL"@[0]);
            assert("JMP"@[0] != "IFE"@[0]);
            assert("JMP"@.len() != "IFNE"@.len());
        },
        Instructions::CALL => {
            assert(upper_seq("CALL"@) =~= "CALL"@);
            assert("CALL"@.len() != "HLT"@.len());
            assert("CALL"@.len() != "PSH"@.len());
            assert("CALL"@.len() != "POP"@.len());
            assert("CALL"@.len() != "SET"@.len());
            assert("CALL"@.len() != "MOV"@.len());
            assert("CALL"@.len() != "ADD"@.len());
            assert("CALL"@.len() != "SUB"@.len());
            assert("CALL"@.len() != "MUL"@.len());
            assert("CALL"@.len() != "DIV"@.len());
            assert("CALL"@.len() != "AND"@.len());
            assert("CALL"@.len() != "OR"@.len());
            assert("CALL"@.len() != "XOR"@.len());
            assert("CALL"@.len() != "NOT"@.len());
            assert("CALL"@.len() != "SL"@.len());
            assert("CALL"@.len() != "SR"@.len());
            assert("CALL"@.len() != "SD"@.len());
            assert("CALL"@.len() != "LD"@.len());
            assert("CALL"@[0] != "SD16"@[0]);
            assert("CALL"@[0] != "LD16"@[0]);
            assert("CALL"@.len() != "SD8"@.len());
            assert("CALL"@.len() != "LD8"@.len());
            assert("CALL"@.len() != "LD16S"@.len());
            assert("CALL"@[0] != "LD8S"@[0]);
            assert("CALL"@.len() != "CMP"@.len());
            assert("CALL"@.len() != "IF"@.len());
            assert("CALL"@.len() != "IFN"@.len());
            assert("CALL"@.len() != "IFG"@.len());
            assert("CALL"@.len() != "IFL"@.len());
            assert("CALL"@.len() != "IFE"@.len());
            assert("CALL"@[0] != "IFNE"@[0]);
            assert("CALL"@.len() != "JMP"@.len());
        },
        Instructions::RET => {
            assert(upper_seq("RET"@) =~= "RET"@);
            assert("RET"@[0] != "HLT"@[0]);
            assert("RET"@[0] != "PSH"@[0]);
            assert("RET"@[0] != "POP"@[0]);
            assert("RET"@[0] != "SET"@[0]);
            assert("RET"@[0] != "MOV"@[0]);
            assert("RET"@[0] != "ADD"@[0]);
            assert("RET"@[0] != "SUB"@[0]);
            assert("RET"@[0] != "MUL"@[0]);
            assert("RET"@[0] != "DIV"@[0]);
            assert("RET"@[0] != "AND"@[0]);
            assert("RET"@.len() != "OR"@.len());
            assert("RET"@[0] != "XOR"@[0]);
            assert("RET"@[0] != "NOT"@[0]);
            assert("RET"@.len() != "SL"@.len());
            assert("RET"@.len() != "SR"@.len());
            assert("RET"@.len() != "SD"@.len());
            assert("RET"@.len() != "LD"@.len());
            assert("RET"@.len() != "SD16"@.len());
            assert("RET"@.len() != "LD16"@.len());
            assert("RET"@[0] != "SD8"@[0]);
            assert("RET"@[0] != "LD8"@[0]);
            assert("RET"@.len() != "LD16S"@.len());
            assert("RET"@.len() != "LD8S"@.len());
            assert("RET"@[0] != "CMP"@[0]);
            assert("RET"@.len() != "IF"@.len());
            assert("RET"@[0] != "IFN"@[0]);
            assert("RET"@[0] != "IFG"@[0]);
            assert("RET"@[0] != "IFL"@[0]);
            assert("RET"@[0] != "IFE"@[0]);
            assert("RET"@.len() != "IFNE"@.len());
            assert("RET"@[0] != "JMP"@[0]);
            assert("RET"@.len() != "CALL"@.len());
        },
    }
}

/// Mnemonic lookup is case-insensitive: fragments equal up to case name the
/// same opcode, or both name none.
pub proof fn lemma_mnemonic_case_insensitive(a: Seq<char>, b: Seq<char>)
    requires
        case_eq(a, b),
    ensures
        spec_lookup_mnemonic(a) == spec_lookup_mnemonic(b),
{
}

impl Instructions {
    /// The numeric value of this opcode.
    pub fn to_u8(self) -> (r: u8)
        ensures
            r == opcode_value(self),
    {
        match self {
            Instructions::HLT => 0x00,
            Instructions::PSH => 0x01,
            Instructions::POP => 0x02,
            Instructions::SET => 0x03,
            Instructions::MOV => 0x04,
            Instructions::ADD => 0x05,
            Instructions::SUB => 0x06,
            Instructions::MUL => 0x07,
            Instructions::DIV => 0x08,
            Instructions::AND => 0x09,
            Instructions::OR => 0x0A,
            Instructions::XOR => 0x0B,
            Instructions::NOT => 0x0C,
            Instructions::SL => 0x0D,
            Instructions::SR => 0x0E,
            Instructions::SD => 0x0F,
            Instructions::LD => 0x10,
            Instructions::SD16 => 0x11,
            Instructions::LD16 => 0x12,
            Instructions::SD8 => 0x13,
            Instructions::LD8 => 0x14,
            Instructions::LD16S => 0x15,
            Instructions::LD8S => 0x16,
            Instructions::CMP => 0x17,
            Instructions::IF => 0x18,
            Instructions::IFN => 0x19,
            Instructions::IFG => 0x1A,
            Instructions::IFL => 0x1B,
            Instructions::IFE => 0x1C,
            Instructions::IFNE => 0x1D,
            Instructions::JMP => 0x1E,
            Instructions::CALL => 0x1F,
            Instructions::RET => 0x20,
        }
    }

    /// The opcode with the given numeric value, if it is in the catalog.
    pub fn from_u8(v: u8) -> (r: Option<Self>)
        ensures
            r == spec_opcode_from_u8(v),
    {
        match v {
            0x00 => Some(Instructions::HLT),
            0x01 => Some(Instructions::PSH),
            0x02 => Some(Instructions::POP),
            0x03 => Some(Instructions::SET),
            0x04 => Some(Instructions::MOV),
            0x05 => Some(Instructions::ADD),
            0x06 => Some(Instructions::SUB),
            0x07 => Some(Instructions::MUL),
            0x08 => Some(Instructions::DIV),
            0x09 => Some(Instructions::AND),
            0x0A => Some(Instructions::OR),
            0x0B => Some(Instructions::XOR),
            0x0C => Some(Instructions::NOT),
            0x0D => Some(Instructions::SL),
            0x0E => Some(Instructions::SR),
            0x0F => Some(Instructions::SD),
            0x10 => Some(Instructions::LD),
            0x11 => Some(Instructions::SD16),
            0x12 => Some(Instructions::LD16),
            0x13 => Some(Instructions::SD8),
            0x14 => Some(Instructions::LD8),
            0x15 => Some(Instructions::LD16S),
            0x16 => Some(Instructions::LD8S),
            0x17 => Some(Instructions::CMP),
            0x18 => Some(Instructions::IF),
            0x19 => Some(Instructions::IFN),
            0x1A => Some(Instructions::IFG),
            0x1B => Some(Instructions::IFL),
            0x1C => Some(Instructions::IFE),
            0x1D => Some(Instructions::IFNE),
            0x1E => Some(Instructions::JMP),
            0x1F => Some(Instructions::CALL),
            0x20 => Some(Instructions::RET),
            _ => None,
        }
    }

    /// The canonical spelling of this mnemonic.
    pub fn mnemonic(self) -> (r: String)
        ensures
            r@ == mnemonic_chars(self),
    {
        match self {
            Instructions::HLT => String::from_str("HLT"),
            Instructions::PSH => String::from_str("PSH"),
            Instructions::POP => String::from_str("POP"),
            Instructions::SET => String::from_str("SET"),
            Instructions::MOV => String::from_str("MOV"),
            Instructions::ADD => String::from_str("ADD"),
            Instructions::SUB => String::from_str("SUB"),
            Instructions::MUL => String::from_str("MUL"),
            Instructions::DIV => String::from_str("DIV"),
            Instructions::AND => String::from_str("AND"),
            Instructions::OR => String::from_str("OR"),
            Instructions::XOR => String::from_str("XOR"),
            Instructions::NOT => String::from_str("NOT"),
            Instructions::SL => String::from_str("SL"),
            Instructions::SR => String::from_str("SR"),
            Instructions::SD => String::from_str("SD"),
            Instructions::LD => String::from_str("LD"),
            Instructions::SD16 => String::from_str("SD16"),
            Instructions::LD16 => String::from_str("LD16"),
            Instructions::SD8 => String::from_str("SD8"),
            Instructions::LD8 => String::from_str("LD8"),
            Instructions::LD16S => String::from_str("LD16S"),
            Instructions::LD8S => String::from_str("LD8S"),
            Instructions::CMP => String::from_str("CMP"),
            Instructions::IF => String::from_str("IF"),
            Instructions::IFN => String::from_str("IFN"),
            Instructions::IFG => String::from_str("IFG"),
            Instructions::IFL => String::from_str("IFL"),
            Instructions::IFE => String::from_str("IFE"),
            Instructions::IFNE => String::from_str("IFNE"),
            Instructions::JMP => String::from_str("JMP"),
            Instructions::CALL => String::from_str("CALL"),
            Instructions::RET => String::from_str("RET"),
        }
    }

    /// Looks a fragment up in the catalog, case-insensitively.
    pub fn from_mnemonic(frag: &str) -> (r: Option<Self>)
        ensures
            r == spec_lookup_mnemonic(frag@),
    {
        let chars = str_to_chars(frag);
        Self::from_mnemonic_chars(&chars)
    }

    /// Looks a fragment, given as characters, up in the catalog.
    pub(crate) fn from_mnemonic_chars(frag: &Vec<char>) -> (r: Option<Self>)
        ensures
            r == spec_lookup_mnemonic(frag@),
    {
        let u = upper_chars(frag);
        if chars_eq_str(&u, "HLT") {
            return Some(Instructions::HLT);
        }
        if chars_eq_str(&u, "PSH") {
            return Some(Instructions::PSH);
        }
        if chars_eq_str(&u, "POP") {
            return Some(Instructions::POP);
        }
        if chars_eq_str(&u, "SET") {
            return Some(Instructions::SET);
        }
        if chars_eq_str(&u, "MOV") {
            return Some(Instructions::MOV);
        }
        if chars_eq_str(&u, "ADD") {
            return Some(Instructions::ADD);
        }
        if chars_eq_str(&u, "SUB") {
            return Some(Instructions::SUB);
        }
        if chars_eq_str(&u, "MUL") {
            return Some(Instructions::MUL);
        }
        if chars_eq_str(&u, "DIV") {
            return Some(Instructions::DIV);
        }
        if chars_eq_str(&u, "AND") {
            return Some(Instructions::AND);
        }
        if chars_eq_str(&u, "OR") {
            return Some(Instructions::OR);
        }
        if chars_eq_str(&u, "XOR") {
            return Some(Instructions::XOR);
        }
        if chars_eq_str(&u, "NOT") {
            return Some(Instructions::NOT);
        }
        if chars_eq_str(&u, "SL") {
            return Some(Instructions::SL);
        }
        if chars_eq_str(&u, "SR") {
            return Some(Instructions::SR);
        }
        if chars_eq_str(&u, "SD") {
            return Some(Instructions::SD);
        }
        if chars_eq_str(&u, "LD") {
            return Some(Instructions::LD);
        }
        if chars_eq_str(&u, "SD16") {
            return Some(Instructions::SD16);
        }
        if chars_eq_str(&u, "LD16") {
            return Some(Instructions::LD16);
        }
        if chars_eq_str(&u, "SD8") {
            return Some(Instructions::SD8);
        }
        if chars_eq_str(&u, "LD8") {
            return Some(Instructions::LD8);
        }
        if chars_eq_str(&u, "LD16S") {
            return Some(Instructions::LD16S);
        }
        if chars_eq_str(&u, "LD8S") {
            return Some(Instructions::LD8S);
        }
        if chars_eq_str(&u, "CMP") {
            return Some(Instructions::CMP);
        }
        if chars_eq_str(&u, "IF") {
            return Some(Instructions::IF);
        }
        if chars_eq_str(&u, "IFN") {
            return Some(Instructions::IFN);
        }
        if chars_eq_str(&u, "IFG") {
            return Some(Instructions::IFG);
        }
        if chars_eq_str(&u, "IFL") {
            return Some(Instructions::IFL);
        }
        if chars_eq_str(&u, "IFE") {
            return Some(Instructions::IFE);
        }
        if chars_eq_str(&u, "IFNE") {
            return Some(Instructions::IFNE);
        }
        if chars_eq_str(&u, "JMP") {
            return Some(Instructions::JMP);
        }
        if chars_eq_str(&u, "CALL") {
            return Some(Instructions::CALL);
        }
        if chars_eq_str(&u, "RET") {
            return Some(Instructions::RET);
        }
        None
    }
}

} // verus!
