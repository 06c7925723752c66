use vstd::prelude::*;

use crate::instructions::{opcode_value, InstructionMode, Instructions};
use crate::parser::{ASTNode, NodeView};

verus! {

// ---------------------------------------------------------------------------
// The 32-bit layout of one instruction:
//
// | opcode (8) | mode (4) | operands (20) |
//
// The two mode bits sit at the top of the four-bit mode field, in bits 22
// and 23 of the word.  Operands pack as four-bit nibbles from bit 12
// downward, most significant operand first.  In immediate mode the last
// operand is special: a value that fits in four bits lands in the lowest
// nibble; a larger one sets bit 0 and travels in a full extension word.
// ---------------------------------------------------------------------------

/// The mode field of the instruction word.
pub open spec fn mode_bits(mode: InstructionMode) -> u32 {
    match mode {
        InstructionMode::Register => 0x00000000,
        InstructionMode::Immediate => 0x00400000,
        InstructionMode::RegisterIndirect => 0x00800000,
        InstructionMode::BaseOffset => 0x00C00000,
    }
}

/// The low four bits of operand `i`, or zero past the end.
pub open spec fn arg_nib(args: Seq<u32>, i: int) -> u32 {
    if 0 <= i < args.len() {
        args[i] & 0xF
    } else {
        0
    }
}

/// The first `k` operands, packed as nibbles from bit 12 downward: operand
/// `i` occupies nibble `3 - i` of the low 16 bits.
pub open spec fn packed_args(args: Seq<u32>, k: int) -> u32 {
    (if k > 0 {
        arg_nib(args, 0) << 12
    } else {
        0
    }) | (if k > 1 {
        arg_nib(args, 1) << 8
    } else {
        0
    }) | (if k > 2 {
        arg_nib(args, 2) << 4
    } else {
        0
    }) | (if k > 3 {
        arg_nib(args, 3)
    } else {
        0
    })
}

/// The operand field of the instruction word.  Every mode but immediate
/// packs all operands positionally; immediate mode packs all but the last,
/// and the last either lands in the lowest nibble or, when it exceeds four
/// bits, sets the extension flag in bit 0.
pub open spec fn arg_field(mode: InstructionMode, args: Seq<u32>) -> u32 {
    match mode {
        InstructionMode::Immediate => {
            if args.len() == 0 {
                0
            } else {
                let leads = packed_args(args, args.len() - 1);
                if args.last() > 0xF {
                    leads | 0x1
                } else {
                    leads | (args.last() & 0xF)
                }
            }
        },
        _ => packed_args(args, args.len() as int),
    }
}

/// The extension word: the full last operand of an immediate-mode
/// instruction whose value exceeds four bits, and zero otherwise.
pub open spec fn ext_value(mode: InstructionMode, args: Seq<u32>) -> u32 {
    if mode == InstructionMode::Immediate && args.len() > 0 && args.last() > 0xF {
        args.last()
    } else {
        0
    }
}

/// The instruction word of one node.
pub open spec fn instruction_word(op: Instructions, mode: InstructionMode, args: Seq<u32>) -> u32 {
    ((opcode_value(op) as u32) << 24) | mode_bits(mode) | arg_field(mode, args)
}

/// The one or two words one node emits: a zero extension word is dropped,
/// which is safe because a real extension always exceeds four bits and so
/// is never zero.
pub open spec fn node_words(n: NodeView) -> Seq<u32> {
    if ext_value(n.mode, n.args) == 0 {
        seq![instruction_word(n.op, n.mode, n.args)]
    } else {
        seq![instruction_word(n.op, n.mode, n.args), ext_value(n.mode, n.args)]
    }
}

/// The whole image: each node's words, concatenated in node order.
pub open spec fn spec_generate(nodes: Seq<NodeView>) -> Seq<u32>
    decreases nodes.len(),
{
    if nodes.len() == 0 {
        Seq::empty()
    } else {
        spec_generate(nodes.drop_last()) + node_words(nodes.last())
    }
}

/// Identical opcode, mode and operands always encode to identical words.
pub proof fn lemma_encoding_deterministic(a: NodeView, b: NodeView)
    requires
        a.op == b.op,
        a.mode == b.mode,
        a.args == b.args,
    ensures
        node_words(a) == node_words(b),
{
}

/// An extension word appears exactly when an immediate-mode instruction's
/// last operand exceeds the four-bit range; it never appears otherwise.
pub proof fn lemma_extension_exactly_when_oversized(n: NodeView)
    ensures
        node_words(n).len() == 2 <==> (n.mode == InstructionMode::Immediate && n.args.len() > 0
            && n.args.last() > 0xF),
        node_words(n).len() == 1 <==> !(n.mode == InstructionMode::Immediate && n.args.len() > 0
            && n.args.last() > 0xF),
        node_words(n).len() == 2 ==> node_words(n)[1] == n.args.last(),
{
}

fn mode_bits_of(mode: InstructionMode) -> (r: u32)
    ensures
        r == mode_bits(mode),
{
    match mode {
        InstructionMode::Register => 0x00000000,
        InstructionMode::Immediate => 0x00400000,
        InstructionMode::RegisterIndirect => 0x00800000,
        InstructionMode::BaseOffset => 0x00C00000,
    }
}

fn packed_args_exec(arguments: &[u32], k: usize) -> (r: u32)
    requires
        k <= arguments@.len(),
    ensures
        r == packed_args(arguments@, k as int),
{
    let t0: u32 = if k > 0 {
        (arguments[0] & 0xF) << 12
    } else {
        0
    };
    let t1: u32 = if k > 1 {
        (arguments[1] & 0xF) << 8
    } else {
        0
    };
    let t2: u32 = if k > 2 {
        (arguments[2] & 0xF) << 4
    } else {
        0
    };
    let t3: u32 = if k > 3 {
        arguments[3] & 0xF
    } else {
        0
    };
    t0 | t1 | t2 | t3
}

/// Encodes one instruction into its word and its extension word.  The
/// extension word is zero whenever no extension is called for; the caller
/// drops it then.
pub fn encode_instruction(
    instruction: Instructions,
    mode: InstructionMode,
    arguments: &[u32],
) -> (r: Vec<u32>)
    requires
        arguments@.len() <= 4,
    ensures
        r@.len() == 2,
        r@[0] == instruction_word(instruction, mode, arguments@),
        r@[1] == ext_value(mode, arguments@),
{
    let n = arguments.len();
    let mut extension: u32 = 0;
    let field: u32 = match mode {
        InstructionMode::Immediate => {
            if n == 0 {
                0
            } else {
                let leads = packed_args_exec(arguments, n - 1);
                let last = arguments[n - 1];
                if last > 0xF {
                    extension = last;
                    leads | 0x1
                } else {
                    leads | (last & 0xF)
                }
            }
        },
        _ => packed_args_exec(arguments, n),
    };
    let word = ((instruction.to_u8() as u32) << 24) | mode_bits_of(mode) | field;
    let mut r: Vec<u32> = Vec::new();
    r.push(word);
    r.push(extension);
    r
}

/// Turns parsed nodes into the final word stream.
pub struct CodeGenerator;

impl CodeGenerator {
    /// Encodes every node in order and concatenates the words, dropping
    /// each zero extension word.
    #[verifier::loop_isolation(false)]
    pub fn generate(nodes: Vec<ASTNode>) -> (r: Vec<u32>)
        requires
            forall|i: int| 0 <= i < nodes@.len() ==> (#[trigger] nodes@[i]).args@.len() <= 4,
        ensures
            r@ == spec_generate(nodes.deep_view()),
    {
        let ghost nv = nodes.deep_view();
        let mut out: Vec<u32> = Vec::new();
        proof {
            assert(nv.take(0) =~= Seq::<NodeView>::empty());
        }
        let mut i: usize = 0;
        while i < nodes.len()
            invariant
                i <= nodes@.len(),
                out@ == spec_generate(nv.take(i as int)),
            decreases nodes@.len() - i,
        {
            proof {
                assert(nv[i as int] == nodes@[i as int].deep_view());
                assert(nv.take(i as int + 1).drop_last() =~= nv.take(i as int));
                assert(nv.take(i as int + 1).last() == nv[i as int]);
            }
            let node = &nodes[i];
            let words = encode_instruction(node.op_code, node.mode, node.args.as_slice());
            if words[1] == 0 {
                out.push(words[0]);
            } else {
                out.push(words[0]);
                out.push(words[1]);
            }
            proof {
                assert(out@ =~= spec_generate(nv.take(i as int + 1)));
            }
            i = i + 1;
        }
        proof {
            assert(nv.take(nv.len() as int) =~= nv);
        }
        out
    }
}

} // verus!
