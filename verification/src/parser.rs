use vstd::prelude::*;

use crate::chars::upper_seq;
use crate::errors::AsmError;
use crate::instructions::{mnemonic_chars, InstructionMode, Instructions};
use crate::lexer::{
    bare_label_lines, defines_label, empty_prepass_state, label_name_of, lemma_label_round_trip,
    prepass_from, spec_lookup_label, Lexer,
};
use crate::utils::clean_frags;
use crate::token::{Token, TokenView};

verus! {

/// One parsed instruction: opcode, addressing mode and raw operand values,
/// in source order.
pub struct ASTNode {
    pub op_code: Instructions,
    pub mode: InstructionMode,
    pub args: Vec<u32>,
    pub token_repr: String,
}

/// The mathematical shape of an instruction node.
pub ghost struct NodeView {
    pub op: Instructions,
    pub mode: InstructionMode,
    pub args: Seq<u32>,
}

impl View for ASTNode {
    type V = NodeView;

    open spec fn view(&self) -> NodeView {
        NodeView { op: self.op_code, mode: self.mode, args: self.args@ }
    }
}

impl DeepView for ASTNode {
    type V = NodeView;

    open spec fn deep_view(&self) -> NodeView {
        self.view()
    }
}

impl ASTNode {
    /// A node from its parts; the textual form keeps the mnemonic's
    /// canonical spelling.
    pub fn new(op_code: Instructions, mode: InstructionMode, args: Vec<u32>) -> (r: Self)
        ensures
            r@ == (NodeView { op: op_code, mode, args: args@ }),
            r.token_repr@ == mnemonic_chars(op_code),
    {
        let token_repr = op_code.mnemonic();
        Self { op_code, mode, args, token_repr }
    }
}

/// The operand value one token contributes: a register its index, a value
/// its literal, a label its resolved address; any other token kind breaks
/// the lexer's promise.
pub open spec fn spec_arg_of(labels: Seq<(Seq<char>, u32)>, t: TokenView) -> Result<u32, AsmError> {
    match t {
        TokenView::Register(r) => Ok(r),
        TokenView::Value(v) => Ok(v),
        TokenView::Label(name) => match spec_lookup_label(labels, upper_seq(name)) {
            Some(a) => Ok(a),
            None => Err(AsmError::UndefinedLabel),
        },
        _ => Err(AsmError::InternalTokenInvariant),
    }
}

/// The operand list contributed by the tokens after opcode and mode, or the
/// first failure.
pub open spec fn spec_args_of(labels: Seq<(Seq<char>, u32)>, ts: Seq<TokenView>) -> Result<
    Seq<u32>,
    AsmError,
>
    decreases ts.len(),
{
    if ts.len() == 0 {
        Ok(Seq::empty())
    } else {
        match spec_args_of(labels, ts.drop_last()) {
            Err(e) => Err(e),
            Ok(vs) => match spec_arg_of(labels, ts.last()) {
                Ok(v) => Ok(vs.push(v)),
                Err(e) => Err(e),
            },
        }
    }
}

/// One line's node: the first token must be the opcode and the second the
/// mode; the rest fold into the operand list in order.
pub open spec fn spec_parse_line(labels: Seq<(Seq<char>, u32)>, tokens: Seq<TokenView>) -> Result<
    NodeView,
    AsmError,
> {
    if tokens.len() < 2 {
        Err(AsmError::InternalTokenInvariant)
    } else {
        match tokens[0] {
            TokenView::OpCode(op) => match tokens[1] {
                TokenView::Mode(mode) => match spec_args_of(labels, tokens.skip(2)) {
                    Ok(args) => Ok(NodeView { op, mode, args }),
                    Err(e) => Err(e),
                },
                _ => Err(AsmError::InternalTokenInvariant),
            },
            _ => Err(AsmError::InternalTokenInvariant),
        }
    }
}

proof fn lemma_args_of_error(labels: Seq<(Seq<char>, u32)>, ts: Seq<TokenView>, i: int)
    requires
        0 <= i < ts.len(),
        spec_args_of(labels, ts.take(i)) is Ok,
        spec_arg_of(labels, ts[i]) is Err,
    ensures
        spec_args_of(labels, ts) == Err::<Seq<u32>, AsmError>(spec_arg_of(labels, ts[i])->Err_0),
    decreases ts.len(),
{
    if i == ts.len() - 1 {
        assert(ts.drop_last() =~= ts.take(i));
    } else {
        assert(ts.drop_last().take(i) =~= ts.take(i));
        lemma_args_of_error(labels, ts.drop_last(), i);
    }
}

proof fn lemma_args_of_pointwise(labels: Seq<(Seq<char>, u32)>, ts: Seq<TokenView>, k: int)
    requires
        spec_args_of(labels, ts) is Ok,
        0 <= k < ts.len(),
    ensures
        spec_args_of(labels, ts)->Ok_0.len() == ts.len(),
        spec_arg_of(labels, ts[k]) is Ok,
        spec_args_of(labels, ts)->Ok_0[k] == spec_arg_of(labels, ts[k])->Ok_0,
    decreases ts.len(),
{
    if k == ts.len() - 1 {
        if ts.len() > 1 {
            lemma_args_of_pointwise(labels, ts.drop_last(), 0);
        }
    } else {
        lemma_args_of_pointwise(labels, ts.drop_last(), k);
    }
}

/// Forward and backward references resolve to the same address: two label
/// tokens carrying case-equal names contribute the same operand value,
/// wherever in the token sequence they stand.
pub proof fn lemma_label_references_agree(
    labels: Seq<(Seq<char>, u32)>,
    ts: Seq<TokenView>,
    i: int,
    j: int,
    a: Seq<char>,
    b: Seq<char>,
)
    requires
        spec_args_of(labels, ts) is Ok,
        0 <= i < ts.len(),
        0 <= j < ts.len(),
        ts[i] == TokenView::Label(a),
        ts[j] == TokenView::Label(b),
        crate::chars::case_eq(a, b),
    ensures
        spec_args_of(labels, ts)->Ok_0[i] == spec_args_of(labels, ts)->Ok_0[j],
{
    lemma_args_of_pointwise(labels, ts, i);
    lemma_args_of_pointwise(labels, ts, j);
}

/// The label round trip, end to end: in a source whose label definitions
/// stand on lines of their own, a label defined once and referenced in an
/// operand token embeds, after parsing, exactly the label's byte address —
/// four times the zero-based position of the instruction it points at.
pub proof fn lemma_label_round_trip_embedding(
    lines: Seq<Seq<char>>,
    i: int,
    ts: Seq<TokenView>,
    j: int,
    name_ref: Seq<char>,
)
    requires
        bare_label_lines(lines),
        4 * lines.len() <= u32::MAX,
        0 <= i < lines.len(),
        defines_label(lines[i]),
        forall|k: int|
            0 <= k < i && #[trigger] defines_label(lines[k]) ==> label_name_of(
                clean_frags(lines[k])[0],
            ) != label_name_of(clean_frags(lines[i])[0]),
        spec_args_of(
            prepass_from(empty_prepass_state(), lines, lines.len() as int).labels,
            ts,
        ) is Ok,
        0 <= j < ts.len(),
        ts[j] == TokenView::Label(name_ref),
        upper_seq(name_ref) == label_name_of(clean_frags(lines[i])[0]),
    ensures
        spec_args_of(
            prepass_from(empty_prepass_state(), lines, lines.len() as int).labels,
            ts,
        )->Ok_0[j] == (4 * prepass_from(empty_prepass_state(), lines, i).retained.len()) as u32,
{
    let labels = prepass_from(empty_prepass_state(), lines, lines.len() as int).labels;
    lemma_label_round_trip(lines, i);
    lemma_args_of_pointwise(labels, ts, j);
}

/// Consumes token sequences against a finished label table.
pub struct Parser<'a> {
    lexer: &'a Lexer,
}

impl<'a> Parser<'a> {
    /// The label table this parser resolves references against.
    pub closed spec fn labels(&self) -> Seq<(Seq<char>, u32)> {
        self.lexer.labels_view()
    }

    pub fn new(lexer: &'a Lexer) -> (r: Self)
        ensures
            r.labels() == lexer.labels_view(),
    {
        Self { lexer }
    }

    /// Folds one line's tokens into an instruction node, resolving label
    /// references through the lexer's table; a token sequence that does not
    /// start with opcode and mode, or holds a token no operand can come
    /// from, breaks the lexer's promise.
    #[verifier::loop_isolation(false)]
    pub fn parse_line(&self, tokens: Vec<Token>) -> (r: Result<ASTNode, AsmError>)
        ensures
            match r {
                Ok(n) => spec_parse_line(self.labels(), tokens.deep_view()) == Ok::<_, AsmError>(n@)
                    && n.token_repr@ == mnemonic_chars(n@.op),
                Err(e) => spec_parse_line(self.labels(), tokens.deep_view()) == Err::<NodeView, _>(
                    e,
                ),
            },
    {
        let ghost tv = tokens.deep_view();
        if tokens.len() < 2 {
            return Err(AsmError::InternalTokenInvariant);
        }
        proof {
            assert(tv[0] == tokens@[0].deep_view());
            assert(tv[1] == tokens@[1].deep_view());
        }
        let op = match &tokens[0] {
            Token::OpCode(op) => *op,
            _ => {
                return Err(AsmError::InternalTokenInvariant);
            },
        };
        let mode = match &tokens[1] {
            Token::Mode(m) => *m,
            _ => {
                return Err(AsmError::InternalTokenInvariant);
            },
        };
        let ghost rest = tv.skip(2);
        let mut args: Vec<u32> = Vec::new();
        let mut i: usize = 2;
        while i < tokens.len()
            invariant
                2 <= i <= tokens@.len(),
                spec_args_of(self.labels(), rest.take(i - 2)) == Ok::<_, AsmError>(args@),
            decreases tokens@.len() - i,
        {
            proof {
                assert(tv[i as int] == tokens@[i as int].deep_view());
                assert(rest.take(i - 2 + 1).drop_last() =~= rest.take(i - 2));
                assert(rest.take(i - 2 + 1).last() == tv[i as int]);
            }
            let a = match &tokens[i] {
                Token::Register(r) => *r,
                Token::Value(v) => *v,
                Token::Label(name) => {
                    match self.lexer.get_label_address(name.as_str()) {
                        Some(a) => a,
                        None => {
                            proof {
                                lemma_args_of_error(self.labels(), rest, i - 2);
                            }
                            return Err(AsmError::UndefinedLabel);
                        },
                    }
                },
                _ => {
                    proof {
                        lemma_args_of_error(self.labels(), rest, i - 2);
                    }
                    return Err(AsmError::InternalTokenInvariant);
                },
            };
            args.push(a);
            i = i + 1;
        }
        proof {
            assert(rest.take(rest.len() as int) =~= rest);
        }
        Ok(ASTNode::new(op, mode, args))
    }
}

} // verus!
