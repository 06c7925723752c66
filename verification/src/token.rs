use vstd::prelude::*;

use crate::instructions::{InstructionMode, Instructions};

verus! {

/// One lexical unit of a retained source line.
#[derive(Debug)]
pub enum Token {
    OpCode(Instructions),
    Mode(InstructionMode),
    Register(u32),
    BaseOffset(u32, u32),
    Value(u32),
    Label(String),
}

/// The mathematical shape of a token, with a label's text as characters.
pub ghost enum TokenView {
    OpCode(Instructions),
    Mode(InstructionMode),
    Register(u32),
    BaseOffset(u32, u32),
    Value(u32),
    Label(Seq<char>),
}

impl View for Token {
    type V = TokenView;

    open spec fn view(&self) -> TokenView {
        match self {
            Token::OpCode(op) => TokenView::OpCode(*op),
            Token::Mode(m) => TokenView::Mode(*m),
            Token::Register(r) => TokenView::Register(*r),
            Token::BaseOffset(r, off) => TokenView::BaseOffset(*r, *off),
            Token::Value(v) => TokenView::Value(*v),
            Token::Label(name) => TokenView::Label(name@),
        }
    }
}

impl DeepView for Token {
    type V = TokenView;

    open spec fn deep_view(&self) -> TokenView {
        self.view()
    }
}

} // verus!
