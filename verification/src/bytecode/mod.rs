//! The compiled form of a module.

use vstd::prelude::*;

use std::sync::Arc;

use crate::parse_tree::tree::ParseTree;
use crate::parse_tree::{begins_control, begins_expr, ParserError};
use crate::string::StringSlice;
use crate::tokenizer::token::{Keyword, Token, TokenKind};
use crate::tokenizer::{token_from, TokenizeError, Tokenizer};
use op_code::{temp_free, OpCode};

pub mod op_code;

verus! {

/// A compiled module: the function that runs when the module is loaded, and
/// the functions that it declares. Instructions name functions by their
/// index in `functions`.
#[derive(Debug, Clone, PartialEq, Eq)]
pub struct CompiledModule {
    pub functions: Vec<Function>,
    pub init: Function,
}

/// A compiled function: the names of its parameters and its instructions.
#[derive(Debug, Clone, PartialEq, Eq)]
pub struct Function {
    pub params: Vec<String>,
    pub body: Vec<OpCode>,
}

#[derive(Debug, Clone, PartialEq, Eq)]
pub enum BytecodeGenerationError {
    ParserError(ParserError),
    IllegalAssignment(StringSlice),
    IllegalExport(StringSlice),
    IllegalBreak(StringSlice),
    IllegalContinue(StringSlice),
}

/// The first of two possible errors.
pub open spec fn first_fault(
    a: Option<BytecodeGenerationError>,
    b: Option<BytecodeGenerationError>,
) -> Option<BytecodeGenerationError> {
    if a is Some {
        a
    } else {
        b
    }
}

impl From<ParserError> for BytecodeGenerationError {
    fn from(value: ParserError) -> (r: Self) {
        BytecodeGenerationError::ParserError(value)
    }
}

impl vstd::std_specs::convert::FromSpecImpl<ParserError> for BytecodeGenerationError {
    open spec fn obeys_from_spec() -> bool {
        true
    }

    open spec fn from_spec(value: ParserError) -> Self {
        BytecodeGenerationError::ParserError(value)
    }
}

/// A token of this kind begins an item of a module: an import, a
/// declaration for tools, a statement, a function or a class.
pub open spec fn begins_item(kind: TokenKind) -> bool {
    ||| kind == TokenKind::Keyword(Keyword::Import)
    ||| kind == TokenKind::Keyword(Keyword::From)
    ||| kind == TokenKind::Keyword(Keyword::Declare)
    ||| kind == TokenKind::Keyword(Keyword::Export)
    ||| kind == TokenKind::Keyword(Keyword::Let)
    ||| kind == TokenKind::Keyword(Keyword::Const)
    ||| kind == TokenKind::Keyword(Keyword::Function)
    ||| kind == TokenKind::Keyword(Keyword::Class)
    ||| begins_control(kind)
    ||| begins_expr(kind)
}

/// What compiling a text comes to where its first token decides it. Where
/// that token cannot be read, the error of the tokenizer comes out,
/// wrapped twice. Where the text holds no token, the module is empty: no
/// function, and an init function without instructions. Where the first
/// token begins no item, it is refused.
pub open spec fn compiled_first(
    first: Result<Token, TokenizeError>,
    r: Result<CompiledModule, BytecodeGenerationError>,
) -> bool {
    match first {
        Err(e) => r matches Err(error) && error == BytecodeGenerationError::ParserError(
            ParserError::TokenizeError(e),
        ),
        Ok(token) => if token.kind is Eof {
            &&& r matches Ok(module)
            &&& module.functions@.len() == 0
            &&& module.init.body@.len() == 0
        } else if !begins_item(token.kind) {
            r matches Err(error) && error == BytecodeGenerationError::ParserError(
                ParserError::unexpected(token, "ParseTree::try_parse"@),
            )
        } else {
            true
        },
    }
}

/// The result `r` of compiling `src` comes from the result `read` of
/// reading a module from the start of `src`, which `text` stands for: an
/// error of reading comes out wrapped; a tree that was read is lowered,
/// and the module that it lowers to comes out, or the first error that
/// lowering it meets. Reading fails where `ParseTree::scan` says so, and
/// with the error that it gives.
pub open spec fn compiled_from(
    src: Arc<str>,
    text: Tokenizer,
    read: Result<Option<ParseTree>, ParserError>,
    r: Result<CompiledModule, BytecodeGenerationError>,
) -> bool {
    &&& text.wf()
    &&& text.source() == src
    &&& text.cursor() == 0
    &&& ParseTree::read(&text, read)
    &&& match read {
        Err(e) => ParseTree::scan(src, 0) == Err::<nat, ParserError>(e),
        Ok(_) => ParseTree::scan(src, 0) is Ok,
    }
    &&& match read {
        Err(e) => r == Err::<CompiledModule, BytecodeGenerationError>(
            BytecodeGenerationError::ParserError(e),
        ),
        Ok(found) => found matches Some(tree) && tree.sizes() == ParseTree::tally(src, 0)
            && match r {
            Ok(module) => tree.lowers_to(module),
            Err(e) => tree.fault() == Some(e),
        },
    }
}

/// Compiles the text of a module: the text is parsed, and the tree is
/// lowered. An error of the parser comes out wrapped. No stand-in for
/// `break` or `continue` is left in the compiled module. What comes out
/// comes from what reading the text from its start comes to.
pub fn compile(src: Arc<str>) -> (r: Result<CompiledModule, BytecodeGenerationError>)
    ensures
        match r {
            Ok(module) => {
                &&& temp_free(module.init.body@)
                &&& module.init.params@.len() == 0
                &&& forall|i: int|
                    0 <= i < module.functions@.len() ==> temp_free(
                        (#[trigger] module.functions@[i]).body@,
                    )
            },
            Err(_) => true,
        },
        compiled_first(token_from(src, 0, 0), r),
        exists|text: Tokenizer, read: Result<Option<ParseTree>, ParserError>| #[trigger]
            compiled_from(src, text, read, r),
        match ParseTree::scan(src, 0) {
            Err(e) => r == Err::<CompiledModule, BytecodeGenerationError>(
                BytecodeGenerationError::ParserError(e),
            ),
            Ok(_) => exists|tree: ParseTree| #[trigger] tree.comes_to(r),
        },
        r matches Ok(module) ==> module.functions@.len() == ParseTree::tally(src, 0).2,
{
    let mut tokenizer = Tokenizer::new(src);
    let ghost text = tokenizer;
    match ParseTree::try_parse(&mut tokenizer) {
        Ok(tree) => {
            let r = tree.unwrap().compile();
            assert(compiled_from(src, text, Ok(tree), r));
            assert(tree->Some_0.comes_to(r));
            r
        },
        Err(e) => {
            let r = Err(BytecodeGenerationError::from(e));
            assert(compiled_from(src, text, Err(e), r));
            r
        },
    }
}

} // verus!
